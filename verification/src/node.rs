//! The state of an expression node: its text, the last tree that parsed, and
//! one input slot for each variable of that tree.

use crate::expr::{extract_bindings, lemma_bindings, names_of, Ast, Expr};
use crate::parser::{parse, parse_text};
use crate::reconcile::{patch_of, reconcile, Patch};
use vstd::pervasive::unreached;
use vstd::prelude::*;

verus! {

/// An expression node.
///
/// `values[i]` is the value bound to `bindings[i]`, as the 64 bits of an
/// IEEE 754 double. `expr` is the tree of the last text that parsed; it stays
/// while the text does not parse.
#[derive(Debug, PartialEq, Eq)]
pub struct ExprNode {
    pub text: String,
    pub bindings: Vec<String>,
    pub values: Vec<u64>,
    pub expr: Expr,
}

/// The mathematical model of an [`ExprNode`].
pub struct ExprNodeView {
    pub text: Seq<char>,
    pub bindings: Seq<Seq<char>>,
    pub values: Seq<u64>,
    pub expr: Ast,
}

impl View for ExprNode {
    type V = ExprNodeView;

    open spec fn view(&self) -> ExprNodeView {
        ExprNodeView {
            text: self.text@,
            bindings: names_of(self.bindings@),
            values: self.values@,
            expr: self.expr@,
        }
    }
}

impl ExprNodeView {
    /// The state of a node that was just made: the text `0`, its tree, and no
    /// variable.
    pub open spec fn initial() -> ExprNodeView {
        ExprNodeView {
            text: seq!['0'],
            bindings: Seq::empty(),
            values: Seq::empty(),
            expr: Ast::Val(seq!['0']),
        }
    }

    /// The invariant of a node: one value for each binding, no name bound
    /// twice, and every variable of the tree bound.
    pub open spec fn well_formed(self) -> bool {
        &&& self.bindings.len() == self.values.len()
        &&& self.bindings.no_duplicates()
        &&& self.expr.bound_by(self.bindings)
    }

    /// The state after the text was edited to `new_text`, and whether the
    /// slots changed.
    ///
    /// The same text changes nothing. Any other text is stored. If it does
    /// not parse, nothing else changes. If it parses, its tree replaces the
    /// old one; and if the variables of that tree are not the bindings, name
    /// for name, they become the bindings, each with the value that its name
    /// had before, or with the default if it had none.
    pub open spec fn edited(self, new_text: Seq<char>) -> (ExprNodeView, bool) {
        if new_text == self.text {
            (self, false)
        } else {
            match parse_text(new_text) {
                Err(_) => (ExprNodeView { text: new_text, ..self }, false),
                Ok(ast) => if ast.bindings() == self.bindings {
                    (ExprNodeView { text: new_text, expr: ast, ..self }, false)
                } else {
                    (
                        ExprNodeView {
                            text: new_text,
                            bindings: ast.bindings(),
                            values: patch_of(self.bindings, self.values, ast.bindings()).values(),
                            expr: ast,
                        },
                        true,
                    )
                },
            }
        }
    }

    /// The patch that an edit to `new_text` applies to the slots, if it
    /// changes them.
    pub open spec fn edit_patch(self, new_text: Seq<char>) -> Option<crate::reconcile::PatchView> {
        if self.edited(new_text).1 {
            Some(patch_of(self.bindings, self.values, self.edited(new_text).0.bindings))
        } else {
            None
        }
    }
}

/// Whether two lists hold the same names in the same order.
pub fn same_names(a: &Vec<String>, b: &Vec<String>) -> (same: bool)
    ensures
        same == (names_of(a@) == names_of(b@)),
{
    if a.len() != b.len() {
        return false;
    }
    let mut i: usize = 0;
    while i < a.len()
        invariant
            i <= a.len(),
            a.len() == b.len(),
            forall|k: int| 0 <= k < i ==> names_of(a@)[k] == names_of(b@)[k],
        decreases a.len() - i,
    {
        if a[i] != b[i] {
            assert(names_of(a@)[i as int] != names_of(b@)[i as int]);
            return false;
        }
        i = i + 1;
    }
    assert(names_of(a@) =~= names_of(b@));
    true
}

impl ExprNode {
    /// A new node: the text `0`, its tree, and no variable.
    pub fn new() -> (node: ExprNode)
        ensures
            node@ == ExprNodeView::initial(),
            node@.well_formed(),
    {
        proof {
            reveal_strlit("0");
        }
        let node = ExprNode {
            text: "0".to_owned(),
            bindings: Vec::new(),
            values: Vec::new(),
            expr: Expr::Val("0".to_owned()),
        };
        assert(node.text@ =~= seq!['0']);
        assert(node@.bindings =~= Seq::empty());
        node
    }

    /// Takes an edit of the text, and returns the patch that it applied to
    /// the slots, if it changed them.
    pub fn update_text(&mut self, new_text: &str) -> (patch: Option<Patch>)
        requires
            old(self).bindings.len() == old(self).values.len(),
        ensures
            final(self)@ == old(self)@.edited(new_text@).0,
            match patch {
                Some(p) => old(self)@.edit_patch(new_text@) == Some(p@) && p@.in_range(),
                None => old(self)@.edit_patch(new_text@) is None,
            },
            old(self)@.well_formed() ==> final(self)@.well_formed(),
    {
        proof {
            lemma_edit_keeps_invariant(old(self)@, new_text@);
        }
        let owned: String = new_text.to_owned();
        if owned == self.text {
            return None;
        }
        self.text = owned;
        match parse(new_text) {
            Err(_) => None,
            Ok(ast) => {
                let new_bindings = extract_bindings(&ast);
                self.expr = ast;
                if same_names(&new_bindings, &self.bindings) {
                    None
                } else {
                    let patch = reconcile(&self.bindings, &self.values, &new_bindings);
                    self.values = patch.apply();
                    self.bindings = new_bindings;
                    Some(patch)
                }
            },
        }
    }

    /// Takes an edit of the text. Returns whether the slots changed, so that
    /// pins and wires have to follow.
    pub fn on_text_changed(&mut self, new_text: &str) -> (changed: bool)
        requires
            old(self).bindings.len() == old(self).values.len(),
        ensures
            final(self)@ == old(self)@.edited(new_text@).0,
            changed == old(self)@.edited(new_text@).1,
            old(self)@.well_formed() ==> final(self)@.well_formed(),
    {
        self.update_text(new_text).is_some()
    }

    /// Whether the tree can be evaluated on the slots: there is one value
    /// for each binding, and every variable of the tree is bound.
    pub fn can_eval(&self) -> (ok: bool)
        ensures
            ok == (self.bindings.len() == self.values.len() && self.expr@.bound_by(
                names_of(self.bindings@),
            )),
    {
        self.bindings.len() == self.values.len() && self.expr.is_bound_by(&self.bindings)
    }
}

/// A text that does not parse is stored and changes nothing else: the
/// bindings, the values and the tree stay, and no change of slots is
/// reported.
pub proof fn lemma_edit_invalid_text(node: ExprNodeView, new_text: Seq<char>)
    requires
        parse_text(new_text) is Err,
    ensures
        node.edited(new_text).0.text == new_text,
        node.edited(new_text).0.bindings == node.bindings,
        node.edited(new_text).0.values == node.values,
        node.edited(new_text).0.expr == node.expr,
        node.edited(new_text).1 == false,
        node.edit_patch(new_text) is None,
{
}

/// An edit keeps the invariant of a node. After an edit that parses, the
/// bindings are the variables of the tree, whatever the node was before.
pub proof fn lemma_edit_keeps_invariant(node: ExprNodeView, new_text: Seq<char>)
    ensures
        node.well_formed() ==> node.edited(new_text).0.well_formed(),
        node.bindings.len() == node.values.len() ==> node.edited(new_text).0.bindings.len()
            == node.edited(new_text).0.values.len(),
        new_text != node.text && parse_text(new_text) is Ok ==> node.edited(new_text).0.bindings
            == node.edited(new_text).0.expr.bindings(),
{
    if new_text != node.text {
        if let Ok(ast) = parse_text(new_text) {
            lemma_bindings(ast);
        }
    }
}

/// An edit reports a change of slots exactly if the text is new, parses, and
/// has other variables than the bindings, or the same in another order.
pub proof fn lemma_edit_reports_change(node: ExprNodeView, new_text: Seq<char>)
    ensures
        node.edited(new_text).1 <==> (new_text != node.text && (parse_text(new_text) matches Ok(ast)
            && ast.bindings() != node.bindings)),
        !node.edited(new_text).1 ==> node.edited(new_text).0.bindings == node.bindings
            && node.edited(new_text).0.values == node.values,
{
}

/// A node of the graph.
#[derive(Debug, PartialEq, Eq)]
pub enum DemoNode {
    /// One input, no output: shows what is wired to it.
    Sink,
    /// One output: a number, as the 64 bits of an IEEE 754 double.
    Number(u64),
    /// One output: a text.
    String(String),
    /// One input, the address of an image, and one output, the image.
    ShowImage(String),
    /// One output, the value of an expression; one input for its text and
    /// one for each of its variables.
    ExprNode(ExprNode),
}

impl DemoNode {
    /// The name of the kind of node, as a sequence of characters.
    pub open spec fn kind_name(&self) -> Seq<char> {
        match self {
            DemoNode::Sink => "Sink"@,
            DemoNode::Number(_) => "Number"@,
            DemoNode::String(_) => "String"@,
            DemoNode::ShowImage(_) => "ShowImage"@,
            DemoNode::ExprNode(_) => "ExprNode"@,
        }
    }

    /// The name of the kind of node.
    pub fn name(&self) -> (name: &str)
        ensures
            name@ == self.kind_name(),
    {
        match self {
            DemoNode::Sink => "Sink",
            DemoNode::Number(_) => "Number",
            DemoNode::String(_) => "String",
            DemoNode::ShowImage(_) => "ShowImage",
            DemoNode::ExprNode(_) => "ExprNode",
        }
    }

    /// The value behind pin `idx` of an expression node, to read and to
    /// write. Pin `idx` belongs to binding `idx - 1`; nothing but its value
    /// changes.
    pub fn number_in(&mut self, idx: usize) -> (value: &mut u64)
        requires
            *old(self) matches DemoNode::ExprNode(node) && 1 <= idx <= node.values.len(),
        ensures
            *old(self) matches DemoNode::ExprNode(before) && *value == before.values[idx - 1]
                && (*final(self) matches DemoNode::ExprNode(after) && after.text == before.text
                && after.bindings == before.bindings && after.expr == before.expr && after.values@
                == before.values@.update(idx - 1, *final(value))),
    {
        match self {
            DemoNode::ExprNode(expr_node) => &mut expr_node.values[idx - 1],
            _ => unreached(),
        }
    }

    /// The label of input pin `idx`: `URL` for the pin of an image node, the
    /// name of binding `idx - 1` for a pin of an expression node. The node
    /// stays as it is.
    pub fn label_in(&mut self, idx: usize) -> (label: &str)
        requires
            (*old(self) is ShowImage && idx == 0) || (*old(self) matches DemoNode::ExprNode(node)
                && 1 <= idx <= node.bindings.len()),
        ensures
            match *old(self) {
                DemoNode::ExprNode(node) => label@ == node.bindings[idx - 1]@,
                _ => label@ == "URL"@,
            },
            *final(self) == *old(self),
    {
        match self {
            DemoNode::ShowImage(_) => "URL",
            DemoNode::ExprNode(expr_node) => expr_node.bindings[idx - 1].as_str(),
            _ => unreached(),
        }
    }

    /// The text that a text node puts out.
    pub fn string_out(&self) -> (text: &str)
        requires
            self is String,
        ensures
            self matches DemoNode::String(value) && text@ == value@,
    {
        match self {
            DemoNode::String(value) => value.as_str(),
            _ => unreached(),
        }
    }

    /// The text that a node takes in, to read and to write: the address of
    /// an image node, the text of an expression node. Nothing but that text
    /// changes.
    pub fn string_in(&mut self) -> (text: &mut String)
        requires
            *old(self) is ShowImage || *old(self) is ExprNode,
        ensures
            match *old(self) {
                DemoNode::ShowImage(uri) => *text == uri && *final(self) == DemoNode::ShowImage(
                    *final(text),
                ),
                DemoNode::ExprNode(before) => *text == before.text && *final(self)
                    == DemoNode::ExprNode(ExprNode { text: *final(text), ..before }),
                _ => false,
            },
    {
        match self {
            DemoNode::ShowImage(uri) => uri,
            DemoNode::ExprNode(expr_node) => &mut expr_node.text,
            _ => unreached(),
        }
    }

    /// The expression node that this node is, to read and to write.
    pub fn expr_node(&mut self) -> (node: &mut ExprNode)
        requires
            *old(self) is ExprNode,
        ensures
            *old(self) matches DemoNode::ExprNode(before) && *node == before,
            *final(self) == DemoNode::ExprNode(*final(node)),
    {
        match self {
            DemoNode::ExprNode(expr_node) => expr_node,
            _ => unreached(),
        }
    }
}

} // verus!
