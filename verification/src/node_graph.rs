//! What the viewer of the graph decides: the title and the pins of a node,
//! and which wires it accepts.

use crate::node::DemoNode;
use vstd::prelude::*;

verus! {

/// What a pin carries, as a set of bits: two pins fit if they share a bit.
pub type PinCompat = usize;

/// The pin carries a number.
pub const PIN_NUM: PinCompat = 1;

/// The pin carries a text.
pub const PIN_STR: PinCompat = 2;

/// The pin carries an image.
pub const PIN_IMG: PinCompat = 4;

/// The pin takes everything: a number, a text, an image.
pub const PIN_SINK: PinCompat = PIN_NUM | PIN_STR | PIN_IMG;

/// What the output pin of `node` carries; nothing where it has none.
pub open spec fn out_compat(node: &DemoNode) -> PinCompat {
    match node {
        DemoNode::Sink => 0,
        DemoNode::String(_) => PIN_STR,
        DemoNode::ShowImage(_) => PIN_IMG,
        DemoNode::Number(_) => PIN_NUM,
        DemoNode::ExprNode(_) => PIN_NUM,
    }
}

/// What input pin `pin` of `node` takes; nothing where it has none.
pub open spec fn in_compat(node: &DemoNode, pin: usize) -> PinCompat {
    match node {
        DemoNode::Sink => PIN_SINK,
        DemoNode::Number(_) => 0,
        DemoNode::String(_) => 0,
        DemoNode::ShowImage(_) => PIN_STR,
        DemoNode::ExprNode(_) => if pin == 0 {
            PIN_STR
        } else {
            PIN_NUM
        },
    }
}

/// Whether a wire from the output of `from` to input `input` of `to` is
/// accepted. A sink takes every wire, an image node the wire of a text node;
/// an expression node takes a text on pin 0 and a number, from a number node
/// or another expression node, on every other pin.
pub open spec fn wire_accepted(from: &DemoNode, to: &DemoNode, input: usize) -> bool {
    match (from, to) {
        (_, DemoNode::Sink) => true,
        (DemoNode::String(_), DemoNode::ShowImage(_)) => true,
        (DemoNode::ExprNode(_), DemoNode::ExprNode(_)) => input != 0,
        (DemoNode::Number(_), DemoNode::ExprNode(_)) => input != 0,
        (DemoNode::String(_), DemoNode::ExprNode(_)) => input == 0,
        _ => false,
    }
}

/// The title of `node`, as a sequence of characters.
pub open spec fn title_of(node: &DemoNode) -> Seq<char> {
    match node {
        DemoNode::Sink => "Sink"@,
        DemoNode::Number(_) => "Number"@,
        DemoNode::String(_) => "String"@,
        DemoNode::ShowImage(_) => "Show image"@,
        DemoNode::ExprNode(_) => "Expr"@,
    }
}

/// The number of input pins of `node`: one for a sink and for an image node,
/// none for a number and for a text, and for an expression node one for the
/// text and one for each binding.
pub open spec fn input_count(node: &DemoNode) -> int {
    match node {
        DemoNode::Sink => 1,
        DemoNode::ShowImage(_) => 1,
        DemoNode::Number(_) => 0,
        DemoNode::String(_) => 0,
        DemoNode::ExprNode(expr_node) => 1 + expr_node.bindings.len(),
    }
}

/// The number of output pins of `node`: none for a sink, one for every
/// other node.
pub open spec fn output_count(node: &DemoNode) -> int {
    match node {
        DemoNode::Sink => 0,
        _ => 1,
    }
}

/// What the output pin of `node` carries.
pub fn pin_out_compat(node: &DemoNode) -> (compat: PinCompat)
    ensures
        compat == out_compat(node),
{
    match node {
        DemoNode::Sink => 0,
        DemoNode::String(_) => PIN_STR,
        DemoNode::ShowImage(_) => PIN_IMG,
        DemoNode::Number(_) | DemoNode::ExprNode(_) => PIN_NUM,
    }
}

/// What input pin `pin` of `node` takes.
pub fn pin_in_compat(node: &DemoNode, pin: usize) -> (compat: PinCompat)
    ensures
        compat == in_compat(node, pin),
{
    match node {
        DemoNode::Sink => PIN_SINK,
        DemoNode::Number(_) | DemoNode::String(_) => 0,
        DemoNode::ShowImage(_) => PIN_STR,
        DemoNode::ExprNode(_) => {
            if pin == 0 {
                PIN_STR
            } else {
                PIN_NUM
            }
        },
    }
}

/// Whether an output that carries `out` can be wired to an input that takes
/// `taken`: they share a bit.
pub fn pins_fit(out: PinCompat, taken: PinCompat) -> (fit: bool)
    ensures
        fit == ((out & taken) != 0),
{
    out & taken != 0
}

/// The viewer of the graph.
#[derive(Clone, Copy, Debug, PartialEq, Eq)]
pub struct DemoViewer;

impl DemoViewer {
    /// Whether a wire from the output of `from` to input `input` of `to` is
    /// to be made. `from` has an output and `to` has inputs.
    pub fn connect(&mut self, from: &DemoNode, to: &DemoNode, input: usize) -> (accepted: bool)
        requires
            !(from is Sink),
            !(to is Number),
            !(to is String),
        ensures
            accepted == wire_accepted(from, to, input),
    {
        match (from, to) {
            (_, DemoNode::Sink) => true,
            (DemoNode::Number(_), DemoNode::ShowImage(_)) => false,
            (DemoNode::ShowImage(_), DemoNode::ShowImage(_)) => false,
            (DemoNode::String(_), DemoNode::ShowImage(_)) => true,
            (DemoNode::ExprNode(_), DemoNode::ExprNode(_)) => input != 0,
            (DemoNode::Number(_), DemoNode::ExprNode(_)) => input != 0,
            (DemoNode::String(_), DemoNode::ExprNode(_)) => input == 0,
            (DemoNode::ShowImage(_), DemoNode::ExprNode(_)) => false,
            (DemoNode::ExprNode(_), DemoNode::ShowImage(_)) => false,
            _ => false,
        }
    }

    /// The title of `node`.
    pub fn title(&mut self, node: &DemoNode) -> (title: String)
        ensures
            title@ == title_of(node),
    {
        match node {
            DemoNode::Sink => "Sink".to_owned(),
            DemoNode::Number(_) => "Number".to_owned(),
            DemoNode::String(_) => "String".to_owned(),
            DemoNode::ShowImage(_) => "Show image".to_owned(),
            DemoNode::ExprNode(_) => "Expr".to_owned(),
        }
    }

    /// The number of input pins of `node`.
    pub fn inputs(&mut self, node: &DemoNode) -> (count: usize)
        requires
            input_count(node) <= usize::MAX,
        ensures
            count == input_count(node),
    {
        match node {
            DemoNode::Sink | DemoNode::ShowImage(_) => 1,
            DemoNode::Number(_) | DemoNode::String(_) => 0,
            DemoNode::ExprNode(expr_node) => 1 + expr_node.bindings.len(),
        }
    }

    /// The number of output pins of `node`.
    pub fn outputs(&mut self, node: &DemoNode) -> (count: usize)
        ensures
            count == output_count(node),
    {
        match node {
            DemoNode::Sink => 0,
            DemoNode::Number(_)
            | DemoNode::String(_)
            | DemoNode::ShowImage(_)
            | DemoNode::ExprNode(_) => 1,
        }
    }
}

/// A wire is accepted exactly if what the output carries is among what the
/// input takes.
pub proof fn lemma_accepted_wires_fit(from: &DemoNode, to: &DemoNode, input: usize)
    requires
        !(from is Sink),
        !(to is Number),
        !(to is String),
    ensures
        wire_accepted(from, to, input) <==> (out_compat(from) & in_compat(to, input)) != 0,
{
    assert(PIN_SINK == 7) by {
        assert(1usize | 2usize | 4usize == 7usize) by (bit_vector);
    }
    assert(1usize & 1usize == 1usize) by (bit_vector);
    assert(1usize & 2usize == 0usize) by (bit_vector);
    assert(1usize & 7usize == 1usize) by (bit_vector);
    assert(2usize & 1usize == 0usize) by (bit_vector);
    assert(2usize & 2usize == 2usize) by (bit_vector);
    assert(2usize & 7usize == 2usize) by (bit_vector);
    assert(4usize & 1usize == 0usize) by (bit_vector);
    assert(4usize & 2usize == 0usize) by (bit_vector);
    assert(4usize & 7usize == 4usize) by (bit_vector);
}

} // verus!
