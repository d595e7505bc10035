//! The syntax tree of an expression, and the variables it refers to.

use crate::token::{is_identifier, is_numeral};
use vstd::prelude::*;

verus! {

/// A sign in front of an operand.
#[derive(Clone, Copy, Debug, PartialEq, Eq, Structural)]
pub enum UnOp {
    /// `+x`: the operand itself.
    Pos,
    /// `-x`: the operand negated.
    Neg,
}

/// An operator between two operands.
#[derive(Clone, Copy, Debug, PartialEq, Eq, Structural)]
pub enum BinOp {
    Add,
    Sub,
    Mul,
    Div,
}

/// An expression tree. Each node owns its children.
///
/// A constant holds its numeral as written (`"2"`, `"1.5e3"`): the tree
/// itself carries no arithmetic.
#[allow(inconsistent_fields)]
#[derive(Debug, PartialEq, Eq)]
pub enum Expr {
    /// A variable, by name.
    Var(String),
    /// A numeric constant, by its numeral.
    Val(String),
    UnOp { op: UnOp, expr: Box<Expr> },
    BinOp { lhs: Box<Expr>, op: BinOp, rhs: Box<Expr> },
}

/// The mathematical model of an [`Expr`]: the same tree over sequences of
/// characters.
#[allow(inconsistent_fields)]
pub enum Ast {
    Var(Seq<char>),
    Val(Seq<char>),
    UnOp { op: UnOp, expr: Box<Ast> },
    BinOp { lhs: Box<Ast>, op: BinOp, rhs: Box<Ast> },
}

impl Expr {
    /// The tree as a value of the model.
    pub open spec fn ast(&self) -> Ast
        decreases self,
    {
        match self {
            Expr::Var(name) => Ast::Var(name@),
            Expr::Val(numeral) => Ast::Val(numeral@),
            Expr::UnOp { op, expr } => Ast::UnOp { op: *op, expr: Box::new(expr.ast()) },
            Expr::BinOp { lhs, op, rhs } => Ast::BinOp {
                lhs: Box::new(lhs.ast()),
                op: *op,
                rhs: Box::new(rhs.ast()),
            },
        }
    }
}

impl View for Expr {
    type V = Ast;

    open spec fn view(&self) -> Ast {
        self.ast()
    }
}

/// The names of a list of bindings, as sequences of characters.
pub open spec fn names_of(bindings: Seq<String>) -> Seq<Seq<char>> {
    Seq::new(bindings.len(), |i: int| bindings[i]@)
}

impl Ast {
    /// Whether each variable of the tree is named by an identifier and each
    /// constant is written as a numeral.
    pub open spec fn well_formed(self) -> bool
        decreases self,
    {
        match self {
            Ast::Var(name) => is_identifier(name),
            Ast::Val(numeral) => is_numeral(numeral),
            Ast::UnOp { expr, .. } => expr.well_formed(),
            Ast::BinOp { lhs, rhs, .. } => lhs.well_formed() && rhs.well_formed(),
        }
    }

    /// Whether the variable `name` occurs in the tree.
    pub open spec fn mentions(self, name: Seq<char>) -> bool
        decreases self,
    {
        match self {
            Ast::Var(n) => n == name,
            Ast::Val(_) => false,
            Ast::UnOp { expr, .. } => expr.mentions(name),
            Ast::BinOp { lhs, rhs, .. } => lhs.mentions(name) || rhs.mentions(name),
        }
    }

    /// The names of the variable leaves, left to right, each as often as it
    /// occurs.
    pub open spec fn occurrences(self) -> Seq<Seq<char>>
        decreases self,
    {
        match self {
            Ast::Var(n) => seq![n],
            Ast::Val(_) => Seq::empty(),
            Ast::UnOp { expr, .. } => expr.occurrences(),
            Ast::BinOp { lhs, rhs, .. } => lhs.occurrences() + rhs.occurrences(),
        }
    }

    /// `names` after a walk over the tree, left to right, that appends each
    /// variable name not yet in the list.
    pub open spec fn extend(self, names: Seq<Seq<char>>) -> Seq<Seq<char>>
        decreases self,
    {
        match self {
            Ast::Var(n) => if names.contains(n) {
                names
            } else {
                names.push(n)
            },
            Ast::Val(_) => names,
            Ast::UnOp { expr, .. } => expr.extend(names),
            Ast::BinOp { lhs, rhs, .. } => rhs.extend(lhs.extend(names)),
        }
    }

    /// The variables of the tree: each name once, in the order of first
    /// occurrence.
    pub open spec fn bindings(self) -> Seq<Seq<char>> {
        self.extend(Seq::empty())
    }

    /// Whether every variable of the tree is among `names`.
    pub open spec fn bound_by(self, names: Seq<Seq<char>>) -> bool
        decreases self,
    {
        match self {
            Ast::Var(n) => names.contains(n),
            Ast::Val(_) => true,
            Ast::UnOp { expr, .. } => expr.bound_by(names),
            Ast::BinOp { lhs, rhs, .. } => lhs.bound_by(names) && rhs.bound_by(names),
        }
    }
}

/// `names` with each element of `more` appended, in order, unless it is
/// already there.
pub open spec fn append_new(names: Seq<Seq<char>>, more: Seq<Seq<char>>) -> Seq<Seq<char>>
    decreases more.len(),
{
    if more.len() == 0 {
        names
    } else {
        let first = more[0];
        let rest = more.subrange(1, more.len() as int);
        if names.contains(first) {
            append_new(names, rest)
        } else {
            append_new(names.push(first), rest)
        }
    }
}

/// The first position of a name is the one that no equal name precedes.
pub proof fn lemma_first_position(names: Seq<Seq<char>>, name: Seq<char>, i: int)
    requires
        0 <= i < names.len(),
        names[i] == name,
        forall|k: int| 0 <= k < i ==> names[k] != name,
    ensures
        names.index_of_first(name) == Some(i),
        names.contains(name),
{
    names.index_of_first_ensures(name);
    assert(names.contains(name));
    let found = names.index_of_first(name)->0;
    if found < i {
        assert(names[found] != name);
    } else if i < found {
        assert(names[i] != name);
    }
}

/// A name that is in no position has no first position.
pub proof fn lemma_no_position(names: Seq<Seq<char>>, name: Seq<char>)
    requires
        forall|k: int| 0 <= k < names.len() ==> names[k] != name,
    ensures
        names.index_of_first(name) is None,
        !names.contains(name),
{
    names.index_of_first_ensures(name);
}

/// The position of the first binding called `name`, if there is one.
pub fn binding_index(bindings: &Vec<String>, name: &String) -> (r: Option<usize>)
    ensures
        match r {
            Some(i) => names_of(bindings@).index_of_first(name@) == Some(i as int),
            None => names_of(bindings@).index_of_first(name@) is None,
        },
        r is Some <==> names_of(bindings@).contains(name@),
        r matches Some(i) ==> i < bindings.len(),
{
    let ghost names = names_of(bindings@);
    let mut i: usize = 0;
    while i < bindings.len()
        invariant
            i <= bindings.len(),
            names == names_of(bindings@),
            forall|k: int| 0 <= k < i ==> names[k] != name@,
        decreases bindings.len() - i,
    {
        if bindings[i] == *name {
            proof {
                lemma_first_position(names, name@, i as int);
            }
            return Some(i);
        }
        i = i + 1;
    }
    proof {
        lemma_no_position(names, name@);
    }
    None
}

impl Expr {
    /// Walks the tree left to right and appends to `bindings` each variable
    /// name that is not yet in it.
    pub fn extend_bindings(&self, bindings: &mut Vec<String>)
        ensures
            names_of(final(bindings)@) == self@.extend(names_of(old(bindings)@)),
        decreases self,
    {
        match self {
            Expr::Var(name) => {
                if binding_index(bindings, name).is_none() {
                    bindings.push(name.clone());
                    assert(names_of(bindings@) =~= names_of(old(bindings)@).push(name@));
                }
            },
            Expr::Val(_) => {},
            Expr::UnOp { expr, .. } => {
                expr.extend_bindings(bindings);
            },
            Expr::BinOp { lhs, rhs, .. } => {
                lhs.extend_bindings(bindings);
                rhs.extend_bindings(bindings);
            },
        }
    }

    /// Whether every variable of the tree is among `bindings`.
    pub fn is_bound_by(&self, bindings: &Vec<String>) -> (b: bool)
        ensures
            b == self@.bound_by(names_of(bindings@)),
        decreases self,
    {
        match self {
            Expr::Var(name) => binding_index(bindings, name).is_some(),
            Expr::Val(_) => true,
            Expr::UnOp { expr, .. } => expr.is_bound_by(bindings),
            Expr::BinOp { lhs, rhs, .. } => lhs.is_bound_by(bindings) && rhs.is_bound_by(bindings),
        }
    }
}

/// The variables that `ast` refers to: each name once, in the order in which
/// a left-to-right walk first meets it.
pub fn extract_bindings(ast: &Expr) -> (bindings: Vec<String>)
    ensures
        names_of(bindings@) == ast@.bindings(),
{
    let mut bindings: Vec<String> = Vec::new();
    assert(names_of(bindings@) =~= Seq::<Seq<char>>::empty());
    ast.extend_bindings(&mut bindings);
    bindings
}

/// A walk only appends: the names it started with stay where they are.
pub proof fn lemma_extend_keeps_prefix(ast: Ast, names: Seq<Seq<char>>)
    ensures
        names.len() <= ast.extend(names).len(),
        ast.extend(names).subrange(0, names.len() as int) == names,
    decreases ast,
{
    match ast {
        Ast::Var(n) => {
            assert(ast.extend(names).subrange(0, names.len() as int) =~= names);
        },
        Ast::Val(_) => {
            assert(names.subrange(0, names.len() as int) =~= names);
        },
        Ast::UnOp { expr, .. } => {
            lemma_extend_keeps_prefix(*expr, names);
        },
        Ast::BinOp { lhs, rhs, .. } => {
            let mid = lhs.extend(names);
            lemma_extend_keeps_prefix(*lhs, names);
            lemma_extend_keeps_prefix(*rhs, mid);
            let all = rhs.extend(mid);
            assert(all.subrange(0, names.len() as int) =~= all.subrange(
                0,
                mid.len() as int,
            ).subrange(0, names.len() as int));
        },
    }
}

/// After a walk the list holds the names it started with and the variables
/// of the tree, and no other name.
pub proof fn lemma_extend_contains(ast: Ast, names: Seq<Seq<char>>, name: Seq<char>)
    ensures
        ast.extend(names).contains(name) <==> names.contains(name) || ast.mentions(name),
    decreases ast,
{
    match ast {
        Ast::Var(n) => {
            if !names.contains(n) {
                let longer = names.push(n);
                assert(longer[names.len() as int] == n);
                if names.contains(name) {
                    let k = choose|k: int| 0 <= k < names.len() && names[k] == name;
                    assert(longer[k] == name);
                }
                if longer.contains(name) {
                    let k = choose|k: int| 0 <= k < longer.len() && longer[k] == name;
                    if k < names.len() {
                        assert(names[k] == name);
                    }
                }
            }
        },
        Ast::Val(_) => {},
        Ast::UnOp { expr, .. } => {
            lemma_extend_contains(*expr, names, name);
        },
        Ast::BinOp { lhs, rhs, .. } => {
            lemma_extend_contains(*lhs, names, name);
            lemma_extend_contains(*rhs, lhs.extend(names), name);
        },
    }
}

/// A walk binds no name twice, if none was bound twice before.
pub proof fn lemma_extend_no_duplicates(ast: Ast, names: Seq<Seq<char>>)
    requires
        names.no_duplicates(),
    ensures
        ast.extend(names).no_duplicates(),
    decreases ast,
{
    match ast {
        Ast::Var(n) => {
            if !names.contains(n) {
                let longer = names.push(n);
                assert forall|i: int, j: int|
                    0 <= i < longer.len() && 0 <= j < longer.len() && i != j implies longer[i]
                    != longer[j] by {
                    if i < names.len() {
                        assert(names[i] == longer[i]);
                    }
                    if j < names.len() {
                        assert(names[j] == longer[j]);
                    }
                }
            }
        },
        Ast::Val(_) => {},
        Ast::UnOp { expr, .. } => {
            lemma_extend_no_duplicates(*expr, names);
        },
        Ast::BinOp { lhs, rhs, .. } => {
            lemma_extend_no_duplicates(*lhs, names);
            lemma_extend_no_duplicates(*rhs, lhs.extend(names));
        },
    }
}

/// A tree is bound by a list exactly if the list holds each of its
/// variables.
pub proof fn lemma_bound_by_mentions(ast: Ast, names: Seq<Seq<char>>)
    ensures
        ast.bound_by(names) <==> forall|name: Seq<char>|
            ast.mentions(name) ==> names.contains(name),
    decreases ast,
{
    match ast {
        Ast::Var(n) => {
            assert(ast.mentions(n));
        },
        Ast::Val(_) => {},
        Ast::UnOp { expr, .. } => {
            lemma_bound_by_mentions(*expr, names);
            assert forall|name: Seq<char>| ast.mentions(name) == expr.mentions(name) by {}
        },
        Ast::BinOp { lhs, rhs, .. } => {
            lemma_bound_by_mentions(*lhs, names);
            lemma_bound_by_mentions(*rhs, names);
            assert forall|name: Seq<char>|
                ast.mentions(name) == (lhs.mentions(name) || rhs.mentions(name)) by {}
        },
    }
}

/// Appending the new names of one list and then of another is appending the
/// new names of the two lists joined.
pub proof fn lemma_append_new_concat(
    names: Seq<Seq<char>>,
    first: Seq<Seq<char>>,
    second: Seq<Seq<char>>,
)
    ensures
        append_new(names, first + second) == append_new(append_new(names, first), second),
    decreases first.len(),
{
    if first.len() == 0 {
        assert(first + second =~= second);
    } else {
        let joined = first + second;
        let rest = first.subrange(1, first.len() as int);
        assert(joined[0] == first[0]);
        assert(joined.subrange(1, joined.len() as int) =~= rest + second);
        if names.contains(first[0]) {
            lemma_append_new_concat(names, rest, second);
        } else {
            lemma_append_new_concat(names.push(first[0]), rest, second);
        }
    }
}

/// A walk appends the variable leaves in their order, each unless it is
/// already in the list.
pub proof fn lemma_extend_in_order(ast: Ast, names: Seq<Seq<char>>)
    ensures
        ast.extend(names) == append_new(names, ast.occurrences()),
    decreases ast,
{
    match ast {
        Ast::Var(n) => {
            let one = seq![n];
            assert(one.subrange(1, one.len() as int) =~= Seq::<Seq<char>>::empty());
            assert(one[0] == n);
            reveal_with_fuel(append_new, 2);
        },
        Ast::Val(_) => {},
        Ast::UnOp { expr, .. } => {
            lemma_extend_in_order(*expr, names);
        },
        Ast::BinOp { lhs, rhs, .. } => {
            lemma_extend_in_order(*lhs, names);
            lemma_extend_in_order(*rhs, lhs.extend(names));
            lemma_append_new_concat(names, lhs.occurrences(), rhs.occurrences());
        },
    }
}

/// The bindings of a tree are its variables: each name that occurs in it,
/// once, in the order of the first occurrences; and they bind the tree.
pub proof fn lemma_bindings(ast: Ast)
    ensures
        ast.bindings().no_duplicates(),
        ast.bindings() == append_new(Seq::empty(), ast.occurrences()),
        forall|name: Seq<char>| ast.bindings().contains(name) <==> ast.mentions(name),
        ast.bound_by(ast.bindings()),
{
    let none = Seq::<Seq<char>>::empty();
    lemma_extend_no_duplicates(ast, none);
    lemma_extend_in_order(ast, none);
    assert forall|name: Seq<char>| ast.bindings().contains(name) <==> ast.mentions(name) by {
        lemma_extend_contains(ast, none, name);
    }
    lemma_bound_by_mentions(ast, ast.bindings());
}

/// Two trees of the same shape have the same bindings, in the same order.
pub proof fn lemma_same_tree_same_bindings(a: Expr, b: Expr)
    requires
        a@ == b@,
    ensures
        a@.bindings() == b@.bindings(),
{
}

} // verus!
