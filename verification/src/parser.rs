//! The grammar of expressions, and the parser that follows it.
//!
//! ```text
//! expr  := term (('+' | '-') term)*
//! term  := unary (('*' | '/') unary)*
//! unary := ['+' | '-'] atom
//! atom  := NUMBER | IDENTIFIER | '(' expr ')'
//! ```
//!
//! `*` and `/` bind more tightly than `+` and `-`; operators of one tier
//! group from the left; a sign applies to the atom after it only.

use crate::expr::{Ast, BinOp, Expr, UnOp};
use crate::token::{
    chars_of, lemma_next_token, lemma_token_text, next_token, read_token, run_end, scan_run,
    CharClass, Token, TokenKind,
};
use vstd::prelude::*;
use vstd::string::StrSliceExecFns;

verus! {

/// Why a text is not an expression.
#[derive(Clone, Copy, Debug, PartialEq, Eq, Structural)]
pub enum SyntaxErrorKind {
    /// A character that starts no token.
    UnexpectedChar,
    /// The text ends where an operand is expected.
    UnexpectedEnd,
    /// A token where an operand, or a closing parenthesis, is expected.
    UnexpectedToken,
    /// An opening parenthesis whose group the text never closes.
    UnmatchedParen,
    /// Something follows a complete expression.
    TrailingInput,
}

/// A syntax error: what went wrong, and at which character of the text.
#[derive(Clone, Copy, Debug, PartialEq, Eq)]
pub struct SyntaxError {
    pub kind: SyntaxErrorKind,
    pub position: usize,
}

/// The mathematical model of a [`SyntaxError`], with an unbounded position.
pub struct SyntaxErrorView {
    pub kind: SyntaxErrorKind,
    pub position: int,
}

impl View for SyntaxError {
    type V = SyntaxErrorView;

    open spec fn view(&self) -> SyntaxErrorView {
        SyntaxErrorView { kind: self.kind, position: self.position as int }
    }
}

/// What parsing from a position yields: a tree and the position after it.
pub type Parsed = Result<(Ast, int), SyntaxErrorView>;

/// The operator that a token stands for between two operands.
pub open spec fn binary_operator(kind: TokenKind) -> Option<BinOp> {
    match kind {
        TokenKind::Plus => Some(BinOp::Add),
        TokenKind::Minus => Some(BinOp::Sub),
        TokenKind::Star => Some(BinOp::Mul),
        TokenKind::Slash => Some(BinOp::Div),
        _ => None,
    }
}

/// The sign that a token stands for in front of an operand.
pub open spec fn sign(kind: TokenKind) -> Option<UnOp> {
    match kind {
        TokenKind::Plus => Some(UnOp::Pos),
        TokenKind::Minus => Some(UnOp::Neg),
        _ => None,
    }
}

/// Whether `op` is of the tier that binds more tightly: `*` and `/`.
pub open spec fn is_tight(op: BinOp) -> bool {
    op == BinOp::Mul || op == BinOp::Div
}

/// The error for a position from which no token can be read: the text has
/// ended, or a character starts no token.
pub open spec fn no_token(s: Seq<char>, pos: int) -> SyntaxErrorView {
    let j = run_end(s, pos, CharClass::Space);
    if j >= s.len() {
        SyntaxErrorView { kind: SyntaxErrorKind::UnexpectedEnd, position: j }
    } else {
        SyntaxErrorView { kind: SyntaxErrorKind::UnexpectedChar, position: j }
    }
}

/// The operator right after an operand that spans `pos..p`, with the position
/// at which its right operand starts.
///
/// An operand is never empty, so `pos < p` holds wherever the grammar asks
/// (see [`lemma_unary_advances`]); stating it here lets the recursion of the
/// grammar be seen to end.
pub open spec fn operator_after(s: Seq<char>, pos: int, p: int) -> Option<(BinOp, int)> {
    if pos < p {
        match next_token(s, p) {
            Some(t) => match binary_operator(t.kind) {
                Some(op) => Some((op, t.end)),
                None => None,
            },
            None => None,
        }
    } else {
        None
    }
}

/// The next token from any position starts at or after it, is not empty and
/// lies within the text.
pub proof fn lemma_token_ahead(s: Seq<char>, pos: int)
    ensures
        next_token(s, pos) matches Some(t) ==> 0 <= pos <= t.start < t.end <= s.len(),
{
    if 0 <= pos <= s.len() {
        lemma_next_token(s, pos);
    }
}

/// The position after an operator lies beyond the operand before it.
pub proof fn lemma_operator_after(s: Seq<char>, pos: int, p: int)
    ensures
        operator_after(s, pos, p) matches Some((op, q)) ==> pos < p < q <= s.len(),
{
    lemma_token_ahead(s, p);
}

/// The operator of one tier right after an operand that spans `pos..p`: of
/// the tighter tier if `tight`, of the looser one if not. An operator of the
/// other tier is none.
pub open spec fn tier_operator_after(s: Seq<char>, pos: int, p: int, tight: bool) -> Option<
    (BinOp, int),
> {
    match operator_after(s, pos, p) {
        Some((op, q)) => if is_tight(op) == tight {
            Some((op, q))
        } else {
            None
        },
        None => None,
    }
}

/// `atom := NUMBER | IDENTIFIER | '(' expr ')'`, read from `pos`.
pub open spec fn parse_atom(s: Seq<char>, pos: int) -> Parsed
    decreases s.len() - pos, 0int,
{
    match next_token(s, pos) {
        None => Err(no_token(s, pos)),
        Some(t) => match t.kind {
            TokenKind::Number => Ok((Ast::Val(s.subrange(t.start, t.end)), t.end)),
            TokenKind::Ident => Ok((Ast::Var(s.subrange(t.start, t.end)), t.end)),
            TokenKind::LParen => {
                proof {
                    lemma_token_ahead(s, pos);
                }
                match parse_expr(s, t.end) {
                    Err(e) => Err(e),
                    Ok((inner, p)) => close_group(s, t.start, inner, p),
                }
            },
            _ => Err(
                SyntaxErrorView { kind: SyntaxErrorKind::UnexpectedToken, position: t.start },
            ),
        },
    }
}

/// The end of a group that was opened at `open` and whose content `inner`
/// ends at `p`: a closing parenthesis has to follow.
pub open spec fn close_group(s: Seq<char>, open: int, inner: Ast, p: int) -> Parsed {
    match next_token(s, p) {
        Some(t) => if t.kind == TokenKind::RParen {
            Ok((inner, t.end))
        } else {
            Err(SyntaxErrorView { kind: SyntaxErrorKind::UnexpectedToken, position: t.start })
        },
        None => if run_end(s, p, CharClass::Space) >= s.len() {
            Err(SyntaxErrorView { kind: SyntaxErrorKind::UnmatchedParen, position: open })
        } else {
            Err(no_token(s, p))
        },
    }
}

/// `unary := ['+' | '-'] atom`, read from `pos`.
pub open spec fn parse_unary(s: Seq<char>, pos: int) -> Parsed
    decreases s.len() - pos, 1int,
{
    match next_token(s, pos) {
        Some(t) => match sign(t.kind) {
            Some(op) => {
                proof {
                    lemma_token_ahead(s, pos);
                }
                match parse_atom(s, t.end) {
                    Err(e) => Err(e),
                    Ok((operand, p)) => Ok((Ast::UnOp { op, expr: Box::new(operand) }, p)),
                }
            },
            None => parse_atom(s, pos),
        },
        None => parse_atom(s, pos),
    }
}

/// `(('*' | '/') unary)*` after `lhs`, whose last operand spans `from..p`:
/// while an operator of the tighter tier follows, the operand after it is
/// read, and what was read so far becomes the left side of that operator.
pub open spec fn term_rest(s: Seq<char>, lhs: Ast, from: int, p: int) -> Parsed
    decreases s.len() - from, 2int,
{
    match tier_operator_after(s, from, p, true) {
        None => Ok((lhs, p)),
        Some((op, q)) => {
            proof {
                lemma_operator_after(s, from, p);
            }
            match parse_unary(s, q) {
                Err(e) => Err(e),
                Ok((rhs, end)) => term_rest(
                    s,
                    Ast::BinOp { lhs: Box::new(lhs), op, rhs: Box::new(rhs) },
                    q,
                    end,
                ),
            }
        },
    }
}

/// `term := unary (('*' | '/') unary)*`, read from `pos`.
pub open spec fn parse_term(s: Seq<char>, pos: int) -> Parsed
    decreases s.len() - pos, 3int,
{
    match parse_unary(s, pos) {
        Err(e) => Err(e),
        Ok((first, p)) => term_rest(s, first, pos, p),
    }
}

/// `(('+' | '-') term)*` after `lhs`, whose last term spans `from..p`: while
/// an operator of the looser tier follows, the term after it is read, and
/// what was read so far becomes the left side of that operator.
pub open spec fn expr_rest(s: Seq<char>, lhs: Ast, from: int, p: int) -> Parsed
    decreases s.len() - from, 4int,
{
    match tier_operator_after(s, from, p, false) {
        None => Ok((lhs, p)),
        Some((op, q)) => {
            proof {
                lemma_operator_after(s, from, p);
            }
            match parse_term(s, q) {
                Err(e) => Err(e),
                Ok((rhs, end)) => expr_rest(
                    s,
                    Ast::BinOp { lhs: Box::new(lhs), op, rhs: Box::new(rhs) },
                    q,
                    end,
                ),
            }
        },
    }
}

/// `expr := term (('+' | '-') term)*`, read from `pos`.
pub open spec fn parse_expr(s: Seq<char>, pos: int) -> Parsed
    decreases s.len() - pos, 5int,
{
    match parse_term(s, pos) {
        Err(e) => Err(e),
        Ok((first, p)) => expr_rest(s, first, pos, p),
    }
}

/// The tree that a whole text stands for: one expression, with nothing but
/// white space after it.
pub open spec fn parse_text(s: Seq<char>) -> Result<Ast, SyntaxErrorView> {
    match parse_expr(s, 0) {
        Err(e) => Err(e),
        Ok((ast, p)) => {
            let j = run_end(s, p, CharClass::Space);
            if j >= s.len() {
                Ok(ast)
            } else {
                Err(SyntaxErrorView { kind: SyntaxErrorKind::TrailingInput, position: j })
            }
        },
    }
}

/// An atom that the grammar reads is not empty and ends within the text.
pub proof fn lemma_atom_advances(s: Seq<char>, pos: int)
    ensures
        parse_atom(s, pos) matches Ok((_, p)) ==> 0 <= pos < p <= s.len(),
    decreases s.len() - pos, 0int,
{
    lemma_token_ahead(s, pos);
    if let Some(t) = next_token(s, pos) {
        if t.kind == TokenKind::LParen {
            lemma_expr_advances(s, t.end);
            if let Ok((_, p)) = parse_expr(s, t.end) {
                lemma_token_ahead(s, p);
            }
        }
    }
}

/// An operand that the grammar reads is not empty and ends within the text:
/// where the grammar asks for the operator after an operand that spans
/// `pos..p`, `pos < p` holds.
pub proof fn lemma_unary_advances(s: Seq<char>, pos: int)
    ensures
        parse_unary(s, pos) matches Ok((_, p)) ==> 0 <= pos < p <= s.len(),
    decreases s.len() - pos, 1int,
{
    lemma_token_ahead(s, pos);
    lemma_atom_advances(s, pos);
    if let Some(t) = next_token(s, pos) {
        if sign(t.kind) is Some {
            lemma_atom_advances(s, t.end);
        }
    }
}

/// The rest of a term ends at or after the operand it starts from, within
/// the text.
pub proof fn lemma_term_rest_advances(s: Seq<char>, lhs: Ast, from: int, p: int)
    requires
        p <= s.len(),
    ensures
        term_rest(s, lhs, from, p) matches Ok((_, end)) ==> p <= end <= s.len(),
    decreases s.len() - from, 2int,
{
    lemma_operator_after(s, from, p);
    if let Some((op, q)) = tier_operator_after(s, from, p, true) {
        lemma_unary_advances(s, q);
        if let Ok((rhs, end)) = parse_unary(s, q) {
            lemma_term_rest_advances(
                s,
                Ast::BinOp { lhs: Box::new(lhs), op, rhs: Box::new(rhs) },
                q,
                end,
            );
        }
    }
}

/// A term that the grammar reads is not empty and ends within the text.
pub proof fn lemma_term_advances(s: Seq<char>, pos: int)
    ensures
        parse_term(s, pos) matches Ok((_, p)) ==> 0 <= pos < p <= s.len(),
    decreases s.len() - pos, 3int,
{
    lemma_unary_advances(s, pos);
    if let Ok((first, p)) = parse_unary(s, pos) {
        lemma_term_rest_advances(s, first, pos, p);
    }
}

/// The rest of an expression ends at or after the term it starts from,
/// within the text.
pub proof fn lemma_expr_rest_advances(s: Seq<char>, lhs: Ast, from: int, p: int)
    requires
        p <= s.len(),
    ensures
        expr_rest(s, lhs, from, p) matches Ok((_, end)) ==> p <= end <= s.len(),
    decreases s.len() - from, 4int,
{
    lemma_operator_after(s, from, p);
    if let Some((op, q)) = tier_operator_after(s, from, p, false) {
        lemma_term_advances(s, q);
        if let Ok((rhs, end)) = parse_term(s, q) {
            lemma_expr_rest_advances(
                s,
                Ast::BinOp { lhs: Box::new(lhs), op, rhs: Box::new(rhs) },
                q,
                end,
            );
        }
    }
}

/// An expression that the grammar reads is not empty and ends within the
/// text.
pub proof fn lemma_expr_advances(s: Seq<char>, pos: int)
    ensures
        parse_expr(s, pos) matches Ok((_, p)) ==> 0 <= pos < p <= s.len(),
    decreases s.len() - pos, 5int,
{
    lemma_term_advances(s, pos);
    if let Ok((first, p)) = parse_term(s, pos) {
        lemma_expr_rest_advances(s, first, pos, p);
    }
}

/// An atom that the grammar reads is well formed.
pub proof fn lemma_atom_well_formed(s: Seq<char>, pos: int)
    ensures
        parse_atom(s, pos) matches Ok((ast, _)) ==> ast.well_formed(),
    decreases s.len() - pos, 0int,
{
    lemma_token_ahead(s, pos);
    lemma_token_text(s, run_end(s, pos, CharClass::Space));
    if let Some(t) = next_token(s, pos) {
        if t.kind == TokenKind::LParen {
            lemma_expr_well_formed(s, t.end);
        }
    }
}

/// An operand that the grammar reads is well formed.
pub proof fn lemma_unary_well_formed(s: Seq<char>, pos: int)
    ensures
        parse_unary(s, pos) matches Ok((ast, _)) ==> ast.well_formed(),
    decreases s.len() - pos, 1int,
{
    lemma_token_ahead(s, pos);
    lemma_atom_well_formed(s, pos);
    if let Some(t) = next_token(s, pos) {
        if sign(t.kind) is Some {
            lemma_atom_well_formed(s, t.end);
        }
    }
}

/// The rest of a term after a well-formed left side is well formed.
pub proof fn lemma_term_rest_well_formed(s: Seq<char>, lhs: Ast, from: int, p: int)
    requires
        lhs.well_formed(),
    ensures
        term_rest(s, lhs, from, p) matches Ok((ast, _)) ==> ast.well_formed(),
    decreases s.len() - from, 2int,
{
    lemma_operator_after(s, from, p);
    if let Some((op, q)) = tier_operator_after(s, from, p, true) {
        lemma_unary_well_formed(s, q);
        if let Ok((rhs, end)) = parse_unary(s, q) {
            lemma_term_rest_well_formed(
                s,
                Ast::BinOp { lhs: Box::new(lhs), op, rhs: Box::new(rhs) },
                q,
                end,
            );
        }
    }
}

/// A term that the grammar reads is well formed.
pub proof fn lemma_term_well_formed(s: Seq<char>, pos: int)
    ensures
        parse_term(s, pos) matches Ok((ast, _)) ==> ast.well_formed(),
    decreases s.len() - pos, 3int,
{
    lemma_unary_well_formed(s, pos);
    if let Ok((first, p)) = parse_unary(s, pos) {
        lemma_term_rest_well_formed(s, first, pos, p);
    }
}

/// The rest of an expression after a well-formed left side is well formed.
pub proof fn lemma_expr_rest_well_formed(s: Seq<char>, lhs: Ast, from: int, p: int)
    requires
        lhs.well_formed(),
    ensures
        expr_rest(s, lhs, from, p) matches Ok((ast, _)) ==> ast.well_formed(),
    decreases s.len() - from, 4int,
{
    lemma_operator_after(s, from, p);
    if let Some((op, q)) = tier_operator_after(s, from, p, false) {
        lemma_term_well_formed(s, q);
        if let Ok((rhs, end)) = parse_term(s, q) {
            lemma_expr_rest_well_formed(
                s,
                Ast::BinOp { lhs: Box::new(lhs), op, rhs: Box::new(rhs) },
                q,
                end,
            );
        }
    }
}

/// An expression that the grammar reads is well formed.
pub proof fn lemma_expr_well_formed(s: Seq<char>, pos: int)
    ensures
        parse_expr(s, pos) matches Ok((ast, _)) ==> ast.well_formed(),
    decreases s.len() - pos, 5int,
{
    lemma_term_well_formed(s, pos);
    if let Ok((first, p)) = parse_term(s, pos) {
        lemma_expr_rest_well_formed(s, first, pos, p);
    }
}

/// The tree of a text that parses is well formed: every variable is named
/// by an identifier, every constant is written as a numeral.
pub proof fn lemma_parse_well_formed(s: Seq<char>)
    ensures
        parse_text(s) matches Ok(ast) ==> ast.well_formed(),
{
    lemma_expr_well_formed(s, 0);
}

/// Whether what the parser returned is what the grammar says.
pub open spec fn agrees(r: Result<(Expr, usize), SyntaxError>, m: Parsed) -> bool {
    match r {
        Ok((e, p)) => m == Ok::<(Ast, int), SyntaxErrorView>((e@, p as int)),
        Err(e) => m == Err::<(Ast, int), SyntaxErrorView>(e@),
    }
}

/// The characters that a token spans, as a string of their own.
fn lexeme(text: &str, t: &Token) -> (s: String)
    requires
        t.start <= t.end <= text@.len(),
    ensures
        s@ == text@.subrange(t.start as int, t.end as int),
{
    text.substring_char(t.start, t.end).to_owned()
}

/// The operator that a token stands for between two operands.
fn operator_of(kind: TokenKind) -> (op: Option<BinOp>)
    ensures
        op == binary_operator(kind),
{
    match kind {
        TokenKind::Plus => Some(BinOp::Add),
        TokenKind::Minus => Some(BinOp::Sub),
        TokenKind::Star => Some(BinOp::Mul),
        TokenKind::Slash => Some(BinOp::Div),
        _ => None,
    }
}

/// The sign that a token stands for in front of an operand.
fn sign_of(kind: TokenKind) -> (op: Option<UnOp>)
    ensures
        op == sign(kind),
{
    match kind {
        TokenKind::Plus => Some(UnOp::Pos),
        TokenKind::Minus => Some(UnOp::Neg),
        _ => None,
    }
}

/// Whether `op` is of the tier that binds more tightly.
fn tight(op: BinOp) -> (b: bool)
    ensures
        b == is_tight(op),
{
    match op {
        BinOp::Mul => true,
        BinOp::Div => true,
        _ => false,
    }
}

/// The error for a position from which no token was read; `j` is where the
/// white space after the position ends.
fn no_token_error(chars: &Vec<char>, pos: usize, j: usize) -> (e: SyntaxError)
    requires
        j == run_end(chars@, pos as int, CharClass::Space),
    ensures
        e@ == no_token(chars@, pos as int),
{
    if j >= chars.len() {
        SyntaxError { kind: SyntaxErrorKind::UnexpectedEnd, position: j }
    } else {
        SyntaxError { kind: SyntaxErrorKind::UnexpectedChar, position: j }
    }
}

/// Reads the operator after an operand that spans `pos..p`.
fn read_operator(chars: &Vec<char>, pos: usize, p: usize) -> (r: Option<(BinOp, usize)>)
    requires
        pos < p <= chars.len(),
    ensures
        match r {
            Some((op, q)) => operator_after(chars@, pos as int, p as int) == Some((op, q as int))
                && p < q <= chars.len(),
            None => operator_after(chars@, pos as int, p as int) is None,
        },
{
    match read_token(chars, p).0 {
        Some(t) => match operator_of(t.kind) {
            Some(op) => Some((op, t.end)),
            None => None,
        },
        None => None,
    }
}

/// Reads the operator of one tier after an operand that spans `pos..p`.
fn read_tier_operator(chars: &Vec<char>, pos: usize, p: usize, tier: bool) -> (r: Option<
    (BinOp, usize),
>)
    requires
        pos < p <= chars.len(),
    ensures
        match r {
            Some((op, q)) => tier_operator_after(chars@, pos as int, p as int, tier) == Some(
                (op, q as int),
            ) && p < q <= chars.len(),
            None => tier_operator_after(chars@, pos as int, p as int, tier) is None,
        },
{
    match read_operator(chars, pos, p) {
        Some((op, q)) => if tight(op) == tier {
            Some((op, q))
        } else {
            None
        },
        None => None,
    }
}

/// Reads the closing parenthesis of a group opened at `open`, after its
/// content `inner` that ends at `p`.
fn read_close(
    chars: &Vec<char>,
    open: usize,
    inner: Expr,
    p: usize,
) -> (r: Result<(Expr, usize), SyntaxError>)
    requires
        p <= chars.len(),
    ensures
        agrees(r, close_group(chars@, open as int, inner@, p as int)),
        r matches Ok((_, q)) ==> p < q <= chars.len(),
{
    let (token, j) = read_token(chars, p);
    match token {
        Some(t) => match t.kind {
            TokenKind::RParen => Ok((inner, t.end)),
            _ => Err(SyntaxError { kind: SyntaxErrorKind::UnexpectedToken, position: t.start }),
        },
        None => if j >= chars.len() {
            Err(SyntaxError { kind: SyntaxErrorKind::UnmatchedParen, position: open })
        } else {
            Err(no_token_error(chars, p, j))
        },
    }
}

/// Reads an atom from `pos`.
fn read_atom(text: &str, chars: &Vec<char>, pos: usize) -> (r: Result<(Expr, usize), SyntaxError>)
    requires
        chars@ == text@,
        pos <= chars.len(),
    ensures
        agrees(r, parse_atom(text@, pos as int)),
        r matches Ok((_, p)) ==> pos < p <= chars.len(),
    decreases chars.len() - pos, 0int,
{
    let (token, j) = read_token(chars, pos);
    match token {
        None => Err(no_token_error(chars, pos, j)),
        Some(t) => match t.kind {
            TokenKind::Number => Ok((Expr::Val(lexeme(text, &t)), t.end)),
            TokenKind::Ident => Ok((Expr::Var(lexeme(text, &t)), t.end)),
            TokenKind::LParen => match read_expr(text, chars, t.end) {
                Err(e) => Err(e),
                Ok((inner, p)) => read_close(chars, t.start, inner, p),
            },
            _ => Err(SyntaxError { kind: SyntaxErrorKind::UnexpectedToken, position: t.start }),
        },
    }
}

/// Reads an atom with an optional sign from `pos`.
fn read_unary(text: &str, chars: &Vec<char>, pos: usize) -> (r: Result<(Expr, usize), SyntaxError>)
    requires
        chars@ == text@,
        pos <= chars.len(),
    ensures
        agrees(r, parse_unary(text@, pos as int)),
        r matches Ok((_, p)) ==> pos < p <= chars.len(),
    decreases chars.len() - pos, 1int,
{
    match read_token(chars, pos).0 {
        Some(t) => match sign_of(t.kind) {
            Some(op) => match read_atom(text, chars, t.end) {
                Err(e) => Err(e),
                Ok((operand, p)) => Ok((Expr::UnOp { op, expr: Box::new(operand) }, p)),
            },
            None => read_atom(text, chars, pos),
        },
        None => read_atom(text, chars, pos),
    }
}

/// Reads the rest of a term after `lhs`, whose last operand spans `from..p`.
fn read_term_rest(
    text: &str,
    chars: &Vec<char>,
    lhs: Expr,
    from: usize,
    p: usize,
) -> (r: Result<(Expr, usize), SyntaxError>)
    requires
        chars@ == text@,
        from < p <= chars.len(),
    ensures
        agrees(r, term_rest(text@, lhs@, from as int, p as int)),
        r matches Ok((_, end)) ==> p <= end <= chars.len(),
    decreases chars.len() - from, 2int,
{
    match read_tier_operator(chars, from, p, true) {
        None => Ok((lhs, p)),
        Some((op, q)) => match read_unary(text, chars, q) {
            Err(e) => Err(e),
            Ok((rhs, end)) => {
                let left = Expr::BinOp { lhs: Box::new(lhs), op, rhs: Box::new(rhs) };
                read_term_rest(text, chars, left, q, end)
            },
        },
    }
}

/// Reads a term from `pos`.
fn read_term(text: &str, chars: &Vec<char>, pos: usize) -> (r: Result<(Expr, usize), SyntaxError>)
    requires
        chars@ == text@,
        pos <= chars.len(),
    ensures
        agrees(r, parse_term(text@, pos as int)),
        r matches Ok((_, p)) ==> pos < p <= chars.len(),
    decreases chars.len() - pos, 3int,
{
    match read_unary(text, chars, pos) {
        Err(e) => Err(e),
        Ok((first, p)) => read_term_rest(text, chars, first, pos, p),
    }
}

/// Reads the rest of an expression after `lhs`, whose last term spans
/// `from..p`.
fn read_expr_rest(
    text: &str,
    chars: &Vec<char>,
    lhs: Expr,
    from: usize,
    p: usize,
) -> (r: Result<(Expr, usize), SyntaxError>)
    requires
        chars@ == text@,
        from < p <= chars.len(),
    ensures
        agrees(r, expr_rest(text@, lhs@, from as int, p as int)),
        r matches Ok((_, end)) ==> p <= end <= chars.len(),
    decreases chars.len() - from, 4int,
{
    match read_tier_operator(chars, from, p, false) {
        None => Ok((lhs, p)),
        Some((op, q)) => match read_term(text, chars, q) {
            Err(e) => Err(e),
            Ok((rhs, end)) => {
                let left = Expr::BinOp { lhs: Box::new(lhs), op, rhs: Box::new(rhs) };
                read_expr_rest(text, chars, left, q, end)
            },
        },
    }
}

/// Reads an expression from `pos`.
fn read_expr(text: &str, chars: &Vec<char>, pos: usize) -> (r: Result<(Expr, usize), SyntaxError>)
    requires
        chars@ == text@,
        pos <= chars.len(),
    ensures
        agrees(r, parse_expr(text@, pos as int)),
        r matches Ok((_, p)) ==> pos < p <= chars.len(),
    decreases chars.len() - pos, 5int,
{
    match read_term(text, chars, pos) {
        Err(e) => Err(e),
        Ok((first, p)) => read_expr_rest(text, chars, first, pos, p),
    }
}

/// Whether `r` is what parsing `text` has to return: the tree that the
/// grammar gives the text, or the error that the grammar gives it.
pub open spec fn parses_to(text: Seq<char>, r: Result<Expr, SyntaxError>) -> bool {
    match r {
        Ok(e) => parse_text(text) == Ok::<Ast, SyntaxErrorView>(e@),
        Err(e) => parse_text(text) == Err::<Ast, SyntaxErrorView>(e@),
    }
}

/// Parsing a text twice gives the same: two trees of the same shape, or the
/// same error twice.
pub proof fn lemma_parse_twice(
    text: Seq<char>,
    first: Result<Expr, SyntaxError>,
    second: Result<Expr, SyntaxError>,
)
    requires
        parses_to(text, first),
        parses_to(text, second),
    ensures
        first is Ok <==> second is Ok,
        first matches Ok(a) ==> second matches Ok(b) && a@ == b@,
        first matches Err(e) ==> second matches Err(f) && e@ == f@ && e == f,
{
}

/// Parses `text` as one expression.
///
/// Returns the tree that the grammar gives the text, or the error that the
/// grammar gives it: [`parse_text`] says which, for every text.
///
/// Names are made of the letters `a` to `z` and `A` to `Z`, the digits and
/// the underscore, and white space is a space, a tab or a line end. Any
/// other character, a letter outside ASCII too, starts no token and is
/// reported as [`SyntaxErrorKind::UnexpectedChar`].
pub fn parse(text: &str) -> (r: Result<Expr, SyntaxError>)
    ensures
        parses_to(text@, r),
        r matches Ok(e) ==> e@.well_formed(),
{
    proof {
        lemma_parse_well_formed(text@);
    }
    let chars = chars_of(text);
    match read_expr(text, &chars, 0) {
        Err(e) => Err(e),
        Ok((ast, p)) => {
            let j: usize = scan_run(&chars, p, CharClass::Space);
            if j >= chars.len() {
                Ok(ast)
            } else {
                Err(SyntaxError { kind: SyntaxErrorKind::TrailingInput, position: j })
            }
        },
    }
}

} // verus!
