//! A way to write every tree as a text, and the proof that the grammar reads
//! the tree back from it.
//!
//! A leaf is written as its name or numeral, a sign in front of its operand,
//! an operator between its operands. An operand stands in parentheses only
//! where the grammar would otherwise group it differently: a sum or a
//! difference as an operand of `*` or `/`, any tree with an operator as the
//! right operand of an operator of its own tier, and anything but a leaf
//! after a sign. A space follows each token.
//!
//! That the text of a tree is read back as that tree says, for all trees at
//! once, how the grammar groups: `*` and `/` before `+` and `-`, operators
//! of one tier from the left, a sign with the atom after it.

use crate::expr::{Ast, BinOp, UnOp};
use crate::parser::{
    binary_operator, close_group, expr_rest, is_tight, operator_after, parse_atom, parse_expr,
    parse_term, parse_text, parse_unary, sign, term_rest, tier_operator_after, Parsed,
    SyntaxErrorView,
};
use crate::token::{
    exponent_end, in_class, is_identifier, is_numeral, is_space, lemma_run_end,
    lemma_run_end_in_part, next_token, punctuation, run_end, token_at, CharClass, TokenKind,
    TokenView,
};
use vstd::prelude::*;

verus! {

/// Whether `s` holds the characters of `w` from position `pos` on.
pub open spec fn holds(s: Seq<char>, pos: int, w: Seq<char>) -> bool {
    &&& 0 <= pos
    &&& pos + w.len() <= s.len()
    &&& forall|i: int| 0 <= i < w.len() ==> s[pos + i] == #[trigger] w[i]
}

/// A run that starts among characters of its class ends where the run from
/// the last of them on ends.
pub proof fn lemma_run_through(s: Seq<char>, i: int, k: int, class: CharClass)
    requires
        0 <= i <= k <= s.len(),
        forall|m: int| i <= m < k ==> in_class(class, #[trigger] s[m]),
    ensures
        run_end(s, i, class) == run_end(s, k, class),
    decreases k - i,
{
    if i < k {
        lemma_run_through(s, i + 1, k, class);
    }
}

/// An identifier that a space follows is read as one identifier token.
pub proof fn lemma_identifier_token(s: Seq<char>, pos: int, name: Seq<char>)
    requires
        is_identifier(name),
        holds(s, pos, name),
        pos + name.len() < s.len(),
        s[pos + name.len()] == ' ',
    ensures
        token_at(s, pos) == Some(
            TokenView { kind: TokenKind::Ident, start: pos, end: pos + name.len() },
        ),
        s.subrange(pos, pos + name.len()) == name,
{
    let e = pos + name.len();
    assert(s[pos] == name[0]);
    assert forall|m: int| pos + 1 <= m < e implies in_class(CharClass::IdentPart, #[trigger] s[m]) by {
        assert(s[m] == name[m - pos]);
    }
    lemma_run_through(s, pos + 1, e, CharClass::IdentPart);
    assert(s.subrange(pos, e) =~= name);
}

/// A run of digits in a text that holds a word which a space follows ends
/// where the run does in the word.
proof fn lemma_digits_in_word(s: Seq<char>, pos: int, word: Seq<char>, i: int)
    requires
        holds(s, pos, word),
        pos + word.len() < s.len(),
        s[pos + word.len()] == ' ',
        pos <= i <= pos + word.len(),
    ensures
        run_end(s, i, CharClass::Digit) == run_end(word, i - pos, CharClass::Digit) + pos,
        run_end(s, i, CharClass::Digit) <= pos + word.len(),
{
    let e = pos + word.len();
    lemma_run_end(s, i, CharClass::Digit);
    assert(s.subrange(pos, e) =~= word);
    lemma_run_end_in_part(s, pos, e, i, CharClass::Digit);
    let r = run_end(s, i, CharClass::Digit);
    if r > e {
        assert(in_class(CharClass::Digit, s[e]));
    }
}

/// A numeral that a space follows is read as one number token.
pub proof fn lemma_numeral_token(s: Seq<char>, pos: int, numeral: Seq<char>)
    requires
        is_numeral(numeral),
        holds(s, pos, numeral),
        pos + numeral.len() < s.len(),
        s[pos + numeral.len()] == ' ',
    ensures
        token_at(s, pos) == Some(
            TokenView { kind: TokenKind::Number, start: pos, end: pos + numeral.len() },
        ),
        s.subrange(pos, pos + numeral.len()) == numeral,
{
    let e = pos + numeral.len();
    let digits = CharClass::Digit;
    assert(s.subrange(pos, e) =~= numeral);
    assert(s[pos] == numeral[0]);
    // The digits before the point.
    let a = run_end(s, pos, digits);
    let wa = run_end(numeral, 0, digits);
    lemma_digits_in_word(s, pos, numeral, pos);
    lemma_run_end(numeral, 0, digits);
    assert(a == wa + pos);
    if wa < numeral.len() {
        assert(s[a] == numeral[wa]);
    }
    // The digits after the point.
    let b = if a < s.len() && s[a] == '.' {
        run_end(s, a + 1, digits)
    } else {
        a
    };
    let wb = if wa < numeral.len() && numeral[wa] == '.' {
        run_end(numeral, wa + 1, digits)
    } else {
        wa
    };
    if a < s.len() && s[a] == '.' {
        lemma_digits_in_word(s, pos, numeral, a + 1);
        lemma_run_end(numeral, wa + 1, digits);
    }
    assert(b == wb + pos);
    assert(wb <= numeral.len());
    if wb < numeral.len() {
        assert(s[b] == numeral[wb]);
    }
    // The exponent.
    if b < s.len() && (s[b] == 'e' || s[b] == 'E') {
        assert(b < e);
        if wb + 1 < numeral.len() {
            assert(s[b + 1] == numeral[wb + 1]);
        }
        let d = if b + 1 < s.len() && (s[b + 1] == '+' || s[b + 1] == '-') {
            b + 2
        } else {
            b + 1
        };
        let wd = if wb + 1 < numeral.len() && (numeral[wb + 1] == '+' || numeral[wb + 1] == '-') {
            wb + 2
        } else {
            wb + 1
        };
        assert(d == wd + pos);
        if wd < numeral.len() {
            assert(s[d] == numeral[wd]);
            lemma_digits_in_word(s, pos, numeral, d);
        }
    }
    assert(exponent_end(s, b) == exponent_end(numeral, wb) + pos);
}

/// A character of punctuation is read as the token that it is.
pub proof fn lemma_punctuation_token(s: Seq<char>, pos: int, kind: TokenKind)
    requires
        0 <= pos < s.len(),
        punctuation(s[pos]) == Some(kind),
    ensures
        token_at(s, pos) == Some(TokenView { kind, start: pos, end: pos + 1 }),
{
}

/// The character of an operator.
/// The character of an operator.
pub open spec fn operator_char(op: BinOp) -> char {
    match op {
        BinOp::Add => '+',
        BinOp::Sub => '-',
        BinOp::Mul => '*',
        BinOp::Div => '/',
    }
}

/// The character of a sign.
pub open spec fn sign_char(op: UnOp) -> char {
    match op {
        UnOp::Pos => '+',
        UnOp::Neg => '-',
    }
}

impl Ast {
    /// Whether the tree is a single variable or constant.
    pub open spec fn is_leaf(self) -> bool {
        self is Var || self is Val
    }

    /// How tightly the tree holds together: 0 for a sum or a difference, 1
    /// for a product or a quotient, 2 for a signed operand, 3 for a leaf.
    pub open spec fn level(self) -> int {
        match self {
            Ast::BinOp { op, .. } => if is_tight(op) {
                1
            } else {
                0
            },
            Ast::UnOp { .. } => 2,
            _ => 3,
        }
    }

    /// The tree as a text.
    pub open spec fn written(self) -> Seq<char>
        decreases self, 0int,
    {
        match self {
            Ast::Var(name) => name.push(' '),
            Ast::Val(numeral) => numeral.push(' '),
            Ast::UnOp { op, expr } => seq![sign_char(op), ' '] + expr.written_at(3),
            Ast::BinOp { lhs, op, rhs } => if is_tight(op) {
                lhs.written_at(1) + seq![operator_char(op), ' '] + rhs.written_at(2)
            } else {
                lhs.written_at(0) + seq![operator_char(op), ' '] + rhs.written_at(1)
            },
        }
    }

    /// The tree as a text where a tree of level `min` or more is asked for:
    /// as it is written if its level is that high, in parentheses if not.
    pub open spec fn written_at(self, min: int) -> Seq<char>
        decreases self, 1int,
    {
        if self.level() >= min {
            self.written()
        } else {
            seq!['(', ' '] + self.written() + seq![')', ' ']
        }
    }
}

/// The outcome of reading `ast` up to `end`.
pub open spec fn read_as(ast: Ast, end: int) -> Parsed {
    Ok((ast, end))
}

/// Whether no operator follows position `end`: what comes next is the end of
/// the text, or a token that is no operator.
pub open spec fn no_operator_after(s: Seq<char>, end: int) -> bool {
    match next_token(s, end) {
        Some(t) => binary_operator(t.kind) is None,
        None => true,
    }
}

/// Whether no operator of the tighter tier follows position `end`.
pub open spec fn no_tight_operator_after(s: Seq<char>, end: int) -> bool {
    match next_token(s, end) {
        Some(t) => match binary_operator(t.kind) {
            Some(op) => !is_tight(op),
            None => true,
        },
        None => true,
    }
}

/// A written tree starts with the first character of a token and ends with a
/// space.
pub proof fn lemma_written_ends(ast: Ast, min: int)
    requires
        ast.well_formed(),
    ensures
        ast.written().len() >= 2,
        ast.written_at(min).len() >= 2,
        !is_space(ast.written()[0]),
        !is_space(ast.written_at(min)[0]),
        ast.written().last() == ' ',
        ast.written_at(min).last() == ' ',
    decreases ast,
{
    match ast {
        Ast::Var(name) => {},
        Ast::Val(numeral) => {},
        Ast::UnOp { op, expr } => {
            lemma_written_ends(*expr, 3);
        },
        Ast::BinOp { lhs, op, rhs } => {
            if is_tight(op) {
                lemma_written_ends(*lhs, 1);
                lemma_written_ends(*rhs, 2);
            } else {
                lemma_written_ends(*lhs, 0);
                lemma_written_ends(*rhs, 1);
            }
        },
    }
}

/// A text that holds two words in a row holds each of them.
pub proof fn lemma_holds_both(s: Seq<char>, pos: int, a: Seq<char>, b: Seq<char>)
    requires
        holds(s, pos, a + b),
    ensures
        holds(s, pos, a),
        holds(s, pos + a.len(), b),
{
    let w = a + b;
    assert forall|i: int| 0 <= i < a.len() implies s[pos + i] == #[trigger] a[i] by {
        assert(w[i] == a[i]);
    }
    assert forall|i: int| 0 <= i < b.len() implies s[pos + a.len() + i] == #[trigger] b[i] by {
        assert(w[a.len() + i] == b[i]);
    }
}

/// White space from `from` up to a character at `pos` that is none is
/// skipped up to `pos`.
pub proof fn lemma_skip_to(s: Seq<char>, from: int, pos: int)
    requires
        0 <= from <= pos < s.len(),
        forall|m: int| from <= m < pos ==> is_space(#[trigger] s[m]),
        !is_space(s[pos]),
    ensures
        run_end(s, from, CharClass::Space) == pos,
{
    lemma_run_through(s, from, pos, CharClass::Space);
}

/// A space and then a character that is none: the white space ends at that
/// character.
pub proof fn lemma_one_space(s: Seq<char>, p: int)
    requires
        0 <= p,
        p + 1 < s.len(),
        s[p] == ' ',
        !is_space(s[p + 1]),
    ensures
        run_end(s, p, CharClass::Space) == p + 1,
{
    lemma_skip_to(s, p, p + 1);
}

/// The token kind of an operator.
pub open spec fn operator_kind(op: BinOp) -> TokenKind {
    match op {
        BinOp::Add => TokenKind::Plus,
        BinOp::Sub => TokenKind::Minus,
        BinOp::Mul => TokenKind::Star,
        BinOp::Div => TokenKind::Slash,
    }
}

/// The token kind of a sign.
pub open spec fn sign_kind(op: UnOp) -> TokenKind {
    match op {
        UnOp::Pos => TokenKind::Plus,
        UnOp::Neg => TokenKind::Minus,
    }
}

/// An operator that is written after an operand, a space between them, is
/// read as the operator after that operand: as one of its own tier, and as
/// none of the other.
pub proof fn lemma_operator_read(s: Seq<char>, from: int, p: int, op: BinOp)
    requires
        0 <= from < p,
        p + 1 < s.len(),
        s[p] == ' ',
        s[p + 1] == operator_char(op),
    ensures
        operator_after(s, from, p) == Some((op, p + 2)),
        tier_operator_after(s, from, p, is_tight(op)) == Some((op, p + 2)),
        tier_operator_after(s, from, p, !is_tight(op)) is None,
        no_tight_operator_after(s, p) == !is_tight(op),
{
    lemma_one_space(s, p);
    lemma_punctuation_token(s, p + 1, operator_kind(op));
}

/// A sign that is written where a token is looked for is read as that sign.
pub proof fn lemma_sign_read(s: Seq<char>, from: int, pos: int, op: UnOp)
    requires
        0 <= pos < s.len(),
        run_end(s, from, CharClass::Space) == pos,
        s[pos] == sign_char(op),
    ensures
        next_token(s, from) == Some(
            TokenView { kind: sign_kind(op), start: pos, end: pos + 1 },
        ),
        sign(sign_kind(op)) == Some(op),
{
    lemma_punctuation_token(s, pos, sign_kind(op));
}

/// A written leaf is read as that leaf, up to the space after it.
pub proof fn lemma_leaf_read(ast: Ast, s: Seq<char>, from: int, pos: int)
    requires
        ast.well_formed(),
        ast.is_leaf(),
        0 <= from <= pos,
        run_end(s, from, CharClass::Space) == pos,
        holds(s, pos, ast.written()),
    ensures
        parse_atom(s, from) == read_as(ast, pos + ast.written().len() - 1),
        parse_unary(s, from) == parse_atom(s, from),
{
    match ast {
        Ast::Var(name) => {
            assert(name.push(' ') =~= name + seq![' ']);
            lemma_holds_both(s, pos, name, seq![' ']);
            assert(seq![' '][0] == ' ');
            lemma_identifier_token(s, pos, name);
        },
        Ast::Val(numeral) => {
            assert(numeral.push(' ') =~= numeral + seq![' ']);
            lemma_holds_both(s, pos, numeral, seq![' ']);
            assert(seq![' '][0] == ' ');
            lemma_numeral_token(s, pos, numeral);
        },
        _ => {},
    }
}

/// The parts of a group in a text: the parenthesis that opens it at `pos`,
/// its content from `pos + 2` on, and the parenthesis that closes it.
pub proof fn lemma_group_parts(s: Seq<char>, pos: int, inner: Seq<char>)
    requires
        holds(s, pos, seq!['(', ' '] + inner + seq![')', ' ']),
        inner.len() >= 2,
        !is_space(inner[0]),
        inner.last() == ' ',
    ensures
        holds(s, pos + 2, inner),
        token_at(s, pos) == Some(TokenView { kind: TokenKind::LParen, start: pos, end: pos + 1 }),
        run_end(s, pos + 1, CharClass::Space) == pos + 2,
        next_token(s, pos + 1 + inner.len()) == Some(
            TokenView {
                kind: TokenKind::RParen,
                start: pos + 2 + inner.len(),
                end: pos + 3 + inner.len(),
            },
        ),
{
    let open = seq!['(', ' '];
    let close = seq![')', ' '];
    assert(open + inner + close =~= open + (inner + close));
    lemma_holds_both(s, pos, open, inner + close);
    lemma_holds_both(s, pos + 2, inner, close);
    assert(open[0] == '(' && open[1] == ' ');
    assert(close[0] == ')' && close[1] == ' ');
    assert(s[pos] == '(' && s[pos + 1] == ' ');
    let end = pos + 1 + inner.len();
    assert(s[end + 1] == ')');
    assert(s[end] == ' ') by {
        assert(inner[inner.len() - 1] == ' ');
    }
    assert(s[pos + 2] == inner[0]);
    lemma_punctuation_token(s, pos, TokenKind::LParen);
    lemma_one_space(s, pos + 1);
    lemma_punctuation_token(s, end + 1, TokenKind::RParen);
    lemma_one_space(s, end);
}

/// A group whose content is read as a tree is read as that tree.
pub proof fn lemma_group_read(s: Seq<char>, from: int, pos: int, ast: Ast, end: int)
    requires
        run_end(s, from, CharClass::Space) == pos,
        token_at(s, pos) == Some(TokenView { kind: TokenKind::LParen, start: pos, end: pos + 1 }),
        parse_expr(s, pos + 1) == read_as(ast, end),
        next_token(s, end) == Some(
            TokenView { kind: TokenKind::RParen, start: end + 1, end: end + 2 },
        ),
    ensures
        parse_atom(s, from) == read_as(ast, end + 2),
        parse_unary(s, from) == parse_atom(s, from),
{
    assert(close_group(s, pos, ast, end) == read_as(ast, end + 2));
}

/// The parts of a signed operand in a text: the sign at `pos` and the
/// operand from `pos + 2` on.
pub proof fn lemma_signed_parts(s: Seq<char>, pos: int, op: UnOp, operand: Seq<char>)
    requires
        holds(s, pos, seq![sign_char(op), ' '] + operand),
        operand.len() >= 2,
        !is_space(operand[0]),
    ensures
        holds(s, pos + 2, operand),
        s[pos] == sign_char(op),
        run_end(s, pos + 1, CharClass::Space) == pos + 2,
{
    let head = seq![sign_char(op), ' '];
    lemma_holds_both(s, pos, head, operand);
    assert(head[0] == sign_char(op) && head[1] == ' ');
    assert(s[pos] == sign_char(op) && s[pos + 1] == ' ');
    assert(s[pos + 2] == operand[0]);
    lemma_one_space(s, pos + 1);
}

/// The parts of two operands with an operator between them in a text: the
/// left operand from `pos` on, a space and the operator after it, and the
/// right operand two characters further.
pub proof fn lemma_binary_parts(
    s: Seq<char>,
    pos: int,
    left: Seq<char>,
    op: BinOp,
    right: Seq<char>,
)
    requires
        holds(s, pos, left + seq![operator_char(op), ' '] + right),
        left.len() >= 2,
        left.last() == ' ',
        right.len() >= 2,
        !is_space(right[0]),
    ensures
        holds(s, pos, left),
        holds(s, pos + left.len() + 2, right),
        s[pos + left.len() - 1] == ' ',
        s[pos + left.len()] == operator_char(op),
        run_end(s, pos + left.len() + 1, CharClass::Space) == pos + left.len() + 2,
{
    let middle = seq![operator_char(op), ' '];
    assert(left + middle + right =~= left + (middle + right));
    lemma_holds_both(s, pos, left, middle + right);
    lemma_holds_both(s, pos + left.len(), middle, right);
    let p = pos + left.len() - 1;
    assert(middle[0] == operator_char(op) && middle[1] == ' ');
    assert(s[p + 1] == operator_char(op) && s[p + 2] == ' ');
    assert(s[p] == ' ') by {
        assert(left[left.len() - 1] == ' ');
    }
    assert(s[p + 3] == right[0]);
    lemma_one_space(s, p + 2);
}

/// Where the rest of a term is read from does not matter, as long as its
/// last operand is not empty.
pub proof fn lemma_term_rest_from(s: Seq<char>, lhs: Ast, a: int, b: int, p: int)
    requires
        a < p,
        b < p,
    ensures
        term_rest(s, lhs, a, p) == term_rest(s, lhs, b, p),
{
}

/// Where the rest of an expression is read from does not matter, as long as
/// its last term is not empty.
pub proof fn lemma_expr_rest_from(s: Seq<char>, lhs: Ast, a: int, b: int, p: int)
    requires
        a < p,
        b < p,
    ensures
        expr_rest(s, lhs, a, p) == expr_rest(s, lhs, b, p),
{
}

/// The rest of a term that no operator of the tighter tier follows is
/// nothing.
pub proof fn lemma_term_rest_stops(s: Seq<char>, lhs: Ast, from: int, end: int)
    requires
        no_tight_operator_after(s, end),
    ensures
        term_rest(s, lhs, from, end) == read_as(lhs, end),
{
}

/// The rest of an expression that no operator follows is nothing.
pub proof fn lemma_expr_rest_stops(s: Seq<char>, lhs: Ast, from: int, end: int)
    requires
        no_operator_after(s, end),
    ensures
        expr_rest(s, lhs, from, end) == read_as(lhs, end),
{
}

/// One step of a term: after `lhs`, an operator of the tighter tier and an
/// operand are read, and what follows is the rest after the two together.
pub proof fn lemma_term_rest_step(
    s: Seq<char>,
    lhs: Ast,
    from: int,
    p: int,
    op: BinOp,
    rhs: Ast,
    end: int,
)
    requires
        from < p,
        p + 2 < end,
        tier_operator_after(s, from, p, true) == Some((op, p + 2)),
        parse_unary(s, p + 2) == read_as(rhs, end),
    ensures
        term_rest(s, lhs, from, p) == term_rest(
            s,
            Ast::BinOp { lhs: Box::new(lhs), op, rhs: Box::new(rhs) },
            from,
            end,
        ),
{
    let both = Ast::BinOp { lhs: Box::new(lhs), op, rhs: Box::new(rhs) };
    assert(term_rest(s, lhs, from, p) == term_rest(s, both, p + 2, end));
    lemma_term_rest_from(s, both, p + 2, from, end);
}

/// One step of an expression: after `lhs`, an operator of the looser tier
/// and a term are read, and what follows is the rest after the two together.
pub proof fn lemma_expr_rest_step(
    s: Seq<char>,
    lhs: Ast,
    from: int,
    p: int,
    op: BinOp,
    rhs: Ast,
    end: int,
)
    requires
        from < p,
        p + 2 < end,
        tier_operator_after(s, from, p, false) == Some((op, p + 2)),
        parse_term(s, p + 2) == read_as(rhs, end),
    ensures
        expr_rest(s, lhs, from, p) == expr_rest(
            s,
            Ast::BinOp { lhs: Box::new(lhs), op, rhs: Box::new(rhs) },
            from,
            end,
        ),
{
    let both = Ast::BinOp { lhs: Box::new(lhs), op, rhs: Box::new(rhs) };
    assert(expr_rest(s, lhs, from, p) == expr_rest(s, both, p + 2, end));
    lemma_expr_rest_from(s, both, p + 2, from, end);
}

/// A sign and then an atom that is read as a tree are read as that tree with
/// the sign.
pub proof fn lemma_signed_read(s: Seq<char>, from: int, pos: int, op: UnOp, operand: Ast, end: int)
    requires
        next_token(s, from) == Some(
            TokenView { kind: sign_kind(op), start: pos, end: pos + 1 },
        ),
        parse_atom(s, pos + 1) == read_as(operand, end),
    ensures
        parse_unary(s, from) == read_as(Ast::UnOp { op, expr: Box::new(operand) }, end),
{
    assert(sign(sign_kind(op)) == Some(op));
}

/// What it is for `ast` to be read from `from` up to `end` where a tree of
/// level `min` or more is asked for: as an atom, as a signed operand, as the
/// whole of a term so far, or as the whole of an expression so far.
pub open spec fn reads(s: Seq<char>, from: int, ast: Ast, end: int, min: int) -> bool {
    if min >= 3 {
        parse_atom(s, from) == read_as(ast, end) && parse_unary(s, from) == read_as(ast, end)
    } else if min == 2 {
        parse_unary(s, from) == read_as(ast, end)
    } else if min == 1 {
        parse_term(s, from) == term_rest(s, ast, from, end)
    } else {
        parse_expr(s, from) == expr_rest(s, ast, from, end)
    }
}

/// A tree that is read as a signed operand is read wherever a tree of a
/// lower level is asked for.
pub proof fn lemma_reads_lower(s: Seq<char>, from: int, ast: Ast, end: int, min: int)
    requires
        parse_unary(s, from) == read_as(ast, end),
        0 <= min <= 2,
        min == 0 ==> no_tight_operator_after(s, end),
    ensures
        reads(s, from, ast, end, min),
{
    if min == 0 {
        lemma_term_rest_stops(s, ast, from, end);
    }
}

/// A tree that is read as the whole of a term so far, and that no operator
/// of the tighter tier follows, is read as the whole of an expression so
/// far.
pub proof fn lemma_reads_term(s: Seq<char>, from: int, ast: Ast, end: int, min: int)
    requires
        parse_term(s, from) == term_rest(s, ast, from, end),
        0 <= min <= 1,
        min == 0 ==> no_tight_operator_after(s, end),
    ensures
        reads(s, from, ast, end, min),
{
    if min == 0 {
        lemma_term_rest_stops(s, ast, from, end);
    }
}

/// A written tree is read as the tree that was written, up to the space
/// after it, wherever it is written as the grammar asks there.
pub proof fn lemma_read(ast: Ast, min: int, s: Seq<char>, from: int, pos: int)
    requires
        ast.well_formed(),
        0 <= min <= 3,
        0 <= from <= pos,
        run_end(s, from, CharClass::Space) == pos,
        holds(s, pos, ast.written_at(min)),
        min == 0 ==> no_tight_operator_after(s, pos + ast.written_at(min).len() - 1),
    ensures
        reads(s, from, ast, pos + ast.written_at(min).len() - 1, min),
    decreases ast, min, 1int,
{
    let end = pos + ast.written_at(min).len() - 1;
    if ast.level() < min {
        lemma_read_group(ast, min, s, from, pos);
    } else {
        match ast {
            Ast::Var(_) => {
                lemma_leaf_read(ast, s, from, pos);
                if min <= 2 {
                    lemma_reads_lower(s, from, ast, end, min);
                }
            },
            Ast::Val(_) => {
                lemma_leaf_read(ast, s, from, pos);
                if min <= 2 {
                    lemma_reads_lower(s, from, ast, end, min);
                }
            },
            Ast::UnOp { op, expr } => {
                lemma_read_signed(ast, min, s, from, pos);
            },
            Ast::BinOp { lhs, op, rhs } => {
                if is_tight(op) {
                    lemma_read_product(ast, min, s, from, pos);
                } else {
                    lemma_read_sum(ast, s, from, pos);
                }
            },
        }
    }
}

/// A tree that is written in parentheses is read as that tree.
pub proof fn lemma_read_group(ast: Ast, min: int, s: Seq<char>, from: int, pos: int)
    requires
        ast.well_formed(),
        0 < min <= 3,
        ast.level() < min,
        0 <= from <= pos,
        run_end(s, from, CharClass::Space) == pos,
        holds(s, pos, seq!['(', ' '] + ast.written() + seq![')', ' ']),
    ensures
        reads(s, from, ast, pos + ast.written().len() + 3, min),
    decreases ast, min, 0int,
{
    let inner = ast.written();
    lemma_written_ends(ast, 0);
    lemma_group_parts(s, pos, inner);
    let e = pos + 1 + inner.len();
    assert(no_operator_after(s, e));
    assert(no_tight_operator_after(s, e));
    assert(ast.written_at(0) == inner);
    lemma_read(ast, 0, s, pos + 1, pos + 2);
    lemma_expr_rest_stops(s, ast, pos + 1, e);
    lemma_group_read(s, from, pos, ast, e);
    if min <= 2 {
        lemma_reads_lower(s, from, ast, e + 2, min);
    }
}

/// A written signed operand is read as the tree that was written.
pub proof fn lemma_read_signed(ast: Ast, min: int, s: Seq<char>, from: int, pos: int)
    requires
        ast.well_formed(),
        ast is UnOp,
        0 <= min <= 2,
        0 <= from <= pos,
        run_end(s, from, CharClass::Space) == pos,
        holds(s, pos, ast.written()),
        min == 0 ==> no_tight_operator_after(s, pos + ast.written().len() - 1),
    ensures
        reads(s, from, ast, pos + ast.written().len() - 1, min),
    decreases ast, min, 0int,
{
    let end = pos + ast.written().len() - 1;
    match ast {
        Ast::UnOp { op, expr } => {
            let operand = expr.written_at(3);
            lemma_written_ends(*expr, 3);
            lemma_signed_parts(s, pos, op, operand);
            lemma_sign_read(s, from, pos, op);
            lemma_read(*expr, 3, s, pos + 1, pos + 2);
            lemma_signed_read(s, from, pos, op, *expr, end);
            lemma_reads_lower(s, from, ast, end, min);
        },
        _ => {},
    }
}

/// A written product or quotient is read as the tree that was written.
pub proof fn lemma_read_product(ast: Ast, min: int, s: Seq<char>, from: int, pos: int)
    requires
        ast.well_formed(),
        ast matches Ast::BinOp { op, .. } && is_tight(op),
        0 <= min <= 1,
        0 <= from <= pos,
        run_end(s, from, CharClass::Space) == pos,
        holds(s, pos, ast.written()),
        min == 0 ==> no_tight_operator_after(s, pos + ast.written().len() - 1),
    ensures
        reads(s, from, ast, pos + ast.written().len() - 1, min),
    decreases ast, min, 0int,
{
    let end = pos + ast.written().len() - 1;
    match ast {
        Ast::BinOp { lhs, op, rhs } => {
            let left = lhs.written_at(1);
            let right = rhs.written_at(2);
            lemma_written_ends(*lhs, 1);
            lemma_written_ends(*rhs, 2);
            lemma_binary_parts(s, pos, left, op, right);
            let p = pos + left.len() - 1;
            lemma_read(*lhs, 1, s, from, pos);
            lemma_operator_read(s, from, p, op);
            lemma_read(*rhs, 2, s, p + 2, p + 3);
            assert(end == p + 3 + right.len() - 1);
            lemma_term_rest_step(s, *lhs, from, p, op, *rhs, end);
            lemma_reads_term(s, from, ast, end, min);
        },
        _ => {},
    }
}

/// A written sum or difference is read as the tree that was written.
pub proof fn lemma_read_sum(ast: Ast, s: Seq<char>, from: int, pos: int)
    requires
        ast.well_formed(),
        ast matches Ast::BinOp { op, .. } && !is_tight(op),
        0 <= from <= pos,
        run_end(s, from, CharClass::Space) == pos,
        holds(s, pos, ast.written()),
        no_tight_operator_after(s, pos + ast.written().len() - 1),
    ensures
        reads(s, from, ast, pos + ast.written().len() - 1, 0),
    decreases ast, 0int, 0int,
{
    let end = pos + ast.written().len() - 1;
    match ast {
        Ast::BinOp { lhs, op, rhs } => {
            let left = lhs.written_at(0);
            let right = rhs.written_at(1);
            lemma_written_ends(*lhs, 0);
            lemma_written_ends(*rhs, 1);
            lemma_binary_parts(s, pos, left, op, right);
            let p = pos + left.len() - 1;
            lemma_operator_read(s, from, p, op);
            lemma_read(*lhs, 0, s, from, pos);
            lemma_read(*rhs, 1, s, p + 2, p + 3);
            assert(end == p + 3 + right.len() - 1);
            lemma_term_rest_stops(s, *rhs, p + 2, end);
            lemma_expr_rest_step(s, *lhs, from, p, op, *rhs, end);
        },
        _ => {},
    }
}

/// Every well-formed tree is the tree of the text that it is written as.
///
/// The text has parentheses only where the grouping of the grammar would
/// otherwise differ, so this fixes that grouping: `*` and `/` bind more
/// tightly than `+` and `-`, operators of one tier group from the left, and
/// a sign applies to the atom after it only.
pub proof fn lemma_written_parses(ast: Ast)
    requires
        ast.well_formed(),
    ensures
        parse_text(ast.written()) == Ok::<Ast, SyntaxErrorView>(ast),
{
    let s = ast.written();
    lemma_written_ends(ast, 0);
    let end = s.len() - 1;
    assert(s[end] == ' ');
    assert(run_end(s, 0, CharClass::Space) == 0);
    assert(run_end(s, end, CharClass::Space) == s.len()) by {
        assert(run_end(s, end + 1, CharClass::Space) == end + 1);
    }
    assert(holds(s, 0, s));
    assert(no_operator_after(s, end));
    lemma_read(ast, 0, s, 0, 0);
    lemma_expr_rest_stops(s, ast, 0, end);
}

} // verus!
