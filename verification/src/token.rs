//! Lexical layer: which characters make up a token, and where a token ends.
//!
//! Positions are offsets in characters from the start of the text.

use vstd::prelude::*;

verus! {

/// The kinds of token an expression is made of.
#[derive(Clone, Copy, Debug, PartialEq, Eq, Structural)]
pub enum TokenKind {
    /// An unsigned decimal numeral, with or without fraction and exponent.
    Number,
    /// A bare word: a letter or underscore, then letters, digits, underscores.
    Ident,
    Plus,
    Minus,
    Star,
    Slash,
    LParen,
    RParen,
}

/// A token found in a text: its kind and the characters `start..end` it spans.
#[derive(Clone, Copy, Debug, PartialEq, Eq)]
pub struct Token {
    pub kind: TokenKind,
    pub start: usize,
    pub end: usize,
}

/// The mathematical model of a [`Token`], with unbounded positions.
pub struct TokenView {
    pub kind: TokenKind,
    pub start: int,
    pub end: int,
}

impl View for Token {
    type V = TokenView;

    open spec fn view(&self) -> TokenView {
        TokenView { kind: self.kind, start: self.start as int, end: self.end as int }
    }
}

/// Classes of characters that form runs.
#[derive(Clone, Copy, Debug, PartialEq, Eq, Structural)]
pub enum CharClass {
    Space,
    Digit,
    IdentPart,
}

pub open spec fn is_space(c: char) -> bool {
    c == ' ' || c == '\t' || c == '\n' || c == '\r'
}

pub open spec fn is_digit(c: char) -> bool {
    '0' <= c <= '9'
}

pub open spec fn is_ident_start(c: char) -> bool {
    ('a' <= c <= 'z') || ('A' <= c <= 'Z') || c == '_'
}

pub open spec fn is_ident_part(c: char) -> bool {
    is_ident_start(c) || is_digit(c)
}

pub open spec fn in_class(class: CharClass, c: char) -> bool {
    match class {
        CharClass::Space => is_space(c),
        CharClass::Digit => is_digit(c),
        CharClass::IdentPart => is_ident_part(c),
    }
}

/// The end of the longest run of `class` characters that starts at `i`:
/// the first position from `i` on whose character is not in the class, or
/// the length of `s` if there is none.
pub open spec fn run_end(s: Seq<char>, i: int, class: CharClass) -> int
    decreases s.len() - i,
{
    if 0 <= i < s.len() && in_class(class, s[i]) {
        run_end(s, i + 1, class)
    } else {
        i
    }
}

/// Where the exponent of a numeral ends, if one starts at `b`; `b` otherwise.
/// An exponent is `e` or `E`, an optional sign, and at least one digit.
pub open spec fn exponent_end(s: Seq<char>, b: int) -> int {
    if 0 <= b < s.len() && (s[b] == 'e' || s[b] == 'E') {
        let d = if b + 1 < s.len() && (s[b + 1] == '+' || s[b + 1] == '-') {
            b + 2
        } else {
            b + 1
        };
        if d < s.len() && is_digit(s[d]) {
            run_end(s, d, CharClass::Digit)
        } else {
            b
        }
    } else {
        b
    }
}

/// Where the numeral that starts at `i` ends: digits, then optionally a point
/// and further digits, then optionally an exponent.
pub open spec fn number_end(s: Seq<char>, i: int) -> int {
    let a = run_end(s, i, CharClass::Digit);
    let b = if 0 <= a < s.len() && s[a] == '.' {
        run_end(s, a + 1, CharClass::Digit)
    } else {
        a
    };
    exponent_end(s, b)
}

/// The kind of the one-character token `c`, if it is one.
pub open spec fn punctuation(c: char) -> Option<TokenKind> {
    if c == '+' {
        Some(TokenKind::Plus)
    } else if c == '-' {
        Some(TokenKind::Minus)
    } else if c == '*' {
        Some(TokenKind::Star)
    } else if c == '/' {
        Some(TokenKind::Slash)
    } else if c == '(' {
        Some(TokenKind::LParen)
    } else if c == ')' {
        Some(TokenKind::RParen)
    } else {
        None
    }
}

/// The token that starts exactly at `j`, if the character there can start one.
pub open spec fn token_at(s: Seq<char>, j: int) -> Option<TokenView> {
    if !(0 <= j < s.len()) {
        None
    } else if is_digit(s[j]) {
        Some(TokenView { kind: TokenKind::Number, start: j, end: number_end(s, j) })
    } else if is_ident_start(s[j]) {
        Some(
            TokenView {
                kind: TokenKind::Ident,
                start: j,
                end: run_end(s, j + 1, CharClass::IdentPart),
            },
        )
    } else {
        match punctuation(s[j]) {
            Some(kind) => Some(TokenView { kind, start: j, end: j + 1 }),
            None => None,
        }
    }
}

/// The first token at or after `pos`, white space skipped.
pub open spec fn next_token(s: Seq<char>, pos: int) -> Option<TokenView> {
    token_at(s, run_end(s, pos, CharClass::Space))
}

/// A run ends at or after its start, within the text, on a character outside
/// the class, and holds only characters of the class.
pub proof fn lemma_run_end(s: Seq<char>, i: int, class: CharClass)
    requires
        0 <= i <= s.len(),
    ensures
        i <= run_end(s, i, class) <= s.len(),
        run_end(s, i, class) < s.len() ==> !in_class(class, s[run_end(s, i, class)]),
        forall|k: int| i <= k < run_end(s, i, class) ==> in_class(class, #[trigger] s[k]),
    decreases s.len() - i,
{
    if i < s.len() && in_class(class, s[i]) {
        lemma_run_end(s, i + 1, class);
    }
}

/// A numeral that starts within the text on a digit is not empty and ends
/// within the text.
pub proof fn lemma_number_end(s: Seq<char>, i: int)
    requires
        0 <= i < s.len(),
        is_digit(s[i]),
    ensures
        i < number_end(s, i) <= s.len(),
{
    lemma_run_end(s, i, CharClass::Digit);
    let a = run_end(s, i, CharClass::Digit);
    assert(a > i) by {
        lemma_run_end(s, i + 1, CharClass::Digit);
    }
    if a < s.len() && s[a] == '.' {
        lemma_run_end(s, a + 1, CharClass::Digit);
    }
    let b = if a < s.len() && s[a] == '.' {
        run_end(s, a + 1, CharClass::Digit)
    } else {
        a
    };
    if b < s.len() && (s[b] == 'e' || s[b] == 'E') {
        let d = if b + 1 < s.len() && (s[b + 1] == '+' || s[b + 1] == '-') {
            b + 2
        } else {
            b + 1
        };
        if d < s.len() && is_digit(s[d]) {
            lemma_run_end(s, d, CharClass::Digit);
        }
    }
}

/// A token is not empty, lies within the text, and starts where it was asked
/// for.
pub proof fn lemma_token_at(s: Seq<char>, j: int)
    ensures
        token_at(s, j) matches Some(t) ==> t.start == j && 0 <= j < t.end <= s.len(),
{
    if 0 <= j < s.len() {
        if is_digit(s[j]) {
            lemma_number_end(s, j);
        } else if is_ident_start(s[j]) {
            lemma_run_end(s, j + 1, CharClass::IdentPart);
        }
    }
}

/// The next token from a position within the text starts at or after that
/// position, is not empty and lies within the text.
pub proof fn lemma_next_token(s: Seq<char>, pos: int)
    requires
        0 <= pos <= s.len(),
    ensures
        next_token(s, pos) matches Some(t) ==> pos <= t.start < t.end <= s.len(),
        pos <= run_end(s, pos, CharClass::Space) <= s.len(),
{
    lemma_run_end(s, pos, CharClass::Space);
    lemma_token_at(s, run_end(s, pos, CharClass::Space));
}

/// Whether `name` is an identifier: a letter or an underscore, then letters,
/// digits and underscores.
pub open spec fn is_identifier(name: Seq<char>) -> bool {
    &&& name.len() > 0
    &&& is_ident_start(name[0])
    &&& forall|i: int| 0 <= i < name.len() ==> is_ident_part(#[trigger] name[i])
}

/// Whether `text` is a numeral, all of it: it starts with a digit, and the
/// numeral that starts there ends where the text ends.
pub open spec fn is_numeral(text: Seq<char>) -> bool {
    &&& text.len() > 0
    &&& is_digit(text[0])
    &&& number_end(text, 0) == text.len()
}

/// A run in a part of a text ends where the run in the whole text ends, or
/// where the part ends if that comes first.
pub proof fn lemma_run_end_in_part(s: Seq<char>, j: int, e: int, i: int, class: CharClass)
    requires
        0 <= j <= i <= e <= s.len(),
    ensures
        run_end(s.subrange(j, e), i - j, class) == (if run_end(s, i, class) < e {
            run_end(s, i, class)
        } else {
            e
        }) - j,
    decreases e - i,
{
    let part = s.subrange(j, e);
    lemma_run_end(s, i, class);
    if i < e {
        assert(part[i - j] == s[i]);
        if in_class(class, s[i]) {
            lemma_run_end_in_part(s, j, e, i + 1, class);
        }
    }
}

/// The characters that a number token spans are a numeral, and those that
/// an identifier token spans are an identifier.
pub proof fn lemma_token_text(s: Seq<char>, j: int)
    ensures
        token_at(s, j) matches Some(t) ==> (t.kind == TokenKind::Number ==> is_numeral(
            s.subrange(t.start, t.end),
        )) && (t.kind == TokenKind::Ident ==> is_identifier(s.subrange(t.start, t.end))),
{
    lemma_token_at(s, j);
    if let Some(t) = token_at(s, j) {
        let e = t.end;
        let part = s.subrange(j, e);
        assert(part[0] == s[j]);
        if is_digit(s[j]) {
            let digits = CharClass::Digit;
            let a = run_end(s, j, digits);
            lemma_run_end(s, j, digits);
            let b = if a < s.len() && s[a] == '.' {
                run_end(s, a + 1, digits)
            } else {
                a
            };
            if a < s.len() && s[a] == '.' {
                lemma_run_end(s, a + 1, digits);
            }
            assert(e == exponent_end(s, b));
            assert(a <= b <= e) by {
                if b < s.len() && (s[b] == 'e' || s[b] == 'E') {
                    let d = if b + 1 < s.len() && (s[b + 1] == '+' || s[b + 1] == '-') {
                        b + 2
                    } else {
                        b + 1
                    };
                    if d < s.len() && is_digit(s[d]) {
                        lemma_run_end(s, d, digits);
                    }
                }
            }
            lemma_run_end_in_part(s, j, e, j, digits);
            assert(run_end(part, 0, digits) == a - j);
            if a < e {
                assert(part[a - j] == s[a]);
            }
            if a < s.len() && s[a] == '.' {
                lemma_run_end_in_part(s, j, e, a + 1, digits);
            }
            let pb = if 0 <= a - j < part.len() && part[a - j] == '.' {
                run_end(part, a - j + 1, digits)
            } else {
                a - j
            };
            assert(pb == b - j);
            if b < e {
                assert(part[b - j] == s[b]);
                let d = if b + 1 < s.len() && (s[b + 1] == '+' || s[b + 1] == '-') {
                    b + 2
                } else {
                    b + 1
                };
                assert(d < s.len() && is_digit(s[d]));
                lemma_run_end(s, d, digits);
                assert(d < e);
                assert(part[b + 1 - j] == s[b + 1]);
                assert(part[d - j] == s[d]);
                lemma_run_end_in_part(s, j, e, d, digits);
            }
            assert(exponent_end(part, b - j) == e - j);
        } else if is_ident_start(s[j]) {
            lemma_run_end(s, j + 1, CharClass::IdentPart);
            assert forall|i: int| 0 <= i < part.len() implies is_ident_part(#[trigger] part[i]) by {
                assert(part[i] == s[j + i]);
            }
        }
    }
}

/// Copies the characters of `text` into a vector.
pub fn chars_of(text: &str) -> (out: Vec<char>)
    ensures
        out@ == text@,
{
    let mut out: Vec<char> = Vec::new();
    for c in it: text.chars()
        invariant
            it.seq() == text@,
            out@ == text@.subrange(0, it.index() as int),
    {
        out.push(c);
    }
    out
}

/// Whether `c` belongs to `class`.
pub fn char_in_class(class: CharClass, c: char) -> (b: bool)
    ensures
        b == in_class(class, c),
{
    match class {
        CharClass::Space => c == ' ' || c == '\t' || c == '\n' || c == '\r',
        CharClass::Digit => '0' <= c && c <= '9',
        CharClass::IdentPart => {
            ('a' <= c && c <= 'z') || ('A' <= c && c <= 'Z') || c == '_' || ('0' <= c && c <= '9')
        },
    }
}

/// Walks over the run of `class` characters that starts at `i`.
pub fn scan_run(chars: &Vec<char>, i: usize, class: CharClass) -> (end: usize)
    requires
        i <= chars.len(),
    ensures
        end == run_end(chars@, i as int, class),
        i <= end <= chars.len(),
{
    let mut k: usize = i;
    while k < chars.len() && char_in_class(class, chars[k])
        invariant
            i <= k <= chars.len(),
            run_end(chars@, i as int, class) == run_end(chars@, k as int, class),
        decreases chars.len() - k,
    {
        k = k + 1;
    }
    k
}

/// Walks over the exponent that may start at `b`.
fn scan_exponent(chars: &Vec<char>, b: usize) -> (end: usize)
    requires
        b <= chars.len(),
    ensures
        end == exponent_end(chars@, b as int),
        b <= end <= chars.len(),
{
    let n: usize = chars.len();
    if b < n && (chars[b] == 'e' || chars[b] == 'E') {
        let d: usize = if b + 1 < n && (chars[b + 1] == '+' || chars[b + 1] == '-') {
            b + 2
        } else {
            b + 1
        };
        if d < n && char_in_class(CharClass::Digit, chars[d]) {
            scan_run(chars, d, CharClass::Digit)
        } else {
            b
        }
    } else {
        b
    }
}

/// Walks over the numeral that starts at `i`.
fn scan_number(chars: &Vec<char>, i: usize) -> (end: usize)
    requires
        i < chars.len(),
        is_digit(chars@[i as int]),
    ensures
        end == number_end(chars@, i as int),
        i < end <= chars.len(),
{
    proof {
        lemma_number_end(chars@, i as int);
    }
    let a: usize = scan_run(chars, i, CharClass::Digit);
    let b: usize = if a < chars.len() && chars[a] == '.' {
        scan_run(chars, a + 1, CharClass::Digit)
    } else {
        a
    };
    scan_exponent(chars, b)
}

/// The kind of the one-character token `c`, if it is one.
fn punctuation_kind(c: char) -> (kind: Option<TokenKind>)
    ensures
        kind == punctuation(c),
{
    if c == '+' {
        Some(TokenKind::Plus)
    } else if c == '-' {
        Some(TokenKind::Minus)
    } else if c == '*' {
        Some(TokenKind::Star)
    } else if c == '/' {
        Some(TokenKind::Slash)
    } else if c == '(' {
        Some(TokenKind::LParen)
    } else if c == ')' {
        Some(TokenKind::RParen)
    } else {
        None
    }
}

/// Reads the first token at or after `pos`, white space skipped. Also returns
/// where the white space ends: the place to report when there is no token.
pub fn read_token(chars: &Vec<char>, pos: usize) -> (r: (Option<Token>, usize))
    requires
        pos <= chars.len(),
    ensures
        r.1 == run_end(chars@, pos as int, CharClass::Space),
        pos <= r.1 <= chars.len(),
        match r.0 {
            Some(t) => next_token(chars@, pos as int) == Some(t@) && pos <= t.start < t.end
                <= chars.len(),
            None => next_token(chars@, pos as int) is None,
        },
{
    let j: usize = scan_run(chars, pos, CharClass::Space);
    proof {
        lemma_token_at(chars@, j as int);
    }
    if j >= chars.len() {
        return (None, j);
    }
    let c: char = chars[j];
    if char_in_class(CharClass::Digit, c) {
        let end: usize = scan_number(chars, j);
        (Some(Token { kind: TokenKind::Number, start: j, end }), j)
    } else if ('a' <= c && c <= 'z') || ('A' <= c && c <= 'Z') || c == '_' {
        let end: usize = scan_run(chars, j + 1, CharClass::IdentPart);
        (Some(Token { kind: TokenKind::Ident, start: j, end }), j)
    } else {
        match punctuation_kind(c) {
            Some(kind) => (Some(Token { kind, start: j, end: j + 1 }), j),
            None => (None, j),
        }
    }
}

} // verus!
