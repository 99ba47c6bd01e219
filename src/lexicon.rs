//! The lexical rules: character classes, the extent of each kind of lexeme,
//! the reserved words, and the scanner as a function on character sequences.
use crate::error_handling::{lemma_line_end_bounds, line_end};
use crate::token::{Kind, SpecToken, TokenType};
use vstd::prelude::*;

verus! {

/// What went wrong at a region of the source.
#[derive(Clone, Copy, Debug, PartialEq, Eq, Structural)]
pub enum ScanErrorKind {
    /// The character begins no token and is not whitespace.
    UnexpectedCharacter(char),
    /// A string literal is not closed before the end of the input.
    UnterminatedString,
    /// A `/*` comment is not closed before the end of the input.
    UnterminatedComment,
    /// A run of digits whose value does not fit in an `i64`.
    IntegerOutOfRange,
}

/// The mathematical form of a diagnostic: what went wrong, and where.
pub struct SpecDiagnostic {
    pub kind: ScanErrorKind,
    pub offset: nat,
    pub length: nat,
}

pub open spec fn is_digit(c: char) -> bool {
    '0' <= c && c <= '9'
}

pub open spec fn is_id_start(c: char) -> bool {
    ('a' <= c && c <= 'z') || ('A' <= c && c <= 'Z') || c == '_'
}

pub open spec fn is_id_char(c: char) -> bool {
    is_id_start(c) || is_digit(c)
}

pub open spec fn is_blank(c: char) -> bool {
    c == ' ' || c == '\r' || c == '\t' || c == '\n'
}

/// The end of the run of digits that starts at `i`.
pub open spec fn digits_end(s: Seq<char>, i: int) -> int
    decreases s.len() - i,
{
    if 0 <= i < s.len() && is_digit(s[i]) {
        digits_end(s, i + 1)
    } else {
        i
    }
}

/// The end of the run of identifier characters that starts at `i`.
pub open spec fn ident_end(s: Seq<char>, i: int) -> int
    decreases s.len() - i,
{
    if 0 <= i < s.len() && is_id_char(s[i]) {
        ident_end(s, i + 1)
    } else {
        i
    }
}

/// The first `"` at or after `i`, or the end of `s`.
pub open spec fn quote_from(s: Seq<char>, i: int) -> int
    decreases s.len() - i,
{
    if i < 0 || i >= s.len() {
        s.len() as int
    } else if s[i] == '"' {
        i
    } else {
        quote_from(s, i + 1)
    }
}

/// The first `*/` at or after `i` (the index of its `*`), or the end of `s`.
pub open spec fn comment_close(s: Seq<char>, i: int) -> int
    decreases s.len() - i,
{
    if i < 0 || i + 1 >= s.len() {
        s.len() as int
    } else if s[i] == '*' && s[i + 1] == '/' {
        i
    } else {
        comment_close(s, i + 1)
    }
}

/// Where a `//` comment whose rest starts at `i` ends: just past the newline,
/// or at the end of `s`.
pub open spec fn line_comment_end(s: Seq<char>, i: int) -> int {
    if line_end(s, i) < s.len() {
        line_end(s, i) + 1
    } else {
        s.len() as int
    }
}

/// A `.` at `d` followed by a digit: the number goes on with a fraction.
pub open spec fn is_fraction(s: Seq<char>, d: int) -> bool {
    0 <= d && d + 1 < s.len() && s[d] == '.' && is_digit(s[d + 1])
}

/// Whether the character after `i` is `c`.
pub open spec fn followed_by(s: Seq<char>, i: int, c: char) -> bool {
    0 <= i + 1 < s.len() && s[i + 1] == c
}

pub open spec fn digit_value(c: char) -> int {
    c as int - 48
}

/// The value of a run of decimal digits.
pub open spec fn decimal_value(w: Seq<char>) -> int
    decreases w.len(),
{
    if w.len() == 0 {
        0
    } else {
        decimal_value(w.drop_last()) * 10 + digit_value(w.last())
    }
}

/// The reserved word spelled by `w`, if it is one.
pub open spec fn keyword_kind(w: Seq<char>) -> Option<TokenType> {
    if w == "and"@ {
        Some(TokenType::And)
    } else if w == "bool"@ {
        Some(TokenType::Bool)
    } else if w == "class"@ {
        Some(TokenType::Class)
    } else if w == "else"@ {
        Some(TokenType::Else)
    } else if w == "false"@ {
        Some(TokenType::False)
    } else if w == "float"@ {
        Some(TokenType::Float)
    } else if w == "fun"@ {
        Some(TokenType::Fun)
    } else if w == "for"@ {
        Some(TokenType::For)
    } else if w == "if"@ {
        Some(TokenType::If)
    } else if w == "int"@ {
        Some(TokenType::Int)
    } else if w == "nil"@ {
        Some(TokenType::Nil)
    } else if w == "or"@ {
        Some(TokenType::Or)
    } else if w == "print"@ {
        Some(TokenType::Print)
    } else if w == "return"@ {
        Some(TokenType::Return)
    } else if w == "string"@ {
        Some(TokenType::String)
    } else if w == "super"@ {
        Some(TokenType::Super)
    } else if w == "this"@ {
        Some(TokenType::This)
    } else if w == "true"@ {
        Some(TokenType::True)
    } else if w == "val"@ {
        Some(TokenType::Val)
    } else if w == "var"@ {
        Some(TokenType::Var)
    } else if w == "while"@ {
        Some(TokenType::While)
    } else {
        None
    }
}

/// What the scanner does with one lexeme.
pub enum Outcome {
    /// Whitespace or a comment: nothing is produced.
    Skip,
    /// A token of this kind.
    Emit(Kind),
    /// A lexical error of this kind.
    Fail(ScanErrorKind),
}

/// The lexeme that starts at some index: where it ends, and what it yields.
pub struct Step {
    pub end: int,
    pub outcome: Outcome,
}

pub open spec fn emit(end: int, t: TokenType) -> Step {
    Step { end, outcome: Outcome::Emit(Kind::Plain(t)) }
}

/// `one`, or `two` when the next character is `=`.
pub open spec fn with_equal(s: Seq<char>, i: int, one: TokenType, two: TokenType) -> Step {
    if followed_by(s, i, '=') {
        emit(i + 2, two)
    } else {
        emit(i + 1, one)
    }
}

pub open spec fn slash_step(s: Seq<char>, i: int) -> Step {
    if followed_by(s, i, '/') {
        Step { end: line_comment_end(s, i + 1), outcome: Outcome::Skip }
    } else if followed_by(s, i, '*') {
        let j = comment_close(s, i + 2);
        if j < s.len() {
            Step { end: j + 2, outcome: Outcome::Skip }
        } else {
            Step {
                end: s.len() as int,
                outcome: Outcome::Fail(ScanErrorKind::UnterminatedComment),
            }
        }
    } else {
        emit(i + 1, TokenType::Slash)
    }
}

pub open spec fn string_step(s: Seq<char>, i: int) -> Step {
    let q = quote_from(s, i + 1);
    if q < s.len() {
        Step { end: q + 1, outcome: Outcome::Emit(Kind::StringValue(s.subrange(i + 1, q))) }
    } else {
        Step { end: s.len() as int, outcome: Outcome::Fail(ScanErrorKind::UnterminatedString) }
    }
}

pub open spec fn number_step(s: Seq<char>, i: int) -> Step {
    let d = digits_end(s, i + 1);
    if is_fraction(s, d) {
        let e = digits_end(s, d + 1);
        Step { end: e, outcome: Outcome::Emit(Kind::FloatValue(s.subrange(i, e))) }
    } else {
        let v = decimal_value(s.subrange(i, d));
        if v <= i64::MAX {
            emit(d, TokenType::IntegerValue(v as i64))
        } else {
            Step { end: d, outcome: Outcome::Fail(ScanErrorKind::IntegerOutOfRange) }
        }
    }
}

pub open spec fn identifier_step(s: Seq<char>, i: int) -> Step {
    let e = ident_end(s, i + 1);
    let w = s.subrange(i, e);
    match keyword_kind(w) {
        Some(t) => emit(e, t),
        None => Step { end: e, outcome: Outcome::Emit(Kind::Identifier(w)) },
    }
}

/// The lexeme that starts at `i`, chosen by its first character.
pub open spec fn step(s: Seq<char>, i: int) -> Step {
    let c = s[i];
    if c == '(' {
        emit(i + 1, TokenType::LeftParenthesis)
    } else if c == ')' {
        emit(i + 1, TokenType::RightParenthesis)
    } else if c == '{' {
        emit(i + 1, TokenType::LeftBrace)
    } else if c == '}' {
        emit(i + 1, TokenType::RightBrace)
    } else if c == ':' {
        emit(i + 1, TokenType::Colon)
    } else if c == ',' {
        emit(i + 1, TokenType::Comma)
    } else if c == '.' {
        emit(i + 1, TokenType::Dot)
    } else if c == '-' {
        emit(i + 1, TokenType::Minus)
    } else if c == '+' {
        emit(i + 1, TokenType::Plus)
    } else if c == ';' {
        emit(i + 1, TokenType::Semicolon)
    } else if c == '*' {
        emit(i + 1, TokenType::Star)
    } else if c == '/' {
        slash_step(s, i)
    } else if c == '!' {
        with_equal(s, i, TokenType::Bang, TokenType::BangEqual)
    } else if c == '=' {
        with_equal(s, i, TokenType::Equal, TokenType::EqualEqual)
    } else if c == '>' {
        with_equal(s, i, TokenType::Greater, TokenType::GreaterEqual)
    } else if c == '<' {
        with_equal(s, i, TokenType::Less, TokenType::LessEqual)
    } else if is_blank(c) {
        Step { end: i + 1, outcome: Outcome::Skip }
    } else if c == '"' {
        string_step(s, i)
    } else if is_digit(c) {
        number_step(s, i)
    } else if is_id_start(c) {
        identifier_step(s, i)
    } else {
        Step { end: i + 1, outcome: Outcome::Fail(ScanErrorKind::UnexpectedCharacter(c)) }
    }
}

/// The tokens and the diagnostics of scanning `s` from `i` to its end.
pub open spec fn lex_from(s: Seq<char>, i: int) -> (Seq<SpecToken>, Seq<SpecDiagnostic>)
    decreases s.len() - i,
{
    if i < 0 || i >= s.len() {
        (seq![], seq![])
    } else {
        let st = step(s, i);
        if st.end <= i || st.end > s.len() {
            (seq![], seq![])
        } else {
            let rest = lex_from(s, st.end);
            match st.outcome {
                Outcome::Skip => rest,
                Outcome::Emit(k) => (
                    seq![SpecToken { kind: k, offset: i as nat, length: (st.end - i) as nat }]
                        + rest.0,
                    rest.1,
                ),
                Outcome::Fail(e) => (
                    rest.0,
                    seq![SpecDiagnostic { kind: e, offset: i as nat, length: (st.end - i) as nat }]
                        + rest.1,
                ),
            }
        }
    }
}

/// The end-of-input marker for `s`.
pub open spec fn end_token(s: Seq<char>) -> SpecToken {
    SpecToken { kind: Kind::Plain(TokenType::EOF), offset: s.len(), length: 0 }
}

/// The tokens of `s`, closed by the end-of-input marker.
pub open spec fn lex_tokens(s: Seq<char>) -> Seq<SpecToken> {
    lex_from(s, 0).0.push(end_token(s))
}

/// The lexical errors found in `s`, in order.
pub open spec fn lex_diagnostics(s: Seq<char>) -> Seq<SpecDiagnostic> {
    lex_from(s, 0).1
}

proof fn lemma_digits_end(s: Seq<char>, i: int)
    requires
        0 <= i <= s.len(),
    ensures
        i <= digits_end(s, i) <= s.len(),
    decreases s.len() - i,
{
    if i < s.len() && is_digit(s[i]) {
        lemma_digits_end(s, i + 1);
    }
}

proof fn lemma_ident_end(s: Seq<char>, i: int)
    requires
        0 <= i <= s.len(),
    ensures
        i <= ident_end(s, i) <= s.len(),
    decreases s.len() - i,
{
    if i < s.len() && is_id_char(s[i]) {
        lemma_ident_end(s, i + 1);
    }
}

proof fn lemma_quote_from(s: Seq<char>, i: int)
    requires
        0 <= i <= s.len(),
    ensures
        i <= quote_from(s, i) <= s.len(),
    decreases s.len() - i,
{
    if i < s.len() && s[i] != '"' {
        lemma_quote_from(s, i + 1);
    }
}

proof fn lemma_comment_close(s: Seq<char>, i: int)
    requires
        0 <= i <= s.len(),
    ensures
        i <= comment_close(s, i) <= s.len(),
        comment_close(s, i) < s.len() ==> comment_close(s, i) + 2 <= s.len(),
    decreases s.len() - i,
{
    if i + 1 < s.len() && !(s[i] == '*' && s[i + 1] == '/') {
        lemma_comment_close(s, i + 1);
    }
}

/// Every lexeme takes at least one character and stays inside the input.
pub proof fn lemma_step_progress(s: Seq<char>, i: int)
    requires
        0 <= i < s.len(),
    ensures
        i < step(s, i).end <= s.len(),
{
    lemma_digits_end(s, i + 1);
    lemma_ident_end(s, i + 1);
    lemma_quote_from(s, i + 1);
    if i + 2 <= s.len() {
        lemma_comment_close(s, i + 2);
        lemma_line_end_bounds(s, i + 1);
    }
    let d = digits_end(s, i + 1);
    if is_fraction(s, d) {
        lemma_digits_end(s, d + 1);
    }
}

/// Every region that scanning from `i` reports lies inside the input, after
/// `i`, and is not empty; no token but the final marker is an end-of-input token.
pub proof fn lemma_lex_from_regions(s: Seq<char>, i: int)
    requires
        0 <= i <= s.len(),
    ensures
        forall|k: int|
            0 <= k < lex_from(s, i).0.len() ==> {
                let t = #[trigger] lex_from(s, i).0[k];
                &&& i <= t.offset
                &&& 0 < t.length
                &&& t.offset + t.length <= s.len()
                &&& t.kind != Kind::Plain(TokenType::EOF)
            },
        forall|k: int|
            0 <= k < lex_from(s, i).1.len() ==> {
                let d = #[trigger] lex_from(s, i).1[k];
                &&& i <= d.offset
                &&& 0 < d.length
                &&& d.offset + d.length <= s.len()
            },
    decreases s.len() - i,
{
    if i < s.len() {
        lemma_step_progress(s, i);
        let st = step(s, i);
        lemma_lex_from_regions(s, st.end);
        let rest = lex_from(s, st.end);
        match st.outcome {
            Outcome::Skip => {},
            Outcome::Emit(k) => {
                assert forall|m: int| 0 <= m < lex_from(s, i).0.len() implies {
                    let t = #[trigger] lex_from(s, i).0[m];
                    &&& i <= t.offset
                    &&& 0 < t.length
                    &&& t.offset + t.length <= s.len()
                    &&& t.kind != Kind::Plain(TokenType::EOF)
                } by {
                    if m > 0 {
                        assert(lex_from(s, i).0[m] == rest.0[m - 1]);
                    }
                }
            },
            Outcome::Fail(e) => {
                assert forall|m: int| 0 <= m < lex_from(s, i).1.len() implies {
                    let d = #[trigger] lex_from(s, i).1[m];
                    &&& i <= d.offset
                    &&& 0 < d.length
                    &&& d.offset + d.length <= s.len()
                } by {
                    if m > 0 {
                        assert(lex_from(s, i).1[m] == rest.1[m - 1]);
                    }
                }
            },
        }
    }
}

} // verus!
