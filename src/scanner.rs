//! The scanner: one pass over the source that yields tokens and collects
//! lexical errors, each proved to be what the rules of `lexicon` prescribe.
use crate::char_stream::CharStream;
use crate::chars::{chars_of, string_of};
use crate::error_handling::{
    line_end, push_all, push_range, render, ErrorHandler, LineInformation, Span,
};
use crate::lexicon::{
    comment_close, decimal_value, digits_end, ident_end, identifier_step, is_digit, is_fraction,
    is_id_char, is_id_start, keyword_kind, lemma_lex_from_regions, lemma_step_progress,
    lex_diagnostics, lex_from, lex_tokens, line_comment_end, number_step, quote_from, step,
    string_step, Outcome, ScanErrorKind, SpecDiagnostic, Step,
};
use crate::token::{Kind, SpecToken, Token, TokenType};
use vstd::prelude::*;

verus! {

/// A lexical error and the region of the source where it was found.
#[derive(Clone, Copy, Debug, PartialEq, Eq, Structural)]
pub struct Diagnostic {
    pub kind: ScanErrorKind,
    pub span: LineInformation,
}

impl View for Diagnostic {
    type V = SpecDiagnostic;

    open spec fn view(&self) -> SpecDiagnostic {
        SpecDiagnostic { kind: self.kind, offset: self.span@.offset, length: self.span@.length }
    }
}

pub open spec fn token_views(v: Seq<Token>) -> Seq<SpecToken> {
    v.map_values(|t: Token| t@)
}

pub open spec fn diagnostic_views(v: Seq<Diagnostic>) -> Seq<SpecDiagnostic> {
    v.map_values(|d: Diagnostic| d@)
}

pub open spec fn string_views(v: Seq<String>) -> Seq<Seq<char>> {
    v.map_values(|r: String| r@)
}

/// The message that describes a lexical error found in `s`.
pub open spec fn message_of(s: Seq<char>, d: SpecDiagnostic) -> Seq<char> {
    match d.kind {
        ScanErrorKind::UnexpectedCharacter(c) => "Unexpected character '"@ + seq![c] + "'."@,
        ScanErrorKind::UnterminatedString => "Unterminated string."@,
        ScanErrorKind::UnterminatedComment => "Unterminated multiline comment."@,
        ScanErrorKind::IntegerOutOfRange => "Cannot parse integer "@ + s.subrange(
            d.offset as int,
            (d.offset + d.length) as int,
        ),
    }
}

/// The rendered report of each lexical error of `s`, against the text `code`.
pub open spec fn reports_of(s: Seq<char>, code: Seq<char>) -> Seq<Seq<char>> {
    lex_diagnostics(s).map_values(
        |d: SpecDiagnostic| render(code, message_of(s, d), d.offset as int, d.length as int),
    )
}

/// The failure of a scan that met at least one lexical error.
#[derive(Debug)]
pub struct ScannerError {
    message: String,
    diagnostics: Vec<Diagnostic>,
    reports: Vec<String>,
}

impl ScannerError {
    pub closed spec fn spec_message(&self) -> Seq<char> {
        self.message@
    }

    pub closed spec fn spec_diagnostics(&self) -> Seq<SpecDiagnostic> {
        diagnostic_views(self.diagnostics@)
    }

    pub closed spec fn spec_reports(&self) -> Seq<Seq<char>> {
        string_views(self.reports@)
    }

    fn new(message: &str, diagnostics: Vec<Diagnostic>, reports: Vec<String>) -> (r: ScannerError)
        ensures
            r.spec_message() == message@,
            r.spec_diagnostics() == diagnostic_views(diagnostics@),
            r.spec_reports() == string_views(reports@),
    {
        ScannerError { message: string_of(chars_of(message).as_slice()), diagnostics, reports }
    }

    /// The summary of the failure.
    pub fn message(&self) -> (r: &String)
        ensures
            r@ == self.spec_message(),
    {
        &self.message
    }

    /// Every lexical error found, in order.
    pub fn diagnostics(&self) -> (r: &Vec<Diagnostic>)
        ensures
            diagnostic_views(r@) == self.spec_diagnostics(),
    {
        &self.diagnostics
    }

    /// The rendered report of each lexical error, in order.
    pub fn reports(&self) -> (r: &Vec<String>)
        ensures
            string_views(r@) == self.spec_reports(),
    {
        &self.reports
    }
}

/// Scans `input` into its tokens, closed by an end-of-input token, and the
/// lexical errors met on the way, in order.
pub fn tokenize(input: &str) -> (r: (Vec<Token>, Vec<Diagnostic>))
    ensures
        token_views(r.0@) == lex_tokens(input@),
        diagnostic_views(r.1@) == lex_diagnostics(input@),
{
    let mut scanner = Scanner::new(input);
    let tokens = scanner.scan();
    (tokens, scanner.diagnostics)
}

/// The message for a lexical error found in `text`.
pub fn diagnostic_message(text: &[char], d: &Diagnostic) -> (r: String)
    requires
        d@.offset + d@.length <= text@.len(),
    ensures
        r@ == message_of(text@, d@),
{
    let off = d.span.offset();
    let len = d.span.length();
    match d.kind {
        ScanErrorKind::UnexpectedCharacter(c) => {
            let mut m = chars_of("Unexpected character '");
            m.push(c);
            let tail = chars_of("'.");
            push_all(&mut m, tail.as_slice());
            string_of(m.as_slice())
        },
        ScanErrorKind::UnterminatedString => string_of(chars_of("Unterminated string.").as_slice()),
        ScanErrorKind::UnterminatedComment => string_of(
            chars_of("Unterminated multiline comment.").as_slice(),
        ),
        ScanErrorKind::IntegerOutOfRange => {
            let n = text.len();
            assert(off + len <= n);
            let mut m = chars_of("Cannot parse integer ");
            push_range(&mut m, text, off, off + len);
            string_of(m.as_slice())
        },
    }
}

/// Scans `input`. Succeeds with its tokens when it holds no lexical error;
/// otherwise fails with every error and its report rendered by `error_handler`.
pub fn scan(input: &str, error_handler: &ErrorHandler) -> (r: Result<Vec<Token>, ScannerError>)
    requires
        error_handler.wf(),
        input@.len() <= error_handler@.len(),
    ensures
        r is Ok <==> lex_diagnostics(input@).len() == 0,
        r is Ok ==> token_views(r->Ok_0@) == lex_tokens(input@),
        r is Err ==> r->Err_0.spec_message() == "Error scanning file."@,
        r is Err ==> r->Err_0.spec_diagnostics() == lex_diagnostics(input@),
        r is Err ==> r->Err_0.spec_reports() == reports_of(input@, error_handler@),
{
    let (tokens, diagnostics) = tokenize(input);
    if diagnostics.len() == 0 {
        assert(lex_diagnostics(input@) =~= diagnostic_views(diagnostics@));
        return Ok(tokens);
    }
    let ghost s = input@;
    let text = chars_of(input);
    proof {
        lemma_lex_from_regions(s, 0);
    }
    let mut reports: Vec<String> = Vec::new();
    let mut k: usize = 0;
    while k < diagnostics.len()
        invariant
            k <= diagnostics@.len(),
            text@ == s,
            s.len() <= error_handler@.len(),
            error_handler.wf(),
            diagnostic_views(diagnostics@) == lex_diagnostics(s),
            forall|m: int|
                0 <= m < lex_from(s, 0).1.len() ==> {
                    let d = #[trigger] lex_from(s, 0).1[m];
                    d.offset + d.length <= s.len()
                },
            reports@.len() == k,
            string_views(reports@) == reports_of(s, error_handler@).subrange(0, k as int),
        decreases diagnostics@.len() - k,
    {
        let d = &diagnostics[k];
        assert(diagnostic_views(diagnostics@)[k as int] == d@);
        let message = diagnostic_message(text.as_slice(), d);
        let report = error_handler.report_error(message.as_str(), &d.span);
        let ghost before = reports@;
        assert(reports_of(s, error_handler@).len() == diagnostics@.len());
        assert(report@ == reports_of(s, error_handler@)[k as int]);
        reports.push(report);
        assert(reports@ == before.push(report));
        assert(forall|j: int| 0 <= j < k ==> #[trigger] string_views(reports@)[j] == string_views(before)[j]);
        assert(forall|j: int| 0 <= j < k ==> #[trigger] string_views(before)[j] == reports_of(s, error_handler@)[j]);
        assert(string_views(reports@) =~= reports_of(s, error_handler@).subrange(
            0,
            k + 1,
        ));
        k = k + 1;
    }
    assert(reports_of(s, error_handler@).subrange(0, k as int) =~= reports_of(s, error_handler@));
    Err(ScannerError::new("Error scanning file.", diagnostics, reports))
}

/// Whether `lit` spells exactly the characters of `w`.
fn word_is(w: &[char], lit: &str) -> (r: bool)
    ensures
        r == (w@ == lit@),
{
    let l = chars_of(lit);
    if w.len() != l.len() {
        return false;
    }
    let mut i: usize = 0;
    while i < w.len()
        invariant
            i <= w@.len() == l@.len(),
            l@ == lit@,
            w@.subrange(0, i as int) == l@.subrange(0, i as int),
        decreases w@.len() - i,
    {
        if w[i] != l[i] {
            assert(w@[i as int] != l@[i as int]);
            return false;
        }
        assert(w@.subrange(0, i + 1) =~= w@.subrange(0, i as int).push(w@[i as int]));
        assert(l@.subrange(0, i + 1) =~= l@.subrange(0, i as int).push(l@[i as int]));
        i = i + 1;
    }
    assert(w@ =~= w@.subrange(0, i as int));
    assert(l@ =~= l@.subrange(0, i as int));
    true
}

/// The reserved word spelled by `w`, if it is one.
pub fn keyword_of(w: &[char]) -> (r: Option<TokenType>)
    ensures
        r == keyword_kind(w@),
{
    if word_is(w, "and") {
        Some(TokenType::And)
    } else if word_is(w, "bool") {
        Some(TokenType::Bool)
    } else if word_is(w, "class") {
        Some(TokenType::Class)
    } else if word_is(w, "else") {
        Some(TokenType::Else)
    } else if word_is(w, "false") {
        Some(TokenType::False)
    } else if word_is(w, "float") {
        Some(TokenType::Float)
    } else if word_is(w, "fun") {
        Some(TokenType::Fun)
    } else if word_is(w, "for") {
        Some(TokenType::For)
    } else if word_is(w, "if") {
        Some(TokenType::If)
    } else if word_is(w, "int") {
        Some(TokenType::Int)
    } else if word_is(w, "nil") {
        Some(TokenType::Nil)
    } else if word_is(w, "or") {
        Some(TokenType::Or)
    } else if word_is(w, "print") {
        Some(TokenType::Print)
    } else if word_is(w, "return") {
        Some(TokenType::Return)
    } else if word_is(w, "string") {
        Some(TokenType::String)
    } else if word_is(w, "super") {
        Some(TokenType::Super)
    } else if word_is(w, "this") {
        Some(TokenType::This)
    } else if word_is(w, "true") {
        Some(TokenType::True)
    } else if word_is(w, "val") {
        Some(TokenType::Val)
    } else if word_is(w, "var") {
        Some(TokenType::Var)
    } else if word_is(w, "while") {
        Some(TokenType::While)
    } else {
        None
    }
}

/// The value of a run of decimal digits, or `None` when it exceeds `i64::MAX`.
pub fn decimal_i64(digits: &[char]) -> (r: Option<i64>)
    requires
        forall|k: int| 0 <= k < digits@.len() ==> is_digit(#[trigger] digits@[k]),
    ensures
        r == if decimal_value(digits@) <= i64::MAX {
            Some(decimal_value(digits@) as i64)
        } else {
            None
        },
{
    let mut value: i64 = 0;
    let mut overflow = false;
    let mut i: usize = 0;
    while i < digits.len()
        invariant
            i <= digits@.len(),
            forall|k: int| 0 <= k < digits@.len() ==> is_digit(#[trigger] digits@[k]),
            !overflow ==> value == decimal_value(digits@.subrange(0, i as int)),
            overflow ==> decimal_value(digits@.subrange(0, i as int)) > i64::MAX,
            value >= 0,
        decreases digits@.len() - i,
    {
        let c = digits[i];
        let d = (c as u32 - 48) as i64;
        let ghost prev = digits@.subrange(0, i as int);
        assert(digits@.subrange(0, i + 1).drop_last() =~= prev);
        assert(digits@.subrange(0, i + 1).last() == c);
        if !overflow {
            match value.checked_mul(10) {
                Some(m) => match m.checked_add(d) {
                    Some(n) => {
                        value = n;
                    },
                    None => {
                        overflow = true;
                    },
                },
                None => {
                    overflow = true;
                },
            }
        }
        i = i + 1;
    }
    assert(digits@.subrange(0, i as int) =~= digits@);
    if overflow {
        None
    } else {
        Some(value)
    }
}

/// The outcome `st` of the lexeme at `i`, seen in the token returned and in
/// the diagnostics before and after.
spec fn produced(
    before: Seq<Diagnostic>,
    after: Seq<Diagnostic>,
    r: Option<Token>,
    i: int,
    st: Step,
) -> bool {
    match st.outcome {
        Outcome::Skip => r is None && after == before,
        Outcome::Emit(k) => {
            &&& r is Some
            &&& r->0@ == SpecToken { kind: k, offset: i as nat, length: (st.end - i) as nat }
            &&& after == before
        },
        Outcome::Fail(e) => {
            &&& r is None
            &&& diagnostic_views(after) == diagnostic_views(before).push(
                SpecDiagnostic { kind: e, offset: i as nat, length: (st.end - i) as nat },
            )
        },
    }
}

struct Scanner {
    char_stream: CharStream,
    token_start: usize,
    diagnostics: Vec<Diagnostic>,
}

impl Scanner {
    spec fn text(&self) -> Seq<char> {
        self.char_stream.text()
    }

    spec fn pos(&self) -> int {
        self.char_stream.pos() as int
    }

    spec fn wf(&self) -> bool {
        &&& self.char_stream.wf()
        &&& self.token_start <= self.char_stream.pos()
    }

    /// The same text, start and diagnostics as `other`.
    spec fn same_frame(&self, other: &Scanner) -> bool {
        &&& self.text() == other.text()
        &&& self.token_start == other.token_start
        &&& self.diagnostics@ == other.diagnostics@
    }

    fn new(input: &str) -> (r: Scanner)
        ensures
            r.wf(),
            r.text() == input@,
            r.pos() == 0,
            r.diagnostics@.len() == 0,
    {
        Scanner { char_stream: CharStream::new(input), token_start: 0, diagnostics: Vec::new() }
    }

    fn get_line_information(&self) -> (r: LineInformation)
        requires
            self.wf(),
        ensures
            r@ == (Span {
                offset: self.token_start as nat,
                length: (self.pos() - self.token_start) as nat,
            }),
    {
        LineInformation::new(
            self.token_start,
            self.char_stream.get_position() - self.token_start,
        )
    }

    fn create_token(&self, token_type: TokenType) -> (r: Option<Token>)
        requires
            self.wf(),
        ensures
            r == Some(r->0),
            r->0@ == (SpecToken {
                kind: token_type@,
                offset: self.token_start as nat,
                length: (self.pos() - self.token_start) as nat,
            }),
    {
        Some(Token::new(token_type, self.get_line_information()))
    }

    fn process_error(&mut self, kind: ScanErrorKind)
        requires
            old(self).wf(),
        ensures
            final(self).wf(),
            final(self).char_stream == old(self).char_stream,
            final(self).token_start == old(self).token_start,
            diagnostic_views(final(self).diagnostics@) == diagnostic_views(
                old(self).diagnostics@,
            ).push(
                SpecDiagnostic {
                    kind,
                    offset: old(self).token_start as nat,
                    length: (old(self).pos() - old(self).token_start) as nat,
                },
            ),
    {
        let span = self.get_line_information();
        self.diagnostics.push(Diagnostic { kind, span });
        assert(diagnostic_views(self.diagnostics@) =~= diagnostic_views(
            old(self).diagnostics@,
        ).push(Diagnostic { kind, span }@));
    }

    fn is_valid_id_start(c: char) -> (r: bool)
        ensures
            r == is_id_start(c),
    {
        ('a' <= c && c <= 'z') || ('A' <= c && c <= 'Z') || c == '_'
    }

    fn is_valid_id_char(c: char) -> (r: bool)
        ensures
            r == is_id_char(c),
    {
        Self::is_valid_id_start(c) || ('0' <= c && c <= '9')
    }

    /// Skips a `//` comment; the cursor stands just after the first `/`.
    fn process_comment(&mut self)
        requires
            old(self).wf(),
        ensures
            final(self).wf(),
            final(self).same_frame(old(self)),
            final(self).pos() == line_comment_end(old(self).text(), old(self).pos()),
    {
        let ghost s = self.text();
        let ghost p = self.pos();
        loop
            invariant_except_break
                line_end(s, p) == line_end(s, self.pos()),
            invariant
                self.wf(),
                self.same_frame(old(self)),
                s == self.text(),
                p <= self.pos() <= s.len(),
            ensures
                self.wf(),
                self.same_frame(old(self)),
                self.pos() == line_comment_end(s, p),
            decreases s.len() - self.pos(),
        {
            match self.char_stream.next() {
                None => {
                    break;
                },
                Some(c) => {
                    if c == '\n' {
                        break;
                    }
                },
            }
        }
    }

    /// Skips a `/*` comment; the cursor stands just after the opening `/*`.
    fn process_multiline_comment(&mut self)
        requires
            old(self).wf(),
            old(self).token_start + 2 == old(self).pos(),
        ensures
            final(self).wf(),
            final(self).text() == old(self).text(),
            final(self).token_start == old(self).token_start,
            ({
                let s = old(self).text();
                let j = comment_close(s, old(self).pos());
                if j < s.len() {
                    &&& final(self).pos() == j + 2
                    &&& final(self).diagnostics@ == old(self).diagnostics@
                } else {
                    &&& final(self).pos() == s.len()
                    &&& diagnostic_views(final(self).diagnostics@) == diagnostic_views(
                        old(self).diagnostics@,
                    ).push(
                        SpecDiagnostic {
                            kind: ScanErrorKind::UnterminatedComment,
                            offset: old(self).token_start as nat,
                            length: (s.len() - old(self).token_start) as nat,
                        },
                    )
                }
            }),
    {
        let ghost s = self.text();
        let ghost p = self.pos();
        let mut closed = false;
        loop
            invariant_except_break
                comment_close(s, p) == comment_close(s, self.pos()),
                !closed,
            invariant
                self.wf(),
                self.same_frame(old(self)),
                s == self.text(),
                p <= self.pos() <= s.len(),
            ensures
                self.wf(),
                self.same_frame(old(self)),
                closed ==> comment_close(s, p) < s.len() && self.pos() == comment_close(s, p) + 2,
                !closed ==> comment_close(s, p) >= s.len() && self.pos() == s.len(),
            decreases s.len() - self.pos(),
        {
            match self.char_stream.next() {
                None => {
                    break;
                },
                Some(c1) => {
                    if c1 == '*' {
                        if let Some(c2) = self.char_stream.current_char() {
                            if c2 == '/' {
                                self.char_stream.next();
                                closed = true;
                                break;
                            }
                        }
                    }
                },
            }
        }
        if !closed {
            self.process_error(ScanErrorKind::UnterminatedComment);
        }
    }

    /// Scans a string literal; the cursor stands just after the opening quote.
    fn process_string(&mut self) -> (r: Option<Token>)
        requires
            old(self).wf(),
            old(self).token_start + 1 == old(self).pos(),
        ensures
            final(self).wf(),
            final(self).text() == old(self).text(),
            final(self).token_start == old(self).token_start,
            final(self).pos() == string_step(old(self).text(), old(self).token_start as int).end,
            produced(
                old(self).diagnostics@,
                final(self).diagnostics@,
                r,
                old(self).token_start as int,
                string_step(old(self).text(), old(self).token_start as int),
            ),
    {
        let ghost s = self.text();
        let ghost p = self.pos();
        let mut content: Vec<char> = Vec::new();
        let mut closed = false;
        loop
            invariant_except_break
                quote_from(s, p) == quote_from(s, self.pos()),
                content@ == s.subrange(p, self.pos()),
                !closed,
            invariant
                self.wf(),
                self.same_frame(old(self)),
                s == self.text(),
                p == self.token_start + 1,
                p <= self.pos() <= s.len(),
            ensures
                self.wf(),
                self.same_frame(old(self)),
                closed ==> quote_from(s, p) < s.len() && self.pos() == quote_from(s, p) + 1
                    && content@ == s.subrange(p, quote_from(s, p)),
                !closed ==> quote_from(s, p) >= s.len() && self.pos() == s.len(),
            decreases s.len() - self.pos(),
        {
            match self.char_stream.next() {
                None => {
                    break;
                },
                Some(c) => {
                    if c == '"' {
                        closed = true;
                        break;
                    }
                    content.push(c);
                },
            }
        }
        if closed {
            self.create_token(TokenType::StringValue(string_of(content.as_slice())))
        } else {
            self.process_error(ScanErrorKind::UnterminatedString);
            None
        }
    }

    /// Whether a `.` and a digit follow, so that the number has a fraction.
    fn number_is_float(&self) -> (r: bool)
        requires
            self.wf(),
        ensures
            r == is_fraction(self.text(), self.pos()),
    {
        match (self.char_stream.current_char(), self.char_stream.peek()) {
            (Some(c1), Some(c2)) => c1 == '.' && '0' <= c2 && c2 <= '9',
            (_, _) => false,
        }
    }

    /// Consumes a run of digits, appending them to `number`.
    fn consume_digits(&mut self, number: &mut Vec<char>)
        requires
            old(self).wf(),
            old(self).token_start <= old(self).pos(),
            old(number)@ == old(self).text().subrange(old(self).token_start as int, old(self).pos() as int),
        ensures
            final(self).wf(),
            final(self).same_frame(old(self)),
            final(self).pos() == digits_end(old(self).text(), old(self).pos()),
            final(number)@ == final(self).text().subrange(final(self).token_start as int, final(self).pos()),
    {
        let ghost s = self.text();
        let ghost p = self.pos();
        loop
            invariant
                self.wf(),
                self.same_frame(old(self)),
                s == self.text(),
                p <= self.pos() <= s.len(),
                self.token_start <= p,
                digits_end(s, p) == digits_end(s, self.pos()),
                number@ == s.subrange(self.token_start as int, self.pos()),
            ensures
                self.wf(),
                self.same_frame(old(self)),
                self.pos() == digits_end(s, p),
                number@ == s.subrange(self.token_start as int, self.pos()),
            decreases s.len() - self.pos(),
        {
            match self.char_stream.current_char() {
                None => {
                    break;
                },
                Some(c) => {
                    if !('0' <= c && c <= '9') {
                        break;
                    }
                    number.push(c);
                    self.char_stream.next();
                    assert(number@ =~= s.subrange(self.token_start as int, self.pos()));
                },
            }
        }
    }

    /// Scans a number; the cursor stands just after its first digit `start`.
    fn process_number(&mut self, start: char) -> (r: Option<Token>)
        requires
            old(self).wf(),
            old(self).token_start + 1 == old(self).pos(),
            old(self).text()[old(self).token_start as int] == start,
            is_digit(start),
        ensures
            final(self).wf(),
            final(self).text() == old(self).text(),
            final(self).token_start == old(self).token_start,
            final(self).pos() == number_step(old(self).text(), old(self).token_start as int).end,
            produced(
                old(self).diagnostics@,
                final(self).diagnostics@,
                r,
                old(self).token_start as int,
                number_step(old(self).text(), old(self).token_start as int),
            ),
    {
        let ghost s = self.text();
        let ghost i = self.token_start as int;
        let mut number: Vec<char> = Vec::new();
        number.push(start);
        assert(number@ =~= s.subrange(i, self.pos()));
        self.consume_digits(&mut number);
        let ghost d = self.pos();
        let is_float = self.number_is_float();
        if is_float {
            if let Some(dot) = self.char_stream.next() {
                number.push(dot);
            }
            assert(number@ =~= s.subrange(i, self.pos()));
            self.consume_digits(&mut number);
            proof {
                lemma_digits_end_skip(s, d + 1);
            }
            self.parse_float(&number)
        } else {
            proof {
                assert forall|k: int| 0 <= k < number@.len() implies is_digit(#[trigger] number@[k]) by {
                    if k > 0 {
                        lemma_digits_run(s, i + 1, i + k);
                    }
                }
            }
            self.parse_int(&number)
        }
    }

    /// The integer token for the digits just scanned, or an error when their
    /// value does not fit in an `i64`.
    fn parse_int(&mut self, number: &Vec<char>) -> (r: Option<Token>)
        requires
            old(self).wf(),
            forall|k: int| 0 <= k < number@.len() ==> is_digit(#[trigger] number@[k]),
        ensures
            final(self).wf(),
            final(self).char_stream == old(self).char_stream,
            final(self).token_start == old(self).token_start,
            produced(
                old(self).diagnostics@,
                final(self).diagnostics@,
                r,
                old(self).token_start as int,
                if decimal_value(number@) <= i64::MAX {
                    Step {
                        end: old(self).pos(),
                        outcome: Outcome::Emit(
                            TokenType::IntegerValue(decimal_value(number@) as i64)@,
                        ),
                    }
                } else {
                    Step {
                        end: old(self).pos(),
                        outcome: Outcome::Fail(ScanErrorKind::IntegerOutOfRange),
                    }
                },
            ),
    {
        match decimal_i64(number.as_slice()) {
            Some(n) => self.create_token(TokenType::IntegerValue(n)),
            None => {
                self.process_error(ScanErrorKind::IntegerOutOfRange);
                None
            },
        }
    }

    /// The floating-point token for the literal just scanned; it keeps the
    /// literal's text.
    fn parse_float(&self, number: &Vec<char>) -> (r: Option<Token>)
        requires
            self.wf(),
        ensures
            r is Some,
            r->0@ == (SpecToken {
                kind: Kind::FloatValue(number@),
                offset: self.token_start as nat,
                length: (self.pos() - self.token_start) as nat,
            }),
    {
        self.create_token(TokenType::FloatValue(string_of(number.as_slice())))
    }

    /// Scans an identifier or reserved word; the cursor stands just after its
    /// first character `start`.
    fn process_identifier(&mut self, start: char) -> (r: Option<Token>)
        requires
            old(self).wf(),
            old(self).token_start + 1 == old(self).pos(),
            old(self).text()[old(self).token_start as int] == start,
            is_id_start(start),
        ensures
            final(self).wf(),
            final(self).text() == old(self).text(),
            final(self).token_start == old(self).token_start,
            final(self).pos() == identifier_step(old(self).text(), old(self).token_start as int).end,
            produced(
                old(self).diagnostics@,
                final(self).diagnostics@,
                r,
                old(self).token_start as int,
                identifier_step(old(self).text(), old(self).token_start as int),
            ),
    {
        let ghost s = self.text();
        let ghost p = self.pos();
        let mut identifier: Vec<char> = Vec::new();
        identifier.push(start);
        assert(identifier@ =~= s.subrange(self.token_start as int, self.pos()));
        loop
            invariant
                self.wf(),
                self.same_frame(old(self)),
                s == self.text(),
                p <= self.pos() <= s.len(),
                self.token_start < p,
                ident_end(s, p) == ident_end(s, self.pos()),
                identifier@ == s.subrange(self.token_start as int, self.pos()),
            ensures
                self.wf(),
                self.same_frame(old(self)),
                self.pos() == ident_end(s, p),
                identifier@ == s.subrange(self.token_start as int, self.pos()),
            decreases s.len() - self.pos(),
        {
            match self.char_stream.current_char() {
                None => {
                    break;
                },
                Some(c) => {
                    if !Self::is_valid_id_char(c) {
                        break;
                    }
                    identifier.push(c);
                    self.char_stream.next();
                    assert(identifier@ =~= s.subrange(self.token_start as int, self.pos()));
                },
            }
        }
        match keyword_of(identifier.as_slice()) {
            None => self.create_token(TokenType::Identifier(string_of(identifier.as_slice()))),
            Some(t) => self.create_token(t),
        }
    }

    /// Scans the lexeme that starts at the position.
    fn next_token(&mut self) -> (r: Option<Token>)
        requires
            old(self).char_stream.wf(),
            old(self).pos() < old(self).text().len(),
        ensures
            final(self).wf(),
            final(self).text() == old(self).text(),
            final(self).token_start == old(self).pos(),
            final(self).pos() == step(old(self).text(), old(self).pos()).end,
            produced(
                old(self).diagnostics@,
                final(self).diagnostics@,
                r,
                old(self).pos(),
                step(old(self).text(), old(self).pos()),
            ),
    {
        let ghost s = self.text();
        let ghost i = self.pos();
        self.token_start = self.char_stream.get_position();
        let c = match self.char_stream.next() {
            Some(c) => c,
            None => {
                return None;
            },
        };
        match c {
            '(' => self.create_token(TokenType::LeftParenthesis),
            ')' => self.create_token(TokenType::RightParenthesis),
            '{' => self.create_token(TokenType::LeftBrace),
            '}' => self.create_token(TokenType::RightBrace),
            ':' => self.create_token(TokenType::Colon),
            ',' => self.create_token(TokenType::Comma),
            '.' => self.create_token(TokenType::Dot),
            '-' => self.create_token(TokenType::Minus),
            '+' => self.create_token(TokenType::Plus),
            ';' => self.create_token(TokenType::Semicolon),
            '*' => self.create_token(TokenType::Star),
            '/' => match self.char_stream.current_char() {
                None => self.create_token(TokenType::Slash),
                Some(x) => {
                    if x == '/' {
                        self.process_comment();
                        None
                    } else if x == '*' {
                        self.char_stream.next();
                        self.process_multiline_comment();
                        None
                    } else {
                        self.create_token(TokenType::Slash)
                    }
                },
            },
            '!' => if self.char_stream.matches('=') {
                self.create_token(TokenType::BangEqual)
            } else {
                self.create_token(TokenType::Bang)
            },
            '=' => if self.char_stream.matches('=') {
                self.create_token(TokenType::EqualEqual)
            } else {
                self.create_token(TokenType::Equal)
            },
            '>' => if self.char_stream.matches('=') {
                self.create_token(TokenType::GreaterEqual)
            } else {
                self.create_token(TokenType::Greater)
            },
            '<' => if self.char_stream.matches('=') {
                self.create_token(TokenType::LessEqual)
            } else {
                self.create_token(TokenType::Less)
            },
            ' ' | '\r' | '\t' | '\n' => None,
            '"' => self.process_string(),
            _ => {
                if '0' <= c && c <= '9' {
                    self.process_number(c)
                } else if Self::is_valid_id_start(c) {
                    self.process_identifier(c)
                } else {
                    self.process_error(ScanErrorKind::UnexpectedCharacter(c));
                    None
                }
            },
        }
    }

    /// Scans the whole text from its start.
    fn scan(&mut self) -> (r: Vec<Token>)
        requires
            old(self).wf(),
            old(self).diagnostics@.len() == 0,
        ensures
            token_views(r@) == lex_tokens(old(self).text()),
            diagnostic_views(final(self).diagnostics@) == lex_diagnostics(old(self).text()),
    {
        let ghost s = self.text();
        let mut result: Vec<Token> = Vec::new();
        self.char_stream.reset();
        while !self.char_stream.is_exhausted()
            invariant
                self.char_stream.wf(),
                self.text() == s,
                token_views(result@) + lex_from(s, self.pos()).0 == lex_from(s, 0).0,
                diagnostic_views(self.diagnostics@) + lex_from(s, self.pos()).1 == lex_from(
                    s,
                    0,
                ).1,
            decreases s.len() - self.pos(),
        {
            let ghost i = self.pos();
            let ghost before = result@;
            let ghost diags_before = self.diagnostics@;
            proof {
                lemma_step_progress(s, i);
            }
            let token = self.next_token();
            let ghost st = step(s, i);
            let ghost rest = lex_from(s, st.end);
            match token {
                None => {},
                Some(t) => {
                    result.push(t);
                },
            }
            proof {
                match st.outcome {
                    Outcome::Skip => {},
                    Outcome::Emit(k) => {
                        assert(token_views(result@) =~= token_views(before).push(
                            SpecToken { kind: k, offset: i as nat, length: (st.end - i) as nat },
                        ));
                        assert(token_views(result@) + rest.0 =~= token_views(before) + lex_from(
                            s,
                            i,
                        ).0);
                    },
                    Outcome::Fail(e) => {
                        assert(diagnostic_views(self.diagnostics@) + rest.1
                            =~= diagnostic_views(diags_before) + lex_from(s, i).1);
                    },
                }
            }
        }
        let eof = Token::new(
            TokenType::EOF,
            LineInformation::new(self.char_stream.get_position(), 0),
        );
        let ghost before = result@;
        result.push(eof);
        assert(lex_from(s, 0).0 =~= token_views(before));
        assert(diagnostic_views(self.diagnostics@) =~= lex_from(s, 0).1);
        assert(token_views(result@) =~= lex_tokens(s));
        result
    }
}

proof fn lemma_digits_run(s: Seq<char>, p: int, k: int)
    requires
        0 <= p <= k < digits_end(s, p),
    ensures
        is_digit(s[k]),
    decreases k - p,
{
    if p < k {
        lemma_digits_run(s, p + 1, k);
    }
}

proof fn lemma_digits_end_skip(s: Seq<char>, p: int)
    requires
        0 <= p < s.len(),
        is_digit(s[p]),
    ensures
        digits_end(s, p) == digits_end(s, p + 1),
{
}

} // verus!
