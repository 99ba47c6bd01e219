//! Source-anchored diagnostics: a region of the source is resolved to its
//! line and rendered with the line's text and a caret underline.
use crate::chars::{chars_of, string_of};
use vstd::prelude::*;

verus! {

/// A region of the source: an offset and a length, counted in characters.
#[derive(Clone, Copy, Debug, PartialEq, Eq, Structural)]
pub struct LineInformation {
    offset: usize,
    length: usize,
}

/// The mathematical form of a `LineInformation`.
pub struct Span {
    pub offset: nat,
    pub length: nat,
}

impl View for LineInformation {
    type V = Span;

    closed spec fn view(&self) -> Span {
        Span { offset: self.offset as nat, length: self.length as nat }
    }
}

impl LineInformation {
    pub fn new(offset: usize, length: usize) -> (r: LineInformation)
        ensures
            r@ == (Span { offset: offset as nat, length: length as nat }),
    {
        LineInformation { offset, length }
    }

    pub fn offset(&self) -> (r: usize)
        ensures
            r == self@.offset,
    {
        self.offset
    }

    pub fn length(&self) -> (r: usize)
        ensures
            r == self@.length,
    {
        self.length
    }
}

/// Number of newline characters in `s`.
pub open spec fn count_newlines(s: Seq<char>) -> nat
    decreases s.len(),
{
    if s.len() == 0 {
        0
    } else {
        count_newlines(s.drop_last()) + if s.last() == '\n' {
            1nat
        } else {
            0nat
        }
    }
}

/// The 1-based number of the line that holds `offset`.
pub open spec fn line_number(s: Seq<char>, offset: int) -> nat {
    count_newlines(s.subrange(0, offset)) + 1
}

/// Where the line holding `offset` starts: just after the last newline before it.
pub open spec fn line_start(s: Seq<char>, offset: int) -> int
    decreases offset,
{
    if offset <= 0 {
        0
    } else if s[offset - 1] == '\n' {
        offset
    } else {
        line_start(s, offset - 1)
    }
}

/// Where the line holding `i` ends: the first newline at or after `i`, else the end.
pub open spec fn line_end(s: Seq<char>, i: int) -> int
    decreases s.len() - i,
{
    if i < 0 || i >= s.len() {
        s.len() as int
    } else if s[i] == '\n' {
        i
    } else {
        line_end(s, i + 1)
    }
}

pub open spec fn digit_char(d: nat) -> char {
    ((d + 48) as u8) as char
}

/// The decimal digits of `n`, most significant first.
pub open spec fn decimal(n: nat) -> Seq<char>
    decreases n,
{
    if n < 10 {
        seq![digit_char(n)]
    } else {
        decimal(n / 10).push(digit_char(n % 10))
    }
}

pub open spec fn repeat(c: char, n: nat) -> Seq<char> {
    Seq::new(n, |i: int| c)
}

pub open spec fn min(a: int, b: int) -> int {
    if a < b {
        a
    } else {
        b
    }
}

/// Width of the margin in front of the `|` bar for a given line number.
pub open spec fn gutter_width(line: nat) -> nat {
    decimal(line).len() + 2
}

/// How many carets underline the region: up to the end of its first line.
pub open spec fn marker_length(s: Seq<char>, offset: int, length: int) -> int {
    min(length, line_end(s, offset) - offset)
}

/// The margin followed by the bar, as it starts every line but the numbered one.
pub open spec fn gutter(w: nat) -> Seq<char> {
    repeat(' ', w).push('|')
}

/// ` <line> | <text of the line>` and a newline.
pub open spec fn code_line(s: Seq<char>, offset: int) -> Seq<char> {
    seq![' '] + decimal(line_number(s, offset)) + seq![' ', '|', ' '] + s.subrange(
        line_start(s, offset),
        line_end(s, offset),
    ) + seq!['\n']
}

/// The bar, spaces up to the column, then the carets.
pub open spec fn marker_line(s: Seq<char>, offset: int, length: int) -> Seq<char> {
    gutter(gutter_width(line_number(s, offset))) + seq![' '] + repeat(
        ' ',
        (offset - line_start(s, offset)) as nat,
    ) + repeat('^', marker_length(s, offset, length) as nat) + seq!['\n']
}

/// The notice for a region that runs past the end of its first line.
pub open spec fn continuation_line(s: Seq<char>, offset: int) -> Seq<char> {
    gutter(gutter_width(line_number(s, offset))) + seq![' '] + "--> Error continues in next line.\n"@
}

/// The full text of a diagnostic for `message` about a region of `s`.
pub open spec fn render(s: Seq<char>, message: Seq<char>, offset: int, length: int) -> Seq<char> {
    let w = gutter_width(line_number(s, offset));
    let body = message.push('\n') + gutter(w).push('\n') + code_line(s, offset) + marker_line(
        s,
        offset,
        length,
    );
    if marker_length(s, offset, length) < length {
        body + continuation_line(s, offset)
    } else {
        body
    }
}

/// Renders diagnostics over one source text.
pub struct ErrorHandler {
    code: Vec<char>,
}

impl ErrorHandler {
    /// The source text is no longer than a `str` can be.
    pub closed spec fn wf(&self) -> bool {
        self.code@.len() <= isize::MAX
    }
}

impl View for ErrorHandler {
    type V = Seq<char>;

    closed spec fn view(&self) -> Seq<char> {
        self.code@
    }
}

fn push_repeat(out: &mut Vec<char>, c: char, n: usize)
    ensures
        final(out)@ == old(out)@ + repeat(c, n as nat),
{
    let ghost start = out@;
    let mut i: usize = 0;
    while i < n
        invariant
            i <= n,
            out@ == start + repeat(c, i as nat),
        decreases n - i,
    {
        out.push(c);
        i = i + 1;
        assert(out@ =~= start + repeat(c, i as nat));
    }
}

fn push_decimal(out: &mut Vec<char>, n: usize)
    ensures
        final(out)@ == old(out)@ + decimal(n as nat),
    decreases n,
{
    let d = ((n % 10) as u8 + 48) as char;
    if n >= 10 {
        push_decimal(out, n / 10);
    }
    out.push(d);
    proof {
        if n >= 10 {
            assert(decimal(n as nat) == decimal((n / 10) as nat).push(digit_char((n % 10) as nat)));
        }
    }
    assert(final(out)@ =~= old(out)@ + decimal(n as nat));
}

pub(crate) fn push_range(out: &mut Vec<char>, s: &[char], lo: usize, hi: usize)
    requires
        lo <= hi <= s@.len(),
    ensures
        final(out)@ == old(out)@ + s@.subrange(lo as int, hi as int),
{
    let ghost start = out@;
    let mut i: usize = lo;
    while i < hi
        invariant
            lo <= i <= hi <= s@.len(),
            out@ == start + s@.subrange(lo as int, i as int),
        decreases hi - i,
    {
        out.push(s[i]);
        i = i + 1;
        assert(out@ =~= start + s@.subrange(lo as int, i as int));
    }
}

pub(crate) fn push_all(out: &mut Vec<char>, s: &[char])
    ensures
        final(out)@ == old(out)@ + s@,
{
    push_range(out, s, 0, s.len());
    assert(s@.subrange(0, s@.len() as int) =~= s@);
}

impl ErrorHandler {
    pub fn new(code: &String) -> (r: ErrorHandler)
        ensures
            r@ == code@,
            r.wf(),
    {
        ErrorHandler { code: chars_of(code.as_str()) }
    }

    /// The text that is emitted for `error_msg` about the region `line_information`.
    pub fn report_error(&self, error_msg: &str, line_information: &LineInformation) -> (r: String)
        requires
            self.wf(),
            line_information@.offset + line_information@.length <= self@.len(),
        ensures
            r@ == render(
                self@,
                error_msg@,
                line_information@.offset as int,
                line_information@.length as int,
            ),
    {
        self.get_error_message(error_msg, line_information)
    }

    pub fn get_error_message(&self, error_msg: &str, line_information: &LineInformation) -> (r:
        String)
        requires
            self.wf(),
            line_information@.offset + line_information@.length <= self@.len(),
        ensures
            r@ == render(
                self@,
                error_msg@,
                line_information@.offset as int,
                line_information@.length as int,
            ),
    {
        let offset = line_information.offset;
        let length = line_information.length;
        let ghost s = self@;
        let line = self.line_number(offset);
        let mut digits: Vec<char> = Vec::new();
        push_decimal(&mut digits, line);
        proof {
            lemma_decimal_len(line as nat);
        }
        let indentation = digits.len() + 2;
        let (line_text, column_offset, column_end) = self.get_line_content_and_column_offset(
            offset,
        );

        let mut result = chars_of(error_msg);
        result.push('\n');
        push_repeat(&mut result, ' ', indentation);
        result.push('|');
        result.push('\n');
        let ghost header = result@;
        assert(header =~= error_msg@.push('\n') + gutter(indentation as nat).push('\n'));

        result.push(' ');
        push_all(&mut result, digits.as_slice());
        result.push(' ');
        result.push('|');
        result.push(' ');
        push_all(&mut result, line_text.as_slice());
        result.push('\n');
        assert(result@ =~= header + code_line(s, offset as int));
        let ghost with_code = result@;

        let marker_len = if length < column_end - offset {
            length
        } else {
            column_end - offset
        };
        push_repeat(&mut result, ' ', indentation);
        result.push('|');
        result.push(' ');
        push_repeat(&mut result, ' ', column_offset);
        push_repeat(&mut result, '^', marker_len);
        result.push('\n');
        assert(result@ =~= with_code + marker_line(s, offset as int, length as int));

        if marker_len < length {
            let ghost body = result@;
            push_repeat(&mut result, ' ', indentation);
            result.push('|');
            result.push(' ');
            let notice = chars_of("--> Error continues in next line.\n");
            push_all(&mut result, notice.as_slice());
            assert(result@ =~= body + continuation_line(s, offset as int));
        }
        string_of(result.as_slice())
    }

    /// Counts the newlines before `offset`, plus one.
    fn line_number(&self, offset: usize) -> (r: usize)
        requires
            self.wf(),
            offset <= self@.len(),
        ensures
            r == line_number(self@, offset as int),
    {
        let mut count: usize = 0;
        let mut i: usize = 0;
        while i < offset
            invariant
                i <= offset <= self.code@.len(),
                count == count_newlines(self.code@.subrange(0, i as int)),
                count <= i,
            decreases offset - i,
        {
            assert(self.code@.subrange(0, i + 1).drop_last() =~= self.code@.subrange(0, i as int));
            if self.code[i] == '\n' {
                count = count + 1;
            }
            i = i + 1;
        }
        count + 1
    }

    /// The text of the line holding `offset`, the column of `offset` in it,
    /// and where the line ends.
    fn get_line_content_and_column_offset(&self, offset: usize) -> (r: (Vec<char>, usize, usize))
        requires
            offset <= self@.len(),
        ensures
            r.0@ == self@.subrange(line_start(self@, offset as int), line_end(self@, offset as int)),
            r.1 == offset - line_start(self@, offset as int),
            r.2 == line_end(self@, offset as int),
            offset <= r.2 <= self@.len(),
    {
        let ghost s = self@;
        let mut left: usize = 0;
        let mut idx: usize = 0;
        while idx < offset
            invariant
                idx <= offset <= s.len(),
                s == self@,
                left == line_start(s, idx as int),
                left <= idx,
            decreases offset - idx,
        {
            if self.code[idx] == '\n' {
                left = idx + 1;
            }
            idx = idx + 1;
        }
        let column_offset = offset - left;

        let mut right: usize = offset;
        while right < self.code.len() && self.code[right] != '\n'
            invariant
                offset <= right <= s.len(),
                s == self@,
                line_end(s, offset as int) == line_end(s, right as int),
            decreases s.len() - right,
        {
            right = right + 1;
        }
        proof {
            lemma_line_end_bounds(s, offset as int);
        }
        let mut line: Vec<char> = Vec::new();
        push_range(&mut line, self.code.as_slice(), left, right);
        (line, column_offset, right)
    }
}

proof fn lemma_decimal_len(n: nat)
    ensures
        n < 10 ==> decimal(n).len() == 1,
        n >= 1 ==> decimal(n).len() <= n,
        n >= 10 ==> decimal(n).len() <= n / 10 + 1,
    decreases n,
{
    if n >= 10 {
        lemma_decimal_len(n / 10);
    }
}

pub(crate) proof fn lemma_line_end_bounds(s: Seq<char>, i: int)
    requires
        0 <= i <= s.len(),
    ensures
        i <= line_end(s, i) <= s.len(),
    decreases s.len() - i,
{
    if i < s.len() && s[i] != '\n' {
        lemma_line_end_bounds(s, i + 1);
    }
}

} // verus!
