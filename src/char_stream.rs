//! A bounds-checked cursor over the characters of a text.
use crate::chars::chars_of;
use vstd::prelude::*;

verus! {

/// Walks over a fixed text one character at a time. Positions count
/// characters; for ASCII text they are byte offsets.
pub struct CharStream {
    text: Vec<char>,
    position: usize,
}

impl CharStream {
    /// The characters walked over.
    pub closed spec fn text(&self) -> Seq<char> {
        self.text@
    }

    /// The index of the next character to be consumed.
    pub closed spec fn pos(&self) -> nat {
        self.position as nat
    }

    /// The position never passes the end of the text.
    pub open spec fn wf(&self) -> bool {
        self.pos() <= self.text().len()
    }

    /// The character `n` places after the position, if there is one.
    pub open spec fn char_at(&self, n: int) -> Option<char> {
        if 0 <= self.pos() + n < self.text().len() {
            Some(self.text()[self.pos() + n])
        } else {
            None
        }
    }

    pub fn new(text: &str) -> (r: CharStream)
        ensures
            r.wf(),
            r.text() == text@,
            r.pos() == 0,
    {
        CharStream { text: chars_of(text), position: 0 }
    }

    pub fn reset(&mut self)
        ensures
            final(self).wf(),
            final(self).text() == old(self).text(),
            final(self).pos() == 0,
    {
        self.position = 0;
    }

    /// Consumes the character at the position; at the end, returns `None`
    /// and stays put.
    pub fn next(&mut self) -> (r: Option<char>)
        requires
            old(self).wf(),
        ensures
            final(self).wf(),
            final(self).text() == old(self).text(),
            r == old(self).char_at(0),
            r is Some ==> final(self).pos() == old(self).pos() + 1,
            r is None ==> final(self).pos() == old(self).pos(),
    {
        if self.position < self.text.len() {
            let c = self.text[self.position];
            self.position = self.position + 1;
            Some(c)
        } else {
            None
        }
    }

    /// Steps back over the last consumed character.
    pub fn revert(&mut self)
        requires
            old(self).wf(),
            old(self).pos() > 0,
        ensures
            final(self).wf(),
            final(self).text() == old(self).text(),
            final(self).pos() == old(self).pos() - 1,
    {
        self.position = self.position - 1;
    }

    /// The character just after the one at the position.
    pub fn peek(&self) -> (r: Option<char>)
        requires
            self.wf(),
        ensures
            r == self.char_at(1),
    {
        self.peek_n(1)
    }

    pub fn peek_n(&self, n: usize) -> (r: Option<char>)
        requires
            self.wf(),
        ensures
            r == self.char_at(n as int),
    {
        if n < self.text.len() - self.position {
            Some(self.text[self.position + n])
        } else {
            None
        }
    }

    /// Consumes the character at the position when it is `expected`.
    pub fn matches(&mut self, expected: char) -> (r: bool)
        requires
            old(self).wf(),
        ensures
            final(self).wf(),
            final(self).text() == old(self).text(),
            r == (old(self).char_at(0) == Some(expected)),
            r ==> final(self).pos() == old(self).pos() + 1,
            !r ==> final(self).pos() == old(self).pos(),
    {
        if self.position < self.text.len() {
            if self.text[self.position] != expected {
                return false;
            }
            self.position = self.position + 1;
            true
        } else {
            false
        }
    }

    pub fn is_exhausted(&self) -> (r: bool)
        requires
            self.wf(),
        ensures
            r == (self.pos() >= self.text().len()),
    {
        self.position >= self.text.len()
    }

    pub fn current_char(&self) -> (r: Option<char>)
        requires
            self.wf(),
        ensures
            r == self.char_at(0),
    {
        if self.position < self.text.len() {
            Some(self.text[self.position])
        } else {
            None
        }
    }

    pub fn get_position(&self) -> (r: usize)
        ensures
            r == self.pos(),
    {
        self.position
    }
}

} // verus!
