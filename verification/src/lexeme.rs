//! A lexeme records the span of a token in the source text, and a cursor
//! scans the source text one character at a time, accumulating the span of
//! the lexeme currently being read.
//!
//! All offsets and lengths count Unicode code points.

use vstd::prelude::*;

verus! {

/// A closed span of source text: its start offset, its length, and the exact
/// slice of the source it covers.
#[derive(Debug, Clone, Copy, PartialEq, Eq)]
pub struct Lexeme<'text> {
    /// The start offset (in code points) of this lexeme.
    pub start_offset: usize,
    /// The length (in code points) of this lexeme.
    pub length: usize,
    /// The slice of the source text this lexeme covers.
    pub text: &'text str,
}

/// The abstract state of a [`Cursor`]: the scanned text and the bounds of the
/// open lexeme.
pub ghost struct CursorModel {
    /// The whole source text.
    pub text: Seq<char>,
    /// The start offset of the open lexeme.
    pub start: int,
    /// How many characters the open lexeme has accumulated so far.
    pub length: int,
}

impl CursorModel {
    /// The scan position: one past the last consumed character.
    pub open spec fn position(self) -> int {
        self.start + self.length
    }
}

/// Scans an immutable source text one character at a time.
///
/// Consumed characters accumulate into the open lexeme, which `close` turns
/// into a [`Lexeme`] value. The cursor only moves forward.
pub struct Cursor<'text> {
    text: &'text str,
    /// The length of `text` in code points.
    text_len: usize,
    /// The start offset of the open lexeme.
    start: usize,
    /// How many characters the open lexeme has accumulated so far.
    length: usize,
}

impl<'text> View for Cursor<'text> {
    type V = CursorModel;

    closed spec fn view(&self) -> CursorModel {
        CursorModel { text: self.text@, start: self.start as int, length: self.length as int }
    }
}

impl<'text> Cursor<'text> {
    /// The cached text length agrees with the text itself.
    pub closed spec fn consistent(self) -> bool {
        self.text_len == self.text@.len()
    }

    /// The cursor's open lexeme lies within the source text.
    pub open spec fn wf(self) -> bool {
        &&& self.consistent()
        &&& 0 <= self@.start
        &&& 0 <= self@.length
        &&& self@.position() <= self@.text.len()
        &&& self@.text.len() <= usize::MAX
    }

    /// A fresh cursor at the start of `text`, with an empty open lexeme.
    pub fn new(text: &'text str) -> (cursor: Self)
        ensures
            cursor.wf(),
            cursor@.text == text@,
            cursor@.start == 0,
            cursor@.length == 0,
    {
        let text_len = text.unicode_len();
        Self { text, text_len, start: 0, length: 0 }
    }

    /// The source text being scanned.
    pub(crate) fn source(&self) -> (r: &'text str)
        ensures
            r@ == self@.text,
    {
        self.text
    }

    /// Returns the open lexeme without closing it.
    pub fn current(&self) -> (lexeme: Lexeme<'text>)
        requires
            self.wf(),
        ensures
            lexeme.start_offset == self@.start,
            lexeme.length == self@.length,
            lexeme.text@ == self@.text.subrange(self@.start, self@.position()),
    {
        Lexeme {
            start_offset: self.start,
            length: self.length,
            text: self.text.substring_char(self.start, self.start + self.length),
        }
    }

    /// Closes the open lexeme: returns it and starts a new, empty one at the
    /// current position. With nothing accumulated the result is a valid
    /// zero-length lexeme at the current offset.
    pub fn close(&mut self) -> (lexeme: Lexeme<'text>)
        requires
            old(self).wf(),
        ensures
            final(self).wf(),
            final(self)@.text == old(self)@.text,
            final(self)@.start == old(self)@.position(),
            final(self)@.length == 0,
            lexeme.start_offset == old(self)@.start,
            lexeme.length == old(self)@.length,
            lexeme.text@ == old(self)@.text.subrange(old(self)@.start, old(self)@.position()),
    {
        let current = self.current();
        self.start = self.start + self.length;
        self.length = 0;
        current
    }

    /// Consumes the next character into the open lexeme. At the end of the
    /// input it returns nothing and changes nothing.
    pub fn consume(&mut self) -> (consumed: Option<char>)
        requires
            old(self).wf(),
        ensures
            final(self).wf(),
            final(self)@.text == old(self)@.text,
            final(self)@.start == old(self)@.start,
            old(self)@.position() < old(self)@.text.len() ==> {
                &&& consumed == Some(old(self)@.text[old(self)@.position()])
                &&& final(self)@.length == old(self)@.length + 1
            },
            old(self)@.position() >= old(self)@.text.len() ==> {
                &&& consumed is None
                &&& final(self)@.length == old(self)@.length
            },
    {
        if self.start + self.length < self.text_len {
            let next = self.text.get_char(self.start + self.length);
            self.length = self.length + 1;
            Some(next)
        } else {
            None
        }
    }

    /// Peeks the next unconsumed character without consuming it.
    pub fn peek(&self) -> (c: Option<char>)
        requires
            self.wf(),
        ensures
            c == (if self@.position() < self@.text.len() {
                Some(self@.text[self@.position()])
            } else {
                Option::<char>::None
            }),
    {
        self.peek_at_offset(0)
    }

    /// Peeks the character `offset` places past the next unconsumed one,
    /// without consuming anything.
    pub fn peek_at_offset(&self, offset: usize) -> (c: Option<char>)
        requires
            self.wf(),
        ensures
            c == (if self@.position() + offset < self@.text.len() {
                Some(self@.text[self@.position() + offset])
            } else {
                Option::<char>::None
            }),
    {
        let position = self.start + self.length;
        if offset < self.text_len - position {
            Some(self.text.get_char(position + offset))
        } else {
            None
        }
    }

    /// Consumes characters into the open lexeme while `predicate` holds of
    /// the next one; stops at the first character that fails it, or at the
    /// end of the input. Returns the number of characters consumed.
    pub fn consume_while<F: Fn(char) -> bool>(&mut self, predicate: F) -> (consumed: usize)
        requires
            old(self).wf(),
            forall|c: char| #[trigger] call_requires(predicate, (c,)),
        ensures
            final(self).wf(),
            final(self)@.text == old(self)@.text,
            final(self)@.start == old(self)@.start,
            final(self)@.length >= old(self)@.length,
            consumed == final(self)@.length - old(self)@.length,
            forall|i: int|
                old(self)@.position() <= i < final(self)@.position() ==> call_ensures(
                    predicate,
                    (old(self)@.text[i],),
                    true,
                ),
            final(self)@.position() < final(self)@.text.len() ==> call_ensures(
                predicate,
                (old(self)@.text[final(self)@.position()],),
                false,
            ),
    {
        let mut consumed: usize = 0;
        loop
            invariant
                self.wf(),
                self@.text == old(self)@.text,
                self@.start == old(self)@.start,
                self@.length >= old(self)@.length,
                consumed == self@.length - old(self)@.length,
                forall|c: char| #[trigger] call_requires(predicate, (c,)),
                forall|i: int|
                    old(self)@.position() <= i < self@.position() ==> call_ensures(
                        predicate,
                        (old(self)@.text[i],),
                        true,
                    ),
            decreases self@.text.len() - self@.position(),
        {
            let next = match self.peek() {
                Some(next) => next,
                None => { return consumed; },
            };
            if !predicate(next) {
                return consumed;
            }
            self.consume();
            consumed = consumed + 1;
        }
    }
}

} // verus!
