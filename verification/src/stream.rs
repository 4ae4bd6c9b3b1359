//! The input cursor: the text being parsed and a position in it, counted in characters.

use vstd::prelude::*;

verus! {

/// The character of `input` at `pos`, or `None` at or past the end.
pub open spec fn char_at(input: Seq<char>, pos: nat) -> Option<char> {
    if pos < input.len() {
        Some(input[pos as int])
    } else {
        None
    }
}

/// What is left of `input` from `pos` on.
pub open spec fn rest_from(input: Seq<char>, pos: nat) -> Seq<char> {
    if pos <= input.len() {
        input.subrange(pos as int, input.len() as int)
    } else {
        Seq::empty()
    }
}

/// The input text together with the current position.
pub struct Stream {
    body: Vec<char>,
    cursor: usize,
}

impl Stream {
    /// The whole input, as a sequence of characters.
    pub closed spec fn text(&self) -> Seq<char> {
        self.body@
    }

    /// The current position.
    pub closed spec fn pos(&self) -> nat {
        self.cursor as nat
    }

    /// A cursor at the start of `text`.
    pub fn new(text: &str) -> (s: Stream)
        ensures
            s.text() == text@,
            s.pos() == 0,
    {
        let mut body: Vec<char> = Vec::new();
        let n: usize = text.unicode_len();
        let mut i: usize = 0;
        while i < n
            invariant
                n == text@.len(),
                i <= n,
                body@ == text@.take(i as int),
            decreases n - i,
        {
            body.push(text.get_char(i));
            i += 1;
        }
        Stream { body, cursor: 0 }
    }

    /// The current position; the cursor is left as it is.
    pub fn mark(&self) -> (p: usize)
        ensures
            p == self.pos(),
    {
        self.cursor
    }

    /// Moves the cursor to `pos`, whatever `pos` is.
    pub fn reset(&mut self, pos: usize)
        ensures
            final(self).text() == old(self).text(),
            final(self).pos() == pos,
    {
        self.cursor = pos;
    }

    /// Reads the character under the cursor and steps past it. At or past the end of the
    /// input nothing is read and the cursor stays.
    pub fn next(&mut self) -> (ch: Option<char>)
        ensures
            final(self).text() == old(self).text(),
            ch == char_at(old(self).text(), old(self).pos()),
            final(self).pos() == if ch is Some { old(self).pos() + 1 } else { old(self).pos() },
    {
        if self.cursor < self.body.len() {
            let ch = self.body[self.cursor];
            self.cursor += 1;
            Some(ch)
        } else {
            None
        }
    }

    /// Reads everything from the cursor to the end of the input.
    pub fn collect(&mut self) -> (r: Vec<char>)
        ensures
            final(self).text() == old(self).text(),
            r@ == rest_from(old(self).text(), old(self).pos()),
            final(self).pos() == if old(self).pos() <= old(self).text().len() {
                old(self).text().len()
            } else {
                old(self).pos()
            },
    {
        let mut r: Vec<char> = Vec::new();
        let ghost start = self.cursor;
        while self.cursor < self.body.len()
            invariant
                self.body == old(self).body,
                start == old(self).cursor,
                start <= self.cursor,
                start < self.body.len() ==> self.cursor <= self.body.len(),
                start >= self.body.len() ==> self.cursor == start,
                start <= self.body.len() ==> r@ == self.body@.subrange(
                    start as int,
                    self.cursor as int,
                ),
                start > self.body.len() ==> r@.len() == 0,
            decreases self.body.len() - self.cursor,
        {
            r.push(self.body[self.cursor]);
            self.cursor += 1;
        }
        assert(r@ =~= rest_from(old(self).text(), old(self).pos()));
        r
    }
}

impl Default for Stream {
    /// A cursor over the empty text.
    fn default() -> (s: Stream)
        ensures
            s.text() == Seq::<char>::empty(),
            s.pos() == 0,
    {
        Stream { body: Vec::new(), cursor: 0 }
    }
}

} // verus!
