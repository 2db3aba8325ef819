//! A reader that hands out the characters of a text one by one and counts
//! the bytes it has passed.

use vstd::prelude::*;
use crate::chars::byte_len;
use crate::chars::lemma_byte_len_prefix;
use crate::chars::lemma_byte_len_step;
use crate::chars::to_chars;
use crate::chars::utf8_width;

verus! {

/// The character of `s` at `i`, if there is one.
pub open spec fn char_at(s: Seq<char>, i: int) -> Option<char> {
    if 0 <= i < s.len() {
        Some(s[i])
    } else {
        None
    }
}

/// A position in a text, with two byte counters: one from the start of the
/// text, one from the place where it was last reset.
#[derive(Debug)]
pub struct Cursor {
    chars: Vec<char>,
    pos: usize,
    len: usize,
    index: usize,
    mark: usize,
}

impl Cursor {
    /// The text that is read.
    pub closed spec fn source(&self) -> Seq<char> {
        self.chars@
    }

    /// How many characters have been consumed.
    pub closed spec fn position(&self) -> int {
        self.pos as int
    }

    /// The position at which the length counter was last reset.
    pub closed spec fn mark(&self) -> int {
        self.mark as int
    }

    pub closed spec fn spec_len(&self) -> usize {
        self.len
    }

    pub closed spec fn spec_index(&self) -> usize {
        self.index
    }

    /// The counters agree with the position: `index` is the byte length of
    /// what was consumed, `len` that of what was consumed since the mark.
    pub open spec fn wf(&self) -> bool {
        &&& 0 <= self.mark() <= self.position() <= self.source().len()
        &&& self.spec_index() == byte_len(self.source().take(self.position()))
        &&& self.spec_len() == byte_len(self.source().subrange(self.mark(), self.position()))
        &&& byte_len(self.source()) <= usize::MAX
    }

    /// This cursor is `before` after it consumed the characters up to `to`.
    pub open spec fn moved_from(&self, before: &Cursor, to: int) -> bool {
        &&& self.wf()
        &&& self.source() == before.source()
        &&& self.mark() == before.mark()
        &&& self.position() == to
        &&& before.position() <= to
    }

    /// A cursor at the start of `buf`.
    pub fn new(buf: &str) -> (c: Cursor)
        ensures
            c.wf(),
            c.source() == buf@,
            c.position() == 0,
            c.mark() == 0,
    {
        let chars = to_chars(buf);
        let n = buf.as_bytes().len();
        assert(byte_len(chars@) == n);
        assert(chars@.take(0) =~= Seq::<char>::empty());
        assert(chars@.subrange(0, 0) =~= Seq::<char>::empty());
        Cursor { chars, pos: 0, len: 0, index: 0, mark: 0 }
    }

    /// The next character, which stays unread.
    pub fn peek(&self) -> (r: Option<char>)
        requires
            self.wf(),
        ensures
            r == char_at(self.source(), self.position()),
    {
        if self.pos < self.chars.len() {
            Some(self.chars[self.pos])
        } else {
            None
        }
    }

    /// The character after the next one, which stays unread.
    pub fn preview(&self) -> (r: Option<char>)
        requires
            self.wf(),
        ensures
            r == char_at(self.source(), self.position() + 1),
    {
        if self.pos < self.chars.len() && self.pos + 1 < self.chars.len() {
            Some(self.chars[self.pos + 1])
        } else {
            None
        }
    }

    /// Consumes the next character and adds its width in bytes to both
    /// counters. At the end of the text nothing changes.
    pub fn next(&mut self) -> (r: Option<char>)
        requires
            old(self).wf(),
        ensures
            r == char_at(old(self).source(), old(self).position()),
            r.is_some() ==> final(self).moved_from(old(self), old(self).position() + 1),
            r.is_none() ==> *final(self) == *old(self),
            final(self).wf(),
    {
        if self.pos < self.chars.len() {
            let c = self.chars[self.pos];
            let w = utf8_width(c);
            proof {
                lemma_byte_len_step(self.chars@, self.pos as int);
                lemma_byte_len_prefix(self.chars@, self.mark as int, self.pos as int);
                lemma_byte_len_prefix(self.chars@, self.mark as int, self.pos as int + 1);
            }
            self.len = self.len + w;
            self.index = self.index + w;
            self.pos = self.pos + 1;
            Some(c)
        } else {
            None
        }
    }

    /// The bytes consumed since the counter was last reset.
    pub fn get_len(&self) -> (r: usize)
        requires
            self.wf(),
        ensures
            r == self.spec_len(),
            r == byte_len(self.source().subrange(self.mark(), self.position())),
    {
        self.len
    }

    /// Starts counting the length anew from the present position.
    pub fn reset_len(&mut self)
        requires
            old(self).wf(),
        ensures
            final(self).wf(),
            final(self).source() == old(self).source(),
            final(self).position() == old(self).position(),
            final(self).mark() == old(self).position(),
            final(self).spec_len() == 0,
            final(self).spec_index() == old(self).spec_index(),
    {
        self.len = 0;
        self.mark = self.pos;
        assert(self.chars@.subrange(self.pos as int, self.pos as int) =~= Seq::<char>::empty());
    }

    /// The bytes consumed since the start of the text.
    pub fn get_index(&self) -> (r: usize)
        requires
            self.wf(),
        ensures
            r == self.spec_index(),
            r == byte_len(self.source().take(self.position())),
    {
        self.index
    }

    /// Whether the whole text has been consumed.
    pub fn eof(&mut self) -> (r: bool)
        requires
            old(self).wf(),
        ensures
            *final(self) == *old(self),
            r == (old(self).position() == old(self).source().len()),
    {
        self.pos >= self.chars.len()
    }

    /// How many characters have been consumed.
    pub fn offset(&self) -> (r: usize)
        requires
            self.wf(),
        ensures
            r == self.position(),
    {
        self.pos
    }

    /// The characters of the text from `from` up to `to`.
    pub fn text(&self, from: usize, to: usize) -> (r: &[char])
        requires
            from <= to <= self.source().len(),
        ensures
            r@ == self.source().subrange(from as int, to as int),
    {
        vstd::slice::slice_subrange(self.chars.as_slice(), from, to)
    }
}

} // verus!
