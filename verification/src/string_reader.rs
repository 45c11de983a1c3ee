//! A cursor over the characters of one line.

use crate::text::substring;
use vstd::prelude::*;
use vstd::string::*;

verus! {

/// A string and a position in it, counted in characters.  Reading never
/// fails: what lies beyond the end of the string reads as nothing.
#[derive(Debug)]
pub struct StringReader {
    pub inner: String,
    pub pos: usize,
}

/// The characters of `s` that a read of `size` at `pos` yields: those from
/// `pos` on, `size` of them at most, and none where `pos` is at or beyond
/// the end.
pub open spec fn window(s: Seq<char>, pos: int, size: int) -> Seq<char> {
    if 0 <= pos < s.len() && 0 < size {
        if pos + size <= s.len() {
            s.subrange(pos, pos + size)
        } else {
            s.subrange(pos, s.len() as int)
        }
    } else {
        Seq::empty()
    }
}

impl StringReader {
    /// A reader at the start of `inner`.
    pub fn new(inner: String) -> (r: StringReader)
        ensures
            r.inner@ == inner@,
            r.pos == 0,
    {
        StringReader { inner, pos: 0 }
    }

    /// What is left to read.
    pub open spec fn remaining(&self) -> Seq<char> {
        if self.pos <= self.inner@.len() {
            self.inner@.skip(self.pos as int)
        } else {
            Seq::empty()
        }
    }

    /// Reads up to `size` characters and moves past them.  Near the end of
    /// the string the result is what is left of it; at or after the end, and
    /// for a `size` of zero, it is empty and the reader does not move.
    pub fn read(&mut self, size: usize) -> (r: String)
        ensures
            r@ == window(old(self).inner@, old(self).pos as int, size as int),
            final(self).inner@ == old(self).inner@,
            final(self).pos == old(self).pos + r@.len(),
    {
        let len = self.len();
        if size == 0 || self.pos >= len {
            return String::new();
        }
        let end = if size > len - self.pos {
            len
        } else {
            self.pos + size
        };
        let r = substring(self.inner.as_str(), self.pos, end);
        self.pos = end;
        r
    }

    /// The number of characters of the whole string.
    pub fn len(&self) -> (n: usize)
        ensures
            n == self.inner@.len(),
    {
        self.inner.as_str().unicode_len()
    }

    /// Moves to `pos`, or to the end of the string where `pos` lies beyond it.
    pub fn seek(&mut self, pos: usize)
        ensures
            final(self).inner@ == old(self).inner@,
            pos <= old(self).inner@.len() ==> final(self).pos == pos,
            pos > old(self).inner@.len() ==> final(self).pos == old(self).inner@.len(),
    {
        let len = self.len();
        if pos > len {
            self.pos = len;
        } else {
            self.pos = pos;
        }
    }
}

} // verus!
