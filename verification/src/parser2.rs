//! A byte range that slides forward over the source while text is collected.
use vstd::prelude::*;

use crate::encoding::{byte_pos, is_char_pos, str_slice};

verus! {

/// A range `start..end` of bytes whose ends only move forward.
pub struct SlidingRange {
    pub start: usize,
    pub end: usize,
}

impl SlidingRange {
    /// An empty range at `pos`.
    pub fn new(pos: usize) -> (r: Self)
        ensures
            r.start == pos,
            r.end == pos,
    {
        Self { start: pos, end: pos }
    }

    /// The part of `s` in the range; the range becomes empty at its end.
    ///
    /// Both ends must fall on character boundaries of `s`, the start not
    /// after the end.
    pub fn fragment<'input>(&mut self, s: &'input str) -> (r: &'input str)
        requires
            old(self).start <= old(self).end,
            is_char_pos(s@, old(self).start as int),
            is_char_pos(s@, old(self).end as int),
        ensures
            exists|a: int, b: int| 0 <= a <= b <= s@.len() && byte_pos(s@, a) == old(self).start
                && byte_pos(s@, b) == old(self).end && r@ == s@.subrange(a, b),
            final(self).start == old(self).end,
            final(self).end == old(self).end,
    {
        let ghost cs = s@;
        let ghost a = choose|k: int| 0 <= k <= cs.len() && byte_pos(cs, k) == self.start;
        let ghost b = choose|k: int| 0 <= k <= cs.len() && byte_pos(cs, k) == self.end;
        proof {
            if b < a {
                crate::encoding::lemma_byte_pos_mono(cs, b, a);
            }
        }
        let r = str_slice(s, self.start, self.end, Ghost(a), Ghost(b));
        self.start = self.end;
        r
    }

    /// Advances the start `n` bytes; the end follows if the range would
    /// become negative.
    pub fn skip(&mut self, n: usize)
        requires
            old(self).start + n <= usize::MAX,
        ensures
            final(self).start == old(self).start + n,
            final(self).end == if old(self).start + n > old(self).end { (old(self).start + n) as usize } else { old(self).end },
    {
        self.start = self.start + n;
        self.end = if self.start > self.end { self.start } else { self.end };
    }

    /// Advances the end `n` bytes.
    pub fn grow(&mut self, n: usize)
        requires
            old(self).end + n <= usize::MAX,
        ensures
            final(self).start == old(self).start,
            final(self).end == old(self).end + n,
    {
        self.end = self.end + n;
    }
}

} // verus!
