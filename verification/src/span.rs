//! Byte spans into the source text.
use vstd::prelude::*;

use crate::encoding::{byte_pos, str_chars, char_len_utf8, lemma_byte_pos_next};

verus! {

/// A range of bytes `start..end` in a source, tagged with the source's id.
#[derive(Debug, Copy, PartialEq, Eq)]
pub struct Span<Id = ()> {
    source_id: Id,
    start: usize,
    end: usize,
}

impl<Id> Span<Id> {
    /// First byte of the span.
    pub closed spec fn start_spec(&self) -> usize {
        self.start
    }

    /// One past the last byte of the span.
    pub closed spec fn end_spec(&self) -> usize {
        self.end
    }

    /// The id of the source the span points into.
    pub closed spec fn id_spec(&self) -> Id {
        self.source_id
    }
}

impl<Id: Clone> Clone for Span<Id> {
    fn clone(&self) -> (r: Self)
        ensures
            r.start_spec() == self.start_spec(),
            r.end_spec() == self.end_spec(),
            call_ensures(Id::clone, (&self.id_spec(),), r.id_spec()),
    {
        Span { source_id: self.source_id.clone(), start: self.start, end: self.end }
    }
}

impl Span<()> {
    /// The span `start..end` in the default source.
    pub closed spec fn at(start: usize, end: usize) -> Span<()> {
        Span { source_id: (), start, end }
    }

    /// Spans of the default source with the same ends are equal.
    pub proof fn lemma_eq(s: Span<()>, t: Span<()>)
        requires
            s.start_spec() == t.start_spec(),
            s.end_spec() == t.end_spec(),
        ensures
            s == t,
    {
        let a: () = s.source_id;
        let b: () = t.source_id;
        assert(a == b);
    }

    /// The ends of a span built with [Span::at].
    pub broadcast proof fn lemma_at_ends(start: usize, end: usize)
        ensures
            (#[trigger] Span::at(start, end)).start_spec() == start && Span::at(start, end).end_spec() == end,
    {
    }
}

impl<Id: Default> Span<Id> {
    /// A span from `start` to `end` in the default source.
    pub fn new(start: usize, end: usize) -> (s: Self)
        ensures
            s.start_spec() == start,
            s.end_spec() == end,
            call_ensures(Id::default, (), s.id_spec()),
    {
        Self { source_id: Id::default(), start, end }
    }

    /// An empty span at `pos`.
    pub fn pos(pos: usize) -> (s: Self)
        ensures
            s.start_spec() == pos,
            s.end_spec() == pos,
            call_ensures(Id::default, (), s.id_spec()),
    {
        Self { source_id: Id::default(), start: pos, end: pos }
    }
}

impl<Id> Span<Id> {
    /// A span from `start` to `end` in the source `source_id`.
    pub fn new_with_id(source_id: Id, start: usize, end: usize) -> (s: Self)
        ensures
            s.start_spec() == start,
            s.end_spec() == end,
            s.id_spec() == source_id,
    {
        Self { source_id, start, end }
    }

    /// First byte of the span.
    pub fn start(&self) -> (r: usize)
        ensures
            r == self.start_spec(),
    {
        self.start
    }

    /// One past the last byte of the span.
    pub fn end(&self) -> (r: usize)
        ensures
            r == self.end_spec(),
    {
        self.end
    }

    /// The span as a range `start..end`.
    pub fn range(&self) -> (r: std::ops::Range<usize>)
        ensures
            r.start == self.start_spec(),
            r.end == self.end_spec(),
    {
        self.start..self.end
    }

    /// Number of bytes in the span.
    pub fn len(&self) -> (r: usize)
        requires
            self.start_spec() <= self.end_spec(),
        ensures
            r == self.end_spec() - self.start_spec(),
    {
        self.end - self.start
    }
}

impl<Id: Clone> Span<Id> {
    /// The same span measured in characters of `all_source` instead of bytes.
    ///
    /// Both ends of the span must fall on character boundaries of the source.
    pub fn to_chars_span(&self, all_source: &str) -> (r: CharsSpan<Id>)
        requires
            self.start_spec() <= self.end_spec(),
            exists|a: int| 0 <= a <= all_source@.len() && byte_pos(all_source@, a) == self.start_spec(),
            exists|b: int| 0 <= b <= all_source@.len() && byte_pos(all_source@, b) == self.end_spec(),
        ensures
            r.0.start_spec() <= r.0.end_spec() <= all_source@.len(),
            byte_pos(all_source@, r.0.start_spec() as int) == self.start_spec(),
            byte_pos(all_source@, r.0.end_spec() as int) == self.end_spec(),
            call_ensures(Id::clone, (&self.id_spec(),), r.0.id_spec()),
    {
        let chars = str_chars(all_source);
        let ghost cs = all_source@;
        let ghost a = choose|a: int| 0 <= a <= cs.len() && byte_pos(cs, a) == self.start;
        let ghost b = choose|b: int| 0 <= b <= cs.len() && byte_pos(cs, b) == self.end;
        proof {
            crate::encoding::lemma_byte_pos_mono(cs, 0, cs.len() as int);
            if a < b {
                crate::encoding::lemma_byte_pos_mono(cs, a, b);
            } else if b < a {
                crate::encoding::lemma_byte_pos_mono(cs, b, a);
            }
        }
        let n = chars.len();
        let mut i: usize = 0;
        let mut bytes: usize = 0;
        let mut start_chars: usize = 0;
        while bytes < self.end
            invariant
                chars@ == cs,
                n == cs.len(),
                0 <= i <= cs.len(),
                bytes == byte_pos(cs, i as int),
                0 <= a <= b <= cs.len(),
                byte_pos(cs, a) == self.start,
                byte_pos(cs, b) == self.end,
                i <= b,
                i > a ==> start_chars == a,
            decreases cs.len() - i,
        {
            proof {
                crate::encoding::lemma_byte_pos_mono(cs, i as int, b);
                if (i as int) < a {
                    crate::encoding::lemma_byte_pos_mono(cs, i as int, a);
                } else if a < i {
                    crate::encoding::lemma_byte_pos_mono(cs, a, i as int);
                }
            }
            assert(i < b);
            if bytes == self.start {
                start_chars = i;
            }
            let w = char_len_utf8(chars[i]);
            proof {
                lemma_byte_pos_next(cs, i as int);
                crate::encoding::lemma_byte_pos_mono(cs, i as int + 1, b);
            }
            bytes = bytes + w;
            i = i + 1;
        }
        proof {
            if i < b {
                crate::encoding::lemma_byte_pos_mono(cs, i as int, b);
            }
            if (i as int) < a {
                crate::encoding::lemma_byte_pos_mono(cs, i as int, a);
            }
        }
        let start_chars = if bytes == self.start { i } else { start_chars };
        CharsSpan(Span::new_with_id(self.source_id.clone(), start_chars, i))
    }
}

/// A span whose ends count characters of the source, not bytes.
pub struct CharsSpan<Id>(pub Span<Id>);

impl<Id: Clone + PartialEq> CharsSpan<Id> {
    /// First character of the span.
    pub fn start(&self) -> (r: usize)
        ensures
            r == self.0.start_spec(),
    {
        self.0.start
    }

    /// One past the last character of the span.
    pub fn end(&self) -> (r: usize)
        ensures
            r == self.0.end_spec(),
    {
        self.0.end
    }

    /// The span as a range of characters.
    pub fn range(&self) -> (r: std::ops::Range<usize>)
        ensures
            r.start == self.0.start_spec(),
            r.end == self.0.end_spec(),
    {
        self.0.range()
    }
}

} // verus!
