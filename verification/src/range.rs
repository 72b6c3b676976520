//! Byte ranges of the source text.

use vstd::prelude::*;

verus! {

/// A span of byte offsets, `start..end`, with `start <= end`.
#[derive(Clone, Copy, Debug, PartialEq, Eq, Hash)]
pub struct TextRange {
    start: u32,
    end: u32,
}

/// How `rowan::TextRange` prints the range `start..end` with `{:?}`.
pub uninterp spec fn range_debug(start: u32, end: u32) -> Seq<char>;

/// Calls `rowan::TextRange::cover`: the result starts at the smaller of the
/// two starts and ends at the larger of the two ends.
#[verifier::external_body]
fn rowan_cover(a: TextRange, b: TextRange) -> (r: TextRange)
    requires
        a.lo() <= a.hi(),
        b.lo() <= b.hi(),
    ensures
        r.lo() == if a.lo() <= b.lo() { a.lo() } else { b.lo() },
        r.hi() == if a.hi() >= b.hi() { a.hi() } else { b.hi() },
{
    let x = rowan::TextRange::new(a.start.into(), a.end.into());
    let y = rowan::TextRange::new(b.start.into(), b.end.into());
    let c = x.cover(y);
    TextRange { start: c.start().into(), end: c.end().into() }
}

/// Calls `rowan::TextRange::cover_offset`: the result is the range widened
/// just enough to reach `offset`.
#[verifier::external_body]
fn rowan_cover_offset(a: TextRange, offset: u32) -> (r: TextRange)
    requires
        a.lo() <= a.hi(),
    ensures
        r.lo() == if a.lo() <= offset { a.lo() } else { offset },
        r.hi() == if a.hi() >= offset { a.hi() } else { offset },
{
    let x = rowan::TextRange::new(a.start.into(), a.end.into());
    let c = x.cover_offset(offset.into());
    TextRange { start: c.start().into(), end: c.end().into() }
}

/// Formats a `rowan::TextRange` with `{:?}`. The text is a function of the two
/// offsets alone; it is named, not spelled out.
#[verifier::external_body]
fn rowan_debug(a: TextRange) -> (s: String)
    requires
        a.lo() <= a.hi(),
    ensures
        s@ == range_debug(a.lo(), a.hi()),
{
    format!("{:?}", rowan::TextRange::new(a.start.into(), a.end.into()))
}

impl TextRange {
    #[verifier::type_invariant]
    spec fn ordered(self) -> bool {
        self.start <= self.end
    }

    /// The first offset of the range.
    pub closed spec fn lo(self) -> u32 {
        self.start
    }

    /// The offset just past the range.
    pub closed spec fn hi(self) -> u32 {
        self.end
    }

    /// The range `lo..hi`.
    pub closed spec fn span(lo: u32, hi: u32) -> TextRange {
        TextRange { start: lo, end: hi }
    }

    /// The smallest range that holds both `self` and `other`.
    pub open spec fn cover_spec(self, other: TextRange) -> TextRange {
        TextRange::span(
            if self.lo() <= other.lo() { self.lo() } else { other.lo() },
            if self.hi() >= other.hi() { self.hi() } else { other.hi() },
        )
    }

    /// The smallest range that holds `self` and reaches `offset`.
    pub open spec fn cover_offset_spec(self, offset: u32) -> TextRange {
        TextRange::span(
            if self.lo() <= offset { self.lo() } else { offset },
            if self.hi() >= offset { self.hi() } else { offset },
        )
    }

    /// A range is its two offsets and nothing more.
    pub broadcast proof fn lemma_span(lo: u32, hi: u32)
        ensures
            (#[trigger] TextRange::span(lo, hi)).lo() == lo,
            TextRange::span(lo, hi).hi() == hi,
    {
    }

    /// Two ranges with the same offsets are the same range.
    pub proof fn lemma_same(a: TextRange, b: TextRange)
        requires
            a.lo() == b.lo(),
            a.hi() == b.hi(),
        ensures
            a == b,
    {
    }

    pub fn new(start: u32, end: u32) -> (r: TextRange)
        requires
            start <= end,
        ensures
            r == TextRange::span(start, end),
            r.lo() == start,
            r.hi() == end,
    {
        TextRange { start, end }
    }

    /// The empty range at offset 0.
    pub fn empty() -> (r: TextRange)
        ensures
            r == TextRange::span(0, 0),
            r.lo() == 0,
            r.hi() == 0,
    {
        TextRange { start: 0, end: 0 }
    }

    pub fn start(&self) -> (s: u32)
        ensures
            s == self.lo(),
            self.lo() <= self.hi(),
    {
        proof {
            use_type_invariant(self);
        }
        self.start
    }

    pub fn end(&self) -> (e: u32)
        ensures
            e == self.hi(),
            self.lo() <= self.hi(),
    {
        proof {
            use_type_invariant(self);
        }
        self.end
    }

    /// The smallest range that holds both `self` and `other`.
    pub fn cover(self, other: TextRange) -> (r: TextRange)
        ensures
            r == self.cover_spec(other),
            r.lo() == if self.lo() <= other.lo() { self.lo() } else { other.lo() },
            r.hi() == if self.hi() >= other.hi() { self.hi() } else { other.hi() },
    {
        proof {
            use_type_invariant(self);
            use_type_invariant(other);
        }
        rowan_cover(self, other)
    }

    /// The smallest range that holds `self` and reaches `offset`.
    pub fn cover_offset(self, offset: u32) -> (r: TextRange)
        ensures
            r == self.cover_offset_spec(offset),
            r.lo() == if self.lo() <= offset { self.lo() } else { offset },
            r.hi() == if self.hi() >= offset { self.hi() } else { offset },
    {
        proof {
            use_type_invariant(self);
        }
        rowan_cover_offset(self, offset)
    }

    /// The range as diagnostics print it.
    pub fn debug_text(self) -> (s: String)
        ensures
            s@ == range_debug(self.lo(), self.hi()),
    {
        proof {
            use_type_invariant(self);
        }
        rowan_debug(self)
    }
}

} // verus!
