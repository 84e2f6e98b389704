//! Source spans: half-open byte ranges `[start, end)` attached to syntax.

use vstd::prelude::*;

verus! {

/// A span representing a range in source code.
///
/// Spans use byte offsets from the start of the source file.
/// The range is half-open: [start, end).
#[derive(Debug, Clone, Copy, PartialEq, Eq, Structural, Hash)]
pub struct Span {
    /// Byte offset of the start of this span (inclusive)
    pub start: usize,
    /// Byte offset of the end of this span (exclusive)
    pub end: usize,
}

impl Span {
    /// The set of byte offsets covered by a span.
    pub open spec fn offsets(self) -> Set<int> {
        Set::new(|i: int| self.start <= i < self.end)
    }

    /// Create a new span from start and end byte offsets.
    pub fn new(start: usize, end: usize) -> (s: Self)
        ensures
            s.start == start,
            s.end == end,
    {
        Span { start, end }
    }

    /// Create an empty span at a given position.
    pub fn empty(pos: usize) -> (s: Self)
        ensures
            s.start == pos,
            s.end == pos,
    {
        Span { start: pos, end: pos }
    }

    /// Create a span covering a single byte.
    pub fn single(pos: usize) -> (s: Self)
        requires
            pos < usize::MAX,
        ensures
            s.start == pos,
            s.end == pos + 1,
    {
        Span { start: pos, end: pos + 1 }
    }

    /// The span used where no real source location exists.
    pub fn dummy() -> (s: Self)
        ensures
            s.start == 0,
            s.end == 0,
    {
        Span { start: 0, end: 0 }
    }

    /// Returns the length of this span in bytes.
    pub fn len(&self) -> (n: usize)
        requires
            self.start <= self.end,
        ensures
            n == self.end - self.start,
    {
        self.end - self.start
    }

    /// Returns true if this span has zero length.
    pub fn is_empty(&self) -> (b: bool)
        ensures
            b == (self.start == self.end),
    {
        self.start == self.end
    }

    /// Merge two spans into one that covers both.
    ///
    /// The resulting span covers from the minimum start to the maximum end.
    pub fn merge(self, other: Self) -> (s: Self)
        ensures
            s.start == if self.start < other.start { self.start } else { other.start },
            s.end == if self.end > other.end { self.end } else { other.end },
    {
        let start = if self.start < other.start { self.start } else { other.start };
        let end = if self.end > other.end { self.end } else { other.end };
        Span { start, end }
    }

    /// Extend this span to include another span.
    pub fn extend(&mut self, other: Self)
        ensures
            final(self).start == if other.start < old(self).start { other.start } else { old(self).start },
            final(self).end == if other.end > old(self).end { other.end } else { old(self).end },
    {
        if other.start < self.start {
            self.start = other.start;
        }
        if other.end > self.end {
            self.end = other.end;
        }
    }

    /// Check if this span contains a byte offset.
    pub fn contains(&self, offset: usize) -> (b: bool)
        ensures
            b == self.offsets().contains(offset as int),
    {
        offset >= self.start && offset < self.end
    }

    /// Check if this span overlaps with another span.
    pub fn overlaps(&self, other: &Self) -> (b: bool)
        ensures
            b == (self.start < other.end && other.start < self.end),
    {
        self.start < other.end && other.start < self.end
    }
}

impl Default for Span {
    fn default() -> (s: Self)
        ensures
            s.start == 0,
            s.end == 0,
    {
        Span { start: 0, end: 0 }
    }
}

/// A span covers exactly the offsets of both merged spans and those in between: merging is
/// commutative, and the merged span covers every offset that either span covers.
pub proof fn law_merge_covers(a: Span, b: Span)
    ensures
        ({
            let m = Span {
                start: if a.start < b.start { a.start } else { b.start },
                end: if a.end > b.end { a.end } else { b.end },
            };
            &&& m == (Span {
                start: if b.start < a.start { b.start } else { a.start },
                end: if b.end > a.end { b.end } else { a.end },
            })
            &&& a.offsets().subset_of(m.offsets())
            &&& b.offsets().subset_of(m.offsets())
        }),
{
}

/// Overlap is symmetric, and two spans overlap exactly when some offset lies in both
/// (for non-empty well-ordered spans).
pub proof fn law_overlaps_symmetric(a: Span, b: Span)
    requires
        a.start < a.end,
        b.start < b.end,
    ensures
        (a.start < b.end && b.start < a.end) == (b.start < a.end && a.start < b.end),
        (a.start < b.end && b.start < a.end) == (exists|i: int| a.offsets().contains(i) && b.offsets().contains(i)),
{
    if a.start < b.end && b.start < a.end {
        let i: int = if a.start < b.start { b.start as int } else { a.start as int };
        assert(a.offsets().contains(i) && b.offsets().contains(i));
    }
}

/// A value paired with its source span.
#[derive(Debug, Clone, PartialEq, Eq, Hash)]
pub struct Spanned<T> {
    /// The wrapped value
    pub value: T,
    /// The source span where this value was found
    pub span: Span,
}

impl<T> Spanned<T> {
    /// Create a new spanned value.
    pub fn new(value: T, span: Span) -> (s: Self)
        ensures
            s.value == value,
            s.span == span,
    {
        Spanned { value, span }
    }

    /// Map a function over the inner value, preserving the span.
    pub fn map<U, F: FnOnce(T) -> U>(self, f: F) -> (s: Spanned<U>)
        requires
            call_requires(f, (self.value,)),
        ensures
            call_ensures(f, (self.value,), s.value),
            s.span == self.span,
    {
        let span = self.span;
        Spanned { value: f(self.value), span }
    }

    /// Get a reference to the inner value.
    pub fn as_ref(&self) -> (s: Spanned<&T>)
        ensures
            *s.value == self.value,
            s.span == self.span,
    {
        Spanned { value: &self.value, span: self.span }
    }

    /// Unwrap the spanned value, discarding the span.
    pub fn into_inner(self) -> (v: T)
        ensures
            v == self.value,
    {
        self.value
    }
}

} // verus!
