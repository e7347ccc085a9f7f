//! Byte-range source positions.

use vstd::prelude::*;
use vstd::string::StringSliceAdditionalSpecFns;

use crate::source::{at_boundary, slice};

verus! {

/// A byte range into the source string: `[start, end)`.
///
/// Offsets are `u32`, so source text over 4 GiB is out of scope.
#[derive(Debug, Clone, Copy, PartialEq, Eq, Hash)]
pub struct Span {
    /// Start byte offset (inclusive).
    pub start: u32,
    /// End byte offset (exclusive).
    pub end: u32,
}

impl Span {
    /// Construct a span from a start (inclusive) and end (exclusive) byte offset.
    pub fn new(start: u32, end: u32) -> (s: Self)
        ensures
            s.start == start,
            s.end == end,
    {
        Span { start, end }
    }

    /// Whether this span lies within `b` and both ends sit on character
    /// boundaries, so that [`Span::text`] can slice it.
    pub open spec fn sliceable(self, b: Seq<u8>) -> bool {
        &&& self.start <= self.end <= b.len()
        &&& at_boundary(b, self.start as int)
        &&& at_boundary(b, self.end as int)
    }

    /// The source text this span covers. Zero-copy.
    pub fn text<'a>(&self, source: &'a str) -> (r: &'a str)
        requires
            self.sliceable(source.spec_bytes()),
        ensures
            r.spec_bytes() == source.spec_bytes().subrange(self.start as int, self.end as int),
    {
        slice(source, self.start as usize, self.end as usize)
    }

    /// The span's length in bytes.
    pub fn len(&self) -> (n: u32)
        requires
            self.start <= self.end,
        ensures
            n == self.end - self.start,
    {
        self.end - self.start
    }

    /// Whether the span is empty (`start == end`).
    pub fn is_empty(&self) -> (b: bool)
        ensures
            b == (self.start == self.end),
    {
        self.start == self.end
    }

    /// Whether `offset` falls within this span (`start <= offset < end`).
    pub fn contains(&self, offset: u32) -> (b: bool)
        ensures
            b == (self.start <= offset && offset < self.end),
    {
        self.start <= offset && offset < self.end
    }
}

/// A span as a `usize` byte range, for slicing.
impl From<Span> for std::ops::Range<usize> {
    fn from(span: Span) -> (r: Self) {
        span.start as usize..span.end as usize
    }
}

impl vstd::std_specs::convert::FromSpecImpl<Span> for std::ops::Range<usize> {
    open spec fn obeys_from_spec() -> bool {
        true
    }

    open spec fn from_spec(span: Span) -> Self {
        std::ops::Range { start: span.start as usize, end: span.end as usize }
    }
}

} // verus!
