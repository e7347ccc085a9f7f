//! A line/column index over a source string.
//!
//! [`LineIndex`] maps between byte offsets and 1-based (line, column)
//! positions, independent of the [`crate::Datum`] tree. It is computed once
//! over a `&str`.
//!
//! Conventions:
//! - line and column are 1-based;
//! - columns are byte offsets from the start of the line;
//! - line breaks are `\n` and `\r\n` only — a lone `\r` is not a break;
//! - [`LineIndex::line_range`] returns line content only (terminator
//!   excluded), so those ranges do not tile the source;
//!   [`LineIndex::line_full_range`] (content and terminator) does, and
//!   [`LineIndex::line_terminator`] gives the break kind.

#![verifier::loop_isolation(false)]

use std::ops::Range;
use vstd::prelude::*;
use vstd::string::StringSliceAdditionalSpecFns;

use crate::source::{
    count_newlines, lemma_count_newlines_bound, lemma_count_newlines_mono,
    lemma_count_newlines_step, line_of,
};

verus! {

/// A single line: its start offset and the offset just past its last content
/// byte (excluding the `\n`/`\r\n` terminator).
#[derive(Debug, Clone, Copy)]
struct Line {
    start: u32,
    end: u32,
}

/// The line-terminator kind at the end of a line. Breaks are `\n` and
/// `\r\n` only, so this is a closed set.
#[derive(Debug, Clone, Copy, PartialEq, Eq, Hash)]
pub enum Terminator {
    /// A single `\n`.
    Lf,
    /// A `\r\n` pair.
    CrLf,
    /// No terminator — the final line, when the source does not end in a
    /// break.
    Absent,
}

/// A precomputed line/column index over a source string.
///
/// Encoding-agnostic: columns are byte offsets. A consumer needing char or
/// UTF-16 columns slices the line via [`Self::line_range`] and counts.
#[derive(Debug, Clone)]
pub struct LineIndex {
    lines: Vec<Line>,
    len: u32,
}

/// The end of a line's content, given its start `s` and the start `f` of
/// the following line (or the end of `b` for the last line): the `\n`
/// before `f` is dropped, and a `\r` just before it too.
pub open spec fn content_end_in(b: Seq<u8>, s: int, f: int, last: bool) -> int {
    if last {
        b.len() as int
    } else {
        let n = f - 1;
        if n > s && b[n - 1] == 13u8 {
            n - 1
        } else {
            n
        }
    }
}

impl LineIndex {
    /// The number of lines.
    pub closed spec fn count(&self) -> int {
        self.lines@.len() as int
    }

    /// The length of the indexed source, in bytes.
    pub closed spec fn source_len(&self) -> int {
        self.len as int
    }

    /// The start offset of line `k` (0-based).
    pub closed spec fn start(&self, k: int) -> int {
        self.lines@[k].start as int
    }

    /// The end of line `k`'s content (0-based), terminator excluded.
    pub closed spec fn content_end(&self, k: int) -> int {
        self.lines@[k].end as int
    }

    /// The end of line `k`'s full extent (0-based), terminator included: the
    /// start of the next line, or the end of the source.
    pub open spec fn full_end(&self, k: int) -> int {
        if k + 1 < self.count() {
            self.start(k + 1)
        } else {
            self.source_len()
        }
    }

    /// The index's invariant: at least one line, the first at offset 0,
    /// starts strictly increasing, each line's content within its full extent
    /// and followed by a terminator of at most two bytes, which only the
    /// last line may lack; the last line's content runs to the end.
    pub closed spec fn wf(&self) -> bool {
        &&& 1 <= self.count() <= self.source_len() + 1
        &&& self.source_len() < u32::MAX
        &&& self.start(0) == 0
        &&& forall|i: int, j: int| 0 <= i < j < self.count() ==> self.start(i) < self.start(j)
        &&& forall|k: int|
            0 <= k < self.count() ==> {
                &&& self.start(k) <= #[trigger] self.content_end(k) <= self.full_end(k)
                &&& self.full_end(k) <= self.source_len()
                &&& self.full_end(k) - self.content_end(k) <= 2
            }
        &&& forall|k: int| 0 <= k < self.count() - 1 ==> #[trigger] self.content_end(k) < self.full_end(k)
        &&& self.content_end(self.count() - 1) == self.source_len()
    }

    /// The index of source bytes `b`: one line per `\n`, plus one; line `k`
    /// after the first starts just past the `k`-th `\n`; each line's content
    /// ends before its `\n` and before a `\r` preceding it, the last line's
    /// at the end of `b`.
    pub open spec fn indexes(&self, b: Seq<u8>) -> bool {
        &&& self.wf()
        &&& self.source_len() == b.len()
        &&& self.count() == count_newlines(b) + 1
        &&& forall|k: int|
            0 < k < self.count() ==> {
                let s = #[trigger] self.start(k);
                &&& 1 <= s <= b.len()
                &&& b[s - 1] == 10u8
                &&& count_newlines(b.take(s)) == k
            }
        &&& forall|k: int|
            0 <= k < self.count() ==> #[trigger] self.content_end(k) == content_end_in(
                b,
                self.start(k),
                self.full_end(k),
                k + 1 == self.count(),
            )
    }

    /// `(l, c)` is the 1-based line and byte column of offset `off`: line `l`
    /// is the last line starting at or before `off`.
    pub open spec fn line_col_of(&self, off: int, l: int, c: int) -> bool {
        &&& 1 <= l <= self.count()
        &&& self.start(l - 1) <= off
        &&& l < self.count() ==> off < self.start(l)
        &&& c == off - self.start(l - 1) + 1
    }

    /// The offset of 1-based `(line, col)`: `line` clamped to the lines,
    /// `col` clamped up to 1, and the result clamped to just past the line's
    /// content.
    pub open spec fn spec_line_col_to_offset(&self, line: int, col: int) -> int {
        let k = (if line < 1 {
            1
        } else if line > self.count() {
            self.count()
        } else {
            line
        }) - 1;
        let want = self.start(k) + if col >= 1 {
            col - 1
        } else {
            0
        };
        if want < self.content_end(k) {
            want
        } else {
            self.content_end(k)
        }
    }

    /// The terminator of line `k` (0-based), by the number of bytes between
    /// its content and its full extent.
    pub open spec fn spec_terminator(&self, k: int) -> Terminator {
        let d = self.full_end(k) - self.content_end(k);
        if d == 0 {
            Terminator::Absent
        } else if d == 1 {
            Terminator::Lf
        } else {
            Terminator::CrLf
        }
    }

    /// Build an index over `source`.
    pub fn new(source: &str) -> (idx: Self)
        requires
            source.spec_bytes().len() < u32::MAX,
        ensures
            idx.indexes(source.spec_bytes()),
    {
        let b = source.as_bytes();
        let ghost bs = b@;
        let mut lines: Vec<Line> = Vec::new();
        let mut start: u32 = 0;
        let mut i: usize = 0;
        while i < b.len()
            invariant
                bs == source.spec_bytes(),
                bs == b@,
                b.len() < u32::MAX,
                0 <= start <= i <= b.len(),
                lines.len() == count_newlines(bs.take(i as int)),
                lines.len() == 0 ==> start == 0,
                lines.len() > 0 ==> 1 <= start && bs[start - 1] == 10u8 && count_newlines(
                    bs.take(start as int),
                ) == lines.len(),
                lines.len() > 0 ==> lines@[0].start == 0,
                forall|k: int|
                    0 < k < lines.len() ==> {
                        let s = (#[trigger] lines@[k]).start as int;
                        &&& 1 <= s <= i
                        &&& bs[s - 1] == 10u8
                        &&& count_newlines(bs.take(s)) == k
                    },
                forall|k: int|
                    0 <= k < lines.len() ==> {
                        let f = if k + 1 < lines.len() {
                            lines@[k + 1].start as int
                        } else {
                            start as int
                        };
                        (#[trigger] lines@[k]).end as int == content_end_in(
                            bs,
                            lines@[k].start as int,
                            f,
                            false,
                        )
                    },
                forall|k: int| 0 <= k < lines.len() ==> (#[trigger] lines@[k]).start <= i,
            decreases b.len() - i,
        {
            proof {
                lemma_count_newlines_step(bs, i as int);
            }
            if b[i] == 10 {
                let mut end: u32 = i as u32;
                // Drop a preceding `\r` from the line content (`\r\n` break).
                if end > start && b[i - 1] == 13 {
                    end = end - 1;
                }
                lines.push(Line { start, end });
                start = (i + 1) as u32;
            }
            i = i + 1;
        }
        assert(bs.take(b.len() as int) =~= bs);
        // The final line runs to the end of the source. Always pushed, so an
        // empty source and a trailing-newline source each expose their last
        // line.
        let ghost before = lines@;
        lines.push(Line { start, end: b.len() as u32 });
        let idx = LineIndex { lines, len: b.len() as u32 };
        proof {
            assert forall|k: int| 0 < k < idx.lines@.len() implies {
                let s = (#[trigger] idx.lines@[k]).start as int;
                &&& 1 <= s <= bs.len()
                &&& bs[s - 1] == 10u8
                &&& count_newlines(bs.take(s)) == k
            } by {
                if k < before.len() {
                    assert(idx.lines@[k] == before[k]);
                }
            }
            assert forall|k: int| 0 <= k < idx.lines@.len() implies (#[trigger] idx.lines@[k]).end as int
                == content_end_in(bs, idx.lines@[k].start as int, idx.full_end(k), k + 1 == idx.lines@.len()) by {
                if k < before.len() {
                    assert(idx.lines@[k] == before[k]);
                    if k + 1 < before.len() {
                        assert(idx.lines@[k + 1] == before[k + 1]);
                    }
                }
            }
            lemma_count_newlines_bound(bs);
            lemma_indexes_wf(idx, bs);
        }
        idx
    }

    /// The number of lines. Always at least 1.
    pub fn line_count(&self) -> (n: usize)
        requires
            self.wf(),
        ensures
            n == self.count(),
            n >= 1,
    {
        self.lines.len()
    }

    /// Map a byte `offset` to a 1-based `(line, column)`. Columns are byte
    /// offsets from the line start. An offset past the end of the source
    /// clamps to the last position; an offset on a terminator byte maps past
    /// the line's content.
    pub fn offset_to_line_col(&self, offset: u32) -> (lc: (u32, u32))
        requires
            self.wf(),
        ensures
            self.line_col_of(
                if offset <= self.source_len() {
                    offset as int
                } else {
                    self.source_len()
                },
                lc.0 as int,
                lc.1 as int,
            ),
    {
        let offset = if offset < self.len {
            offset
        } else {
            self.len
        };
        // The number of lines starting at or before `offset` is its line.
        let mut lo: usize = 0;
        let mut hi: usize = self.lines.len();
        while lo < hi
            invariant
                0 <= lo <= hi <= self.lines.len(),
                forall|k: int| 0 <= k < lo ==> self.start(k) <= offset,
                forall|k: int| hi <= k < self.count() ==> self.start(k) > offset,
            decreases hi - lo,
        {
            let mid = lo + (hi - lo) / 2;
            if self.lines[mid].start <= offset {
                assert forall|k: int| 0 <= k <= mid implies self.start(k) <= offset by {
                    if k < mid {
                        assert(self.start(k) < self.start(mid as int));
                    }
                }
                lo = mid + 1;
            } else {
                assert forall|k: int| mid <= k < self.count() implies self.start(k) > offset by {
                    if k > mid {
                        assert(self.start(mid as int) < self.start(k));
                    }
                }
                hi = mid;
            }
        }
        assert(self.start(0) <= offset);
        let line = if lo < 1 {
            1
        } else {
            lo
        };
        assert(lo >= 1) by {
            if lo == 0 {
                assert(self.start(0) > offset);
            }
        }
        let start = self.lines[line - 1].start;
        assert(start == self.start(line - 1));
        assert(start <= offset);
        (line as u32, offset - start + 1)
    }

    /// Map a 1-based `(line, column)` back to a byte offset. `line` and `col`
    /// are clamped to valid ranges: an overflowing `col` clamps to just past
    /// the line's last content byte and never bleeds into a following line.
    pub fn line_col_to_offset(&self, line: u32, col: u32) -> (off: u32)
        requires
            self.wf(),
        ensures
            off == self.spec_line_col_to_offset(line as int, col as int),
    {
        let l: usize = if line < 1 {
            1
        } else {
            line as usize
        };
        let idx = (if l < self.lines.len() {
            l
        } else {
            self.lines.len()
        }) - 1;
        let ln = self.lines[idx];
        let want = ln.start.saturating_add(col.saturating_sub(1));
        if want < ln.end {
            want
        } else {
            ln.end
        }
    }

    /// The byte range of line `n`'s content (1-based, terminator excluded —
    /// for `\r\n` the `\r` is excluded too), or `None` if `n` is out of
    /// range. These ranges do not tile the source; use
    /// [`Self::line_full_range`] for byte-exact work.
    pub fn line_range(&self, n: u32) -> (r: Option<Range<usize>>)
        requires
            self.wf(),
        ensures
            match r {
                Some(rg) => 1 <= n <= self.count() && rg.start == self.start(n - 1) && rg.end
                    == self.content_end(n - 1),
                None => n < 1 || n > self.count(),
            },
    {
        if n < 1 || n as usize > self.lines.len() {
            return None;
        }
        let line = self.lines[n as usize - 1];
        Some(line.start as usize..line.end as usize)
    }

    /// The byte range of line `n`'s full extent — content and terminator
    /// (1-based), or `None` if `n` is out of range. These ranges tile the
    /// source: contiguous from offset 0 to the end.
    pub fn line_full_range(&self, n: u32) -> (r: Option<Range<usize>>)
        requires
            self.wf(),
        ensures
            match r {
                Some(rg) => 1 <= n <= self.count() && rg.start == self.start(n - 1) && rg.end
                    == self.full_end(n - 1),
                None => n < 1 || n > self.count(),
            },
    {
        if n < 1 || n as usize > self.lines.len() {
            return None;
        }
        let idx = n as usize - 1;
        let start = self.lines[idx].start;
        let end = if idx + 1 < self.lines.len() {
            self.lines[idx + 1].start
        } else {
            self.len
        };
        Some(start as usize..end as usize)
    }

    /// The terminator kind ending line `n` (1-based), or `None` if `n` is out
    /// of range. The final line reports [`Terminator::Absent`] unless the
    /// source ends in a break.
    pub fn line_terminator(&self, n: u32) -> (r: Option<Terminator>)
        requires
            self.wf(),
        ensures
            match r {
                Some(t) => 1 <= n <= self.count() && t == self.spec_terminator(n - 1),
                None => n < 1 || n > self.count(),
            },
    {
        if n < 1 || n as usize > self.lines.len() {
            return None;
        }
        let idx = n as usize - 1;
        let line = self.lines[idx];
        let full_end = if idx + 1 < self.lines.len() {
            self.lines[idx + 1].start
        } else {
            self.len
        };
        let d = full_end - line.end;
        Some(
            if d == 0 {
                Terminator::Absent
            } else if d == 1 {
                Terminator::Lf
            } else {
                Terminator::CrLf
            },
        )
    }
}

/// The facts of `indexes` make a well-formed index.
proof fn lemma_indexes_wf(idx: LineIndex, b: Seq<u8>)
    requires
        idx.lines@.len() == count_newlines(b) + 1,
        count_newlines(b) <= b.len(),
        idx.len == b.len(),
        b.len() < u32::MAX,
        idx.lines@[0].start == 0,
        forall|k: int|
            0 < k < idx.lines@.len() ==> {
                let s = (#[trigger] idx.lines@[k]).start as int;
                &&& 1 <= s <= b.len()
                &&& b[s - 1] == 10u8
                &&& count_newlines(b.take(s)) == k
            },
        forall|k: int|
            0 <= k < idx.lines@.len() ==> (#[trigger] idx.lines@[k]).end as int == content_end_in(
                b,
                idx.lines@[k].start as int,
                idx.full_end(k),
                k + 1 == idx.lines@.len(),
            ),
    ensures
        idx.indexes(b),
{
    let n = idx.count();
    assert forall|i: int, j: int| 0 <= i < j < n implies idx.start(i) < idx.start(j) by {
        assert(idx.lines@[j].start >= 1);
        if i > 0 && idx.start(i) >= idx.start(j) {
            lemma_count_newlines_mono(b, idx.start(j), idx.start(i));
            assert(idx.lines@[i].start >= 1);
        }
    }
    assert forall|k: int| 0 <= k < n implies {
        &&& idx.start(k) <= #[trigger] idx.content_end(k) <= idx.full_end(k)
        &&& idx.full_end(k) <= idx.source_len()
        &&& idx.full_end(k) - idx.content_end(k) <= 2
    } by {
        assert(idx.lines@[k].end as int == content_end_in(b, idx.start(k), idx.full_end(k), k + 1 == n));
        if k + 1 < n {
            assert(idx.lines@[k + 1].start >= 1);
            assert(idx.start(k) < idx.start(k + 1));
        }
        if k > 0 {
            assert(idx.lines@[k].start >= 1);
        }
    }
    assert forall|k: int| 0 <= k < n - 1 implies #[trigger] idx.content_end(k) < idx.full_end(k) by {
        assert(idx.lines@[k].end as int == content_end_in(b, idx.start(k), idx.full_end(k), false));
    }
    assert(idx.lines@[n - 1].end as int == content_end_in(b, idx.start(n - 1), idx.full_end(n - 1), true));
}

/// The full line ranges tile the source: the first starts at 0, each ends
/// where the next starts, and the last ends at the end of the source.
pub proof fn lemma_full_ranges_tile(idx: LineIndex)
    requires
        idx.wf(),
    ensures
        idx.start(0) == 0,
        forall|k: int| 0 <= k < idx.count() - 1 ==> #[trigger] idx.full_end(k) == idx.start(k + 1),
        idx.full_end(idx.count() - 1) == idx.source_len(),
{
}

/// A position names one offset only: an offset has exactly one
/// (line, column).
pub proof fn lemma_line_col_unique(idx: LineIndex, off: int, l1: int, c1: int, l2: int, c2: int)
    requires
        idx.wf(),
        idx.line_col_of(off, l1, c1),
        idx.line_col_of(off, l2, c2),
    ensures
        l1 == l2,
        c1 == c2,
{
    if l1 < l2 {
        assert(idx.start(l1) <= idx.start(l2 - 1));
    }
    if l2 < l1 {
        assert(idx.start(l2) <= idx.start(l1 - 1));
    }
}

/// Within a line's content, mapping an offset to its (line, column) and
/// back gives the offset again.
pub proof fn lemma_line_col_round_trip(idx: LineIndex, off: int, l: int, c: int)
    requires
        idx.wf(),
        0 <= off <= idx.source_len(),
        idx.line_col_of(off, l, c),
        off <= idx.content_end(l - 1),
    ensures
        idx.spec_line_col_to_offset(l, c) == off,
{
}

/// A column past the end of a line clamps within that line: the offset it
/// maps to lies on the same line.
pub proof fn lemma_col_stays_on_line(idx: LineIndex, line: int, col: int, l2: int, c2: int)
    requires
        idx.wf(),
        1 <= line <= idx.count(),
        idx.line_col_of(idx.spec_line_col_to_offset(line, col), l2, c2),
    ensures
        l2 == line,
{
    let off = idx.spec_line_col_to_offset(line, col);
    assert(idx.start(line - 1) <= off <= idx.content_end(line - 1));
    if line < idx.count() {
        assert(idx.content_end(line - 1) < idx.full_end(line - 1));
    }
    if l2 < line {
        assert(idx.start(l2) <= idx.start(line - 1));
    }
    if l2 > line {
        assert(idx.start(line) <= idx.start(l2 - 1));
    }
}


/// The shape of a well-formed index: at least one line, the first at offset
/// 0, starts strictly increasing, each line's content within its full
/// extent (which lies in the source) and followed by a terminator of at
/// most two bytes, which only the last line may lack.
pub proof fn lemma_index_shape(idx: LineIndex)
    requires
        idx.wf(),
    ensures
        1 <= idx.count() <= idx.source_len() + 1,
        idx.start(0) == 0,
        forall|i: int, j: int| 0 <= i < j < idx.count() ==> idx.start(i) < idx.start(j),
        forall|k: int|
            0 <= k < idx.count() ==> {
                &&& idx.start(k) <= #[trigger] idx.content_end(k) <= idx.full_end(k)
                &&& idx.full_end(k) <= idx.source_len()
                &&& idx.full_end(k) - idx.content_end(k) <= 2
            },
        forall|k: int| 0 <= k < idx.count() - 1 ==> #[trigger] idx.content_end(k) < idx.full_end(k),
        idx.content_end(idx.count() - 1) == idx.source_len(),
{
}

/// The line an index gives an offset is the offset's line in the source
/// ([`line_of`]: one more than the number of `\n` before it), the line the reader
/// records for a datum starting there.
pub proof fn lemma_line_is_line_of(idx: LineIndex, b: Seq<u8>, off: int, l: int, c: int)
    requires
        idx.indexes(b),
        0 <= off <= b.len(),
        idx.line_col_of(off, l, c),
    ensures
        l == line_of(b, off),
{
    let k = l - 1;
    if k > 0 {
        assert(count_newlines(b.take(idx.start(k))) == k);
        lemma_count_newlines_mono(b, idx.start(k), off);
    } else {
        assert(b.take(0) =~= Seq::<u8>::empty());
        lemma_count_newlines_mono(b, 0, off);
    }
    if l < idx.count() {
        let s = idx.start(l);
        assert(count_newlines(b.take(s)) == l);
        assert(b[s - 1] == 10u8);
        lemma_count_newlines_step(b, s - 1);
        lemma_count_newlines_mono(b, off, s - 1);
    } else {
        assert(b.take(b.len() as int) =~= b);
        lemma_count_newlines_mono(b, off, b.len() as int);
    }
}

} // verus!
