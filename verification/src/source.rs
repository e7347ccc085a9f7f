//! Byte-level views of UTF-8 source text: character boundaries and zero-copy
//! slicing by byte offsets.

use vstd::prelude::*;
use vstd::string::*;
use vstd::utf8::*;

verus! {

broadcast use vstd::utf8::encode_utf8_valid_utf8;

/// Whether byte offset `i` of `b` starts a character (or is the end of `b`).
pub open spec fn at_boundary(b: Seq<u8>, i: int) -> bool {
    &&& 0 <= i <= b.len()
    &&& (i == b.len() || !is_continuation_byte(b[i]))
}

/// Every source string is well-formed UTF-8.
pub proof fn lemma_str_valid(s: &str)
    ensures
        valid_utf8(s.spec_bytes()),
{
}

/// In well-formed UTF-8, a non-continuation byte offset is a character boundary.
pub proof fn lemma_boundary(b: Seq<u8>, i: int)
    requires
        valid_utf8(b),
        at_boundary(b, i),
    ensures
        is_char_boundary(b, i),
{
    if i == b.len() {
        is_char_boundary_start_end_of_seq(b);
    } else {
        is_char_boundary_iff_not_is_continuation_byte(b, i);
    }
}

proof fn lemma_char_boundary_after_ascii(b: Seq<u8>, i: int)
    requires
        valid_utf8(b),
        0 <= i < b.len(),
        is_char_boundary(b, i),
        b[i] < 0x80,
    ensures
        is_char_boundary(b, i + 1),
    decreases b.len(),
{
    let l = length_of_first_scalar(b);
    let t = pop_first_scalar(b);
    assert(valid_first_scalar(b) && valid_utf8(t));
    assert(1 <= l <= 4);
    assert(t.len() == b.len() - l);
    if i == 0 {
        assert(l == 1);
        assert(is_char_boundary(b, 1) == is_char_boundary(t, 0));
    } else {
        assert(is_char_boundary(b, i) == is_char_boundary(t, i - l));
        assert(0 <= i - l);
        assert(t[i - l] == b[i]);
        lemma_char_boundary_after_ascii(t, i - l);
        assert(is_char_boundary(b, i + 1) == is_char_boundary(t, i + 1 - l));
    }
}

/// In well-formed UTF-8, the offset just past an ASCII character is a boundary.
pub proof fn lemma_ascii_next(b: Seq<u8>, i: int)
    requires
        valid_utf8(b),
        at_boundary(b, i),
        i < b.len(),
        b[i] < 0x80,
    ensures
        at_boundary(b, i + 1),
{
    lemma_boundary(b, i);
    lemma_char_boundary_after_ascii(b, i);
    if i + 1 < b.len() {
        is_char_boundary_iff_not_is_continuation_byte(b, i + 1);
    }
}

proof fn lemma_char_boundary_after_lead(b: Seq<u8>, i: int, w: int)
    requires
        valid_utf8(b),
        0 <= i < b.len(),
        is_char_boundary(b, i),
        (w == 2 && is_leading_byte_width_2(b[i])) || (w == 3 && is_leading_byte_width_3(b[i])),
    ensures
        i + w <= b.len(),
        is_char_boundary(b, i + w),
    decreases b.len(),
{
    let l = length_of_first_scalar(b);
    let t = pop_first_scalar(b);
    assert(valid_first_scalar(b) && valid_utf8(t));
    assert(1 <= l <= 4);
    assert(t.len() == b.len() - l);
    if i == 0 {
        assert(l == w);
        assert(is_char_boundary(b, w) == is_char_boundary(t, 0));
    } else {
        assert(is_char_boundary(b, i) == is_char_boundary(t, i - l));
        assert(0 <= i - l);
        assert(t[i - l] == b[i]);
        lemma_char_boundary_after_lead(t, i - l, w);
        assert(is_char_boundary(b, i + w) == is_char_boundary(t, i + w - l));
    }
}

/// In well-formed UTF-8, the offset just past a two- or three-byte
/// character is a boundary.
pub proof fn lemma_wide_next(b: Seq<u8>, i: int, w: int)
    requires
        valid_utf8(b),
        at_boundary(b, i),
        i < b.len(),
        (w == 2 && is_leading_byte_width_2(b[i])) || (w == 3 && is_leading_byte_width_3(b[i])),
    ensures
        i + w <= b.len(),
        at_boundary(b, i + w),
{
    lemma_boundary(b, i);
    lemma_char_boundary_after_lead(b, i, w);
    if i + w < b.len() {
        is_char_boundary_iff_not_is_continuation_byte(b, i + w);
    }
}

/// The bytes `[start, end)` of `s`, as a string slice borrowing `s`.
pub fn slice<'a>(s: &'a str, start: usize, end: usize) -> (r: &'a str)
    requires
        start <= end <= s.spec_bytes().len(),
        at_boundary(s.spec_bytes(), start as int),
        at_boundary(s.spec_bytes(), end as int),
    ensures
        r.spec_bytes() == s.spec_bytes().subrange(start as int, end as int),
{
    let ghost b = s.spec_bytes();
    proof {
        lemma_boundary(b, end as int);
    }
    let (left, _right) = s.split_at(end);
    let ghost lb = left.spec_bytes();
    assert(lb =~= b.subrange(0, end as int));
    proof {
        valid_utf8_split(b, end as int);
        assert(at_boundary(lb, start as int));
        lemma_boundary(lb, start as int);
    }
    let (_l2, r) = left.split_at(start);
    assert(r.spec_bytes() =~= b.subrange(start as int, end as int));
    r
}

/// The number of `\n` bytes in `s`.
pub open spec fn count_newlines(s: Seq<u8>) -> nat
    decreases s.len(),
{
    if s.len() == 0 {
        0
    } else {
        count_newlines(s.drop_last()) + if s.last() == 10u8 {
            1nat
        } else {
            0nat
        }
    }
}

/// The 1-based line on which byte offset `off` of `b` sits: one more than the
/// number of `\n` bytes before it.
pub open spec fn line_of(b: Seq<u8>, off: int) -> int {
    count_newlines(b.take(off)) + 1int
}

/// Counting newlines is monotone in the prefix length.
pub proof fn lemma_count_newlines_mono(b: Seq<u8>, i: int, j: int)
    requires
        0 <= i <= j <= b.len(),
    ensures
        count_newlines(b.take(i)) <= count_newlines(b.take(j)),
    decreases j - i,
{
    if i < j {
        lemma_count_newlines_mono(b, i, j - 1);
        assert(b.take(j).drop_last() =~= b.take(j - 1));
    }
}

/// There are no more newlines than bytes.
pub proof fn lemma_count_newlines_bound(s: Seq<u8>)
    ensures
        count_newlines(s) <= s.len(),
    decreases s.len(),
{
    if s.len() > 0 {
        lemma_count_newlines_bound(s.drop_last());
    }
}

/// Extending a prefix by one byte adds one newline exactly when that byte is `\n`.
pub proof fn lemma_count_newlines_step(b: Seq<u8>, i: int)
    requires
        0 <= i < b.len(),
    ensures
        count_newlines(b.take(i + 1)) == count_newlines(b.take(i)) + if b[i] == 10u8 {
            1int
        } else {
            0int
        },
{
    assert(b.take(i + 1).drop_last() =~= b.take(i));
}

/// Whether `b[at..]` starts with `pat`.
pub open spec fn starts_with_at(b: Seq<u8>, at: int, pat: Seq<u8>) -> bool {
    &&& 0 <= at
    &&& at + pat.len() <= b.len()
    &&& b.subrange(at, at + pat.len()) == pat
}

/// Exec check of [`starts_with_at`].
pub fn bytes_start_with(b: &[u8], at: usize, pat: &[u8]) -> (r: bool)
    ensures
        r == starts_with_at(b@, at as int, pat@),
{
    if at > b.len() || pat.len() > b.len() - at {
        return false;
    }
    let mut i: usize = 0;
    while i < pat.len()
        invariant
            at + pat.len() <= b.len(),
            0 <= i <= pat.len(),
            forall|k: int| 0 <= k < i ==> b@[at + k] == pat@[k],
        decreases pat.len() - i,
    {
        if b[at + i] != pat[i] {
            assert(b@.subrange(at as int, at + pat.len())[i as int] != pat@[i as int]);
            return false;
        }
        i = i + 1;
    }
    assert(b@.subrange(at as int, at + pat.len()) =~= pat@);
    true
}

/// Whether `pat` occurs anywhere in `b`.
pub open spec fn contains_bytes(b: Seq<u8>, pat: Seq<u8>) -> bool {
    exists|i: int| 0 <= i <= b.len() - pat.len() && #[trigger] starts_with_at(b, i, pat)
}

/// Exec check of [`contains_bytes`].
pub fn bytes_contain(b: &[u8], pat: &[u8]) -> (r: bool)
    ensures
        r == contains_bytes(b@, pat@),
{
    if pat.len() > b.len() {
        assert(!contains_bytes(b@, pat@));
        return false;
    }
    let last = b.len() - pat.len();
    let mut i: usize = 0;
    loop
        invariant
            pat.len() <= b.len(),
            last == b.len() - pat.len(),
            0 <= i <= last,
            forall|k: int| 0 <= k < i ==> !starts_with_at(b@, k, pat@),
        ensures
            forall|k: int| 0 <= k <= last ==> !starts_with_at(b@, k, pat@),
        decreases last - i,
    {
        if bytes_start_with(b, i, pat) {
            return true;
        }
        if i == last {
            break;
        }
        i = i + 1;
    }
    false
}

/// The decimal digit character for `d < 10`.
pub open spec fn digit_char(d: nat) -> char {
    if d == 0 { '0' } else if d == 1 { '1' } else if d == 2 { '2' } else if d == 3 { '3' }
    else if d == 4 { '4' } else if d == 5 { '5' } else if d == 6 { '6' } else if d == 7 { '7' }
    else if d == 8 { '8' } else { '9' }
}

/// The decimal rendering of `n`, without leading zeros.
pub open spec fn spec_decimal(n: nat) -> Seq<char>
    decreases n,
{
    if n < 10 {
        seq![digit_char(n)]
    } else {
        spec_decimal(n / 10).push(digit_char(n % 10))
    }
}

fn digit(d: u32) -> (c: &'static str)
    requires
        d < 10,
    ensures
        c@ == seq![digit_char(d as nat)],
{
    proof {
        reveal_strlit("0"); reveal_strlit("1"); reveal_strlit("2"); reveal_strlit("3");
        reveal_strlit("4"); reveal_strlit("5"); reveal_strlit("6"); reveal_strlit("7");
        reveal_strlit("8"); reveal_strlit("9");
    }
    if d == 0 { "0" } else if d == 1 { "1" } else if d == 2 { "2" } else if d == 3 { "3" }
    else if d == 4 { "4" } else if d == 5 { "5" } else if d == 6 { "6" } else if d == 7 { "7" }
    else if d == 8 { "8" } else { "9" }
}

/// The decimal rendering of `n`.
pub fn decimal(n: u32) -> (s: String)
    ensures
        s@ == spec_decimal(n as nat),
    decreases n,
{
    if n < 10 {
        String::from_str(digit(n))
    } else {
        let mut s = decimal(n / 10);
        s.append(digit(n % 10));
        s
    }
}

} // verus!
