//! The byte-class node payload and inclusive byte ranges.

use vstd::prelude::*;
use vstd::slice::slice_to_vec;

use crate::ast::norm::lemma_insert_by_start_at;
use crate::ast::norm::normalize_view;
use crate::ast::norm::sort_by_start;
use crate::ast::Ast;
use crate::util::slice::NonEmpty;

verus! {

/// A non-empty set of inclusive byte ranges; the node matches any single
/// byte contained in any range.
#[derive(Debug, PartialEq, Eq, Hash)]
pub struct Class {
    /// The ranges; at least one on a well-formed node.
    pub ranges: NonEmpty<ByteRange>,
}

impl Class {
    /// Deep-copy this payload: the copy holds the same ranges in the same
    /// order and shares no storage with the source.
    pub fn clone_into(&self) -> (r: Class)
        ensures
            r.ranges@ == self.ranges@,
    {
        let ranges = slice_to_vec(self.ranges.as_slice());
        Class { ranges: NonEmpty { inner: ranges } }
    }

    /// Canonicalize `this` when it is a byte class — sort its ranges
    /// ascending by `start` — and leave any other node unchanged.
    pub fn normalize(this: &mut Ast)
        ensures
            *old(this) is Class ==> final(this)@ == normalize_view(old(this)@),
            !(*old(this) is Class) ==> *final(this) == *old(this),
    {
        if this.is_class() {
            this.normalize();
        }
    }
}

/// Sort ranges ascending by `start` with a stable insertion sort, matching
/// [`sort_by_start`] exactly.
pub(crate) fn sort_ranges_vec(ranges: Vec<ByteRange>) -> (r: Vec<ByteRange>)
    ensures
        r@ == sort_by_start(ranges@),
{
    let ghost orig = ranges@;
    let n = ranges.len();
    let mut out: Vec<ByteRange> = Vec::new();
    let mut i: usize = 0;
    while i < n
        invariant
            n == orig.len(),
            ranges@ == orig,
            i <= n,
            out@ == sort_by_start(orig.subrange(0, i as int)),
        decreases n - i,
    {
        let next = ranges[i];
        let mut k = out.len();
        while k > 0 && out[k - 1].start > next.start
            invariant
                k <= out@.len(),
                forall|j: int| k <= j < out@.len() ==> out@[j].start > next.start,
            decreases k,
        {
            k = k - 1;
        }
        proof {
            lemma_insert_by_start_at(out@, next, k as int);
        }
        out.insert(k, next);
        proof {
            assert(orig.subrange(0, i + 1).drop_last() =~= orig.subrange(0, i as int));
            assert(orig.subrange(0, i + 1).last() == next);
        }
        i = i + 1;
    }
    proof {
        assert(orig.subrange(0, n as int) =~= orig);
    }
    out
}

/// An inclusive range of bytes, `start..=end`.
///
/// Well-formedness (`start <= end`) is not enforced at construction; an
/// inverted range simply matches no byte.
#[derive(Debug, Clone, Copy, PartialEq, Eq, Structural, Hash)]
pub struct ByteRange {
    /// The first byte of the range.
    pub start: u8,
    /// The last byte of the range, inclusive.
    pub end: u8,
}

impl Default for ByteRange {
    /// The all-zero range.
    fn default() -> (r: Self)
        ensures
            r == (ByteRange { start: 0, end: 0 }),
    {
        ByteRange { start: 0, end: 0 }
    }
}

/// The decimal digit below ten, as a character.
pub open spec fn digit_char(n: u8) -> char
    recommends
        n < 10,
{
    (n + 0x30) as char
}

/// The decimal digits of a byte value, most significant first, without
/// leading zeroes.
pub open spec fn dec_chars(n: u8) -> Seq<char> {
    if n < 10 {
        seq![digit_char(n)]
    } else if n < 100 {
        seq![digit_char(n / 10), digit_char(n % 10)]
    } else {
        seq![digit_char(n / 100), digit_char((n / 10) % 10), digit_char(n % 10)]
    }
}

/// The debug text of a range: the literal `{start}..={end}` with decimal
/// byte values.
pub open spec fn range_debug(r: ByteRange) -> Seq<char> {
    dec_chars(r.start) + seq!['.', '.', '='] + dec_chars(r.end)
}

/// Push the decimal digits of `n`, most significant first.
fn push_dec(out: &mut Vec<char>, n: u8)
    ensures
        final(out)@ == old(out)@ + dec_chars(n),
{
    if n >= 100 {
        out.push((n / 100 + 0x30) as char);
    }
    if n >= 10 {
        out.push((n / 10 % 10 + 0x30) as char);
    }
    out.push((n % 10 + 0x30) as char);
    proof {
        assert(final(out)@ =~= old(out)@ + dec_chars(n));
    }
}

impl ByteRange {
    /// The debug text of this range, `{start}..={end}` in decimal.
    pub fn to_debug_chars(&self) -> (r: Vec<char>)
        ensures
            r@ == range_debug(*self),
    {
        let mut out: Vec<char> = Vec::new();
        push_dec(&mut out, self.start);
        out.push('.');
        out.push('.');
        out.push('=');
        push_dec(&mut out, self.end);
        proof {
            assert(out@ =~= range_debug(*self));
        }
        out
    }

    /// Every byte the range contains, in ascending order; empty when the
    /// range is inverted.
    pub fn iter(self) -> (r: Vec<u8>)
        ensures
            self.start <= self.end ==> r@.len() == self.end - self.start + 1,
            self.start > self.end ==> r@.len() == 0,
            forall|i: int| 0 <= i < r@.len() ==> r@[i] == self.start + i,
    {
        let mut out: Vec<u8> = Vec::new();
        if self.start > self.end {
            return out;
        }
        let mut b: u16 = self.start as u16;
        let last: u16 = self.end as u16;
        while b <= last
            invariant
                self.start <= self.end,
                last == self.end,
                self.start <= b <= last + 1,
                out@.len() == b - self.start,
                forall|i: int| 0 <= i < out@.len() ==> out@[i] == self.start + i,
            decreases last + 1 - b,
        {
            out.push(b as u8);
            b = b + 1;
        }
        out
    }
}

} // verus!
