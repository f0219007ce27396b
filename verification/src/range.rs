//! Inclusive ranges of child indexes.

use vstd::prelude::*;
use vstd::set_lib::{lemma_int_range, set_int_range};

use crate::text::{chars_to_string, decimal, push_decimal, push_str};
use std::cmp::Ordering;
use vstd::std_specs::cmp::PartialOrdSpecImpl;

verus! {

/// An inclusive range `start..=end` of child indexes; `start` may exceed
/// `end`. Ranges are ordered by their start, then by their end.
#[derive(Clone, Copy, PartialEq, Eq, Structural, Hash, Debug, Ord)]
pub struct DerivationRange {
    start: u32,
    end: u32,
}

/// The text form of a range: `start` alone when both bounds agree, else
/// `start-end`.
pub open spec fn range_text(start: u32, end: u32) -> Seq<char> {
    if start == end {
        decimal(start as nat)
    } else {
        decimal(start as nat) + "-"@ + decimal(end as nat)
    }
}

/// The number of indexes from `start` to `end`, both included.
pub open spec fn range_len(start: u32, end: u32) -> int {
    end - start + 1
}

/// The four bytes of `v`, least significant first.
pub open spec fn le_bytes(v: u32) -> Seq<u8> {
    seq![
        (v % 256) as u8,
        ((v / 256) % 256) as u8,
        ((v / 65536) % 256) as u8,
        (v / 16777216) as u8
    ]
}

/// The `u32` whose least significant byte comes first in `b`.
pub open spec fn le_value(b: Seq<u8>) -> u32 {
    (b[0] + 256 * b[1] + 65536 * b[2] + 16777216 * b[3]) as u32
}

/// The order of two ranges: by their start, then by their end.
pub open spec fn range_order(a: DerivationRange, b: DerivationRange) -> Ordering {
    if a.start_spec() < b.start_spec() {
        Ordering::Less
    } else if a.start_spec() > b.start_spec() {
        Ordering::Greater
    } else if a.end_spec() < b.end_spec() {
        Ordering::Less
    } else if a.end_spec() > b.end_spec() {
        Ordering::Greater
    } else {
        Ordering::Equal
    }
}

impl PartialOrd for DerivationRange {
    fn partial_cmp(&self, other: &Self) -> (r: Option<Ordering>) {
        if self.start < other.start {
            Some(Ordering::Less)
        } else if self.start > other.start {
            Some(Ordering::Greater)
        } else if self.end < other.end {
            Some(Ordering::Less)
        } else if self.end > other.end {
            Some(Ordering::Greater)
        } else {
            Some(Ordering::Equal)
        }
    }
}

impl PartialOrdSpecImpl for DerivationRange {
    open spec fn obeys_partial_cmp_spec() -> bool {
        true
    }

    open spec fn partial_cmp_spec(&self, other: &Self) -> Option<Ordering> {
        Some(range_order(*self, *other))
    }
}

impl DerivationRange {
    /// The lower bound.
    pub closed spec fn start_spec(&self) -> u32 {
        self.start
    }

    /// The upper bound.
    pub closed spec fn end_spec(&self) -> u32 {
        self.end
    }

    /// The range `start..=end`.
    pub fn new(start: u32, end: u32) -> (r: Self)
        ensures
            r.start_spec() == start,
            r.end_spec() == end,
    {
        DerivationRange { start, end }
    }

    /// Two ranges with the same bounds are the same range.
    pub broadcast proof fn lemma_bounds_determine(a: Self, b: Self)
        requires
            #[trigger] a.start_spec() == #[trigger] b.start_spec(),
            a.end_spec() == b.end_spec(),
        ensures
            a == b,
    {
    }

    /// The number of indexes in the range, `end - start + 1`; the range
    /// must not be reversed nor cover all `u32` values (the subtraction and
    /// the addition would overflow).
    pub fn count(&self) -> (r: u32)
        requires
            self.start_spec() <= self.end_spec(),
            self.end_spec() - self.start_spec() < u32::MAX,
        ensures
            r == range_len(self.start_spec(), self.end_spec()),
    {
        self.end - self.start + 1
    }

    /// The lower bound.
    pub fn start(&self) -> (r: u32)
        ensures
            r == self.start_spec(),
    {
        self.start
    }

    /// The upper bound.
    pub fn end(&self) -> (r: u32)
        ensures
            r == self.end_spec(),
    {
        self.end
    }

    /// The text form: `start` when both bounds agree, else `start-end`.
    pub fn to_string(&self) -> (r: String)
        ensures
            r@ == range_text(self.start_spec(), self.end_spec()),
    {
        let mut v: Vec<char> = Vec::new();
        self.push_text(&mut v);
        assert(v@ =~= range_text(self.start_spec(), self.end_spec()));
        chars_to_string(v.as_slice())
    }

    /// Appends the text form.
    pub fn push_text(&self, out: &mut Vec<char>)
        ensures
            final(out)@ == old(out)@ + range_text(self.start_spec(), self.end_spec()),
    {
        push_decimal(out, self.start as u64);
        if self.start != self.end {
            push_str(out, "-");
            push_decimal(out, self.end as u64);
        }
        assert(final(out)@ =~= old(out)@ + range_text(self.start_spec(), self.end_spec()));
    }

    /// The strict encoding: the lower then the upper bound, four bytes each,
    /// least significant byte first.
    pub fn to_strict_bytes(&self) -> (r: Vec<u8>)
        ensures
            r@ == le_bytes(self.start_spec()) + le_bytes(self.end_spec()),
    {
        let mut v: Vec<u8> = Vec::new();
        push_le(&mut v, self.start);
        push_le(&mut v, self.end);
        v
    }

    /// Reads a range from its strict encoding at the start of `bytes`; `None`
    /// where fewer than eight bytes are given.
    pub fn from_strict_bytes(bytes: &[u8]) -> (r: Option<Self>)
        ensures
            bytes@.len() < 8 ==> r is None,
            bytes@.len() >= 8 ==> (r matches Some(range) && range.start_spec() == le_value(
                bytes@.subrange(0, 4),
            ) && range.end_spec() == le_value(bytes@.subrange(4, 8))),
    {
        if bytes.len() < 8 {
            return None;
        }
        let start = read_le(bytes, 0);
        let end = read_le(bytes, 4);
        Some(DerivationRange { start, end })
    }
}

fn push_le(out: &mut Vec<u8>, v: u32)
    ensures
        final(out)@ == old(out)@ + le_bytes(v),
{
    out.push((v % 256) as u8);
    out.push(((v / 256) % 256) as u8);
    out.push(((v / 65536) % 256) as u8);
    out.push((v / 16777216) as u8);
    assert(final(out)@ =~= old(out)@ + le_bytes(v));
}

fn read_le(bytes: &[u8], at: usize) -> (r: u32)
    requires
        at + 4 <= bytes@.len(),
    ensures
        r == le_value(bytes@.subrange(at as int, at + 4)),
{
    let b0 = bytes[at] as u32;
    let b1 = bytes[at + 1] as u32;
    let b2 = bytes[at + 2] as u32;
    let b3 = bytes[at + 3] as u32;
    let r = b0 + 256 * b1 + 65536 * b2 + 16777216 * b3;
    let ghost s = bytes@.subrange(at as int, at + 4);
    assert(s[0] == b0 && s[1] == b1 && s[2] == b2 && s[3] == b3);
    r
}

/// Law: the strict encoding of a range reads back as the range.
pub proof fn law_strict_encoding_roundtrip(range: DerivationRange)
    ensures
        ({
            let b = le_bytes(range.start_spec()) + le_bytes(range.end_spec());
            &&& b.len() == 8
            &&& le_value(b.subrange(0, 4)) == range.start_spec()
            &&& le_value(b.subrange(4, 8)) == range.end_spec()
        }),
{
    let b = le_bytes(range.start_spec()) + le_bytes(range.end_spec());
    assert(b.subrange(0, 4) =~= le_bytes(range.start_spec()));
    assert(b.subrange(4, 8) =~= le_bytes(range.end_spec()));
    lemma_le_roundtrip(range.start_spec());
    lemma_le_roundtrip(range.end_spec());
}

proof fn lemma_le_roundtrip(v: u32)
    ensures
        le_value(le_bytes(v)) == v,
{
    let b = le_bytes(v);
    assert(b[0] + 256 * b[1] + 65536 * b[2] + 16777216 * b[3] == v);
}

/// Law: ranges are ordered lexicographically by start, then end: two ranges
/// compare equal exactly when they are the same range, and swapping them
/// swaps `Less` and `Greater`.
pub proof fn law_range_order(a: DerivationRange, b: DerivationRange)
    ensures
        (range_order(a, b) == Ordering::Equal) == (a == b),
        (range_order(a, b) == Ordering::Less) == (range_order(b, a) == Ordering::Greater),
        (range_order(a, b) == Ordering::Less) == (a.start_spec() < b.start_spec() || (a.start_spec()
            == b.start_spec() && a.end_spec() < b.end_spec())),
{
    if a.start_spec() == b.start_spec() && a.end_spec() == b.end_spec() {
        DerivationRange::lemma_bounds_determine(a, b);
    }
}

/// Law: the count of a range that is not reversed is the number of
/// integers it covers.
pub proof fn law_range_len_counts_indexes(start: u32, end: u32)
    requires
        start <= end,
    ensures
        range_len(start, end) == set_int_range(start as int, end + 1).len(),
        forall|i: int| #[trigger] set_int_range(start as int, end + 1).contains(i) <==> start <= i <= end,
{
    lemma_int_range(start as int, end + 1);
}

/// Law: the strict encoding of a number puts its least significant byte
/// first: the bytes, weighted by 1, 2^8, 2^16 and 2^24, add up to it.
pub proof fn law_le_bytes_weights(v: u32)
    ensures
        le_bytes(v).len() == 4,
        le_bytes(v)[0] + 256 * le_bytes(v)[1] + 65536 * le_bytes(v)[2] + 16777216 * le_bytes(v)[3] == v,
{
}

} // verus!
