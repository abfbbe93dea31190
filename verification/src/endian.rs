//! The value of a run of bytes read as one unsigned integer, in either byte
//! order, and the functions that compute it.

use vstd::prelude::*;

verus! {

/// The number that `bytes` spell with the most significant byte first.
pub open spec fn be_value(bytes: Seq<u8>) -> nat
    decreases bytes.len(),
{
    if bytes.len() == 0 {
        0
    } else {
        be_value(bytes.drop_last()) * 256 + bytes.last() as nat
    }
}

/// The number that `bytes` spell with the least significant byte first.
pub open spec fn le_value(bytes: Seq<u8>) -> nat
    decreases bytes.len(),
{
    if bytes.len() == 0 {
        0
    } else {
        bytes.first() as nat + 256 * le_value(bytes.drop_first())
    }
}

/// The number of values that `width` bytes can spell: 256 to the power `width`.
pub open spec fn span(width: nat) -> nat
    decreases width,
{
    if width == 0 {
        1
    } else {
        256 * span((width - 1) as nat)
    }
}

/// The spans of the widths up to eight bytes, of which the last is one more
/// than `u64::MAX`.
pub proof fn lemma_span_values()
    ensures
        span(0) == 1,
        span(1) == 0x100,
        span(2) == 0x1_0000,
        span(3) == 0x100_0000,
        span(4) == 0x1_0000_0000,
        span(5) == 0x100_0000_0000,
        span(6) == 0x1_0000_0000_0000,
        span(7) == 0x100_0000_0000_0000,
        span(8) == 0x1_0000_0000_0000_0000,
{
    reveal_with_fuel(span, 9);
}

/// A span grows with the width.
pub proof fn lemma_span_monotonic(a: nat, b: nat)
    requires
        a <= b,
    ensures
        span(a) <= span(b),
    decreases b,
{
    if a < b {
        lemma_span_monotonic(a, (b - 1) as nat);
    }
}

/// A big-endian value is below the span of its width.
pub proof fn lemma_be_value_bound(bytes: Seq<u8>)
    ensures
        be_value(bytes) < span(bytes.len()),
    decreases bytes.len(),
{
    if bytes.len() > 0 {
        lemma_be_value_bound(bytes.drop_last());
    }
}

/// A little-endian value is below the span of its width.
pub proof fn lemma_le_value_bound(bytes: Seq<u8>)
    ensures
        le_value(bytes) < span(bytes.len()),
    decreases bytes.len(),
{
    if bytes.len() > 0 {
        lemma_le_value_bound(bytes.drop_first());
    }
}

/// The two byte orders mirror each other: bytes read least significant first
/// spell what the same bytes in reverse spell most significant first.
pub proof fn lemma_orders_mirror(bytes: Seq<u8>)
    ensures
        le_value(bytes) == be_value(bytes.reverse()),
    decreases bytes.len(),
{
    if bytes.len() > 0 {
        lemma_orders_mirror(bytes.drop_first());
        assert(bytes.reverse().drop_last() =~= bytes.drop_first().reverse());
    }
}

/// Reads `width` bytes of `bytes`, from `start` on, most significant first.
pub fn be_word(bytes: &[u8], start: usize, width: usize) -> (value: u64)
    requires
        width <= 8,
        start + width <= bytes@.len(),
    ensures
        value == be_value(bytes@.subrange(start as int, start + width)),
{
    let mut value: u64 = 0;
    let mut taken: usize = 0;
    assert(bytes@.len() == bytes.len());
    while taken < width
        invariant
            taken <= width <= 8,
            start + width <= bytes@.len() <= usize::MAX,
            value == be_value(bytes@.subrange(start as int, start + taken)),
        decreases width - taken,
    {
        let ghost seen = bytes@.subrange(start as int, start + taken);
        let ghost next = bytes@.subrange(start as int, start + taken + 1);
        proof {
            assert(next.drop_last() =~= seen);
            lemma_be_value_bound(next);
            lemma_span_monotonic(next.len(), 8);
            lemma_span_values();
        }
        value = value * 256 + bytes[start + taken] as u64;
        taken = taken + 1;
    }
    value
}

/// Reads `width` bytes of `bytes`, from `start` on, least significant first.
pub fn le_word(bytes: &[u8], start: usize, width: usize) -> (value: u64)
    requires
        width <= 8,
        start + width <= bytes@.len(),
    ensures
        value == le_value(bytes@.subrange(start as int, start + width)),
{
    let mut value: u64 = 0;
    let mut left: usize = width;
    assert(bytes@.len() == bytes.len());
    assert(bytes@.subrange(start + width, start + width) =~= Seq::<u8>::empty());
    while left > 0
        invariant
            left <= width <= 8,
            start + width <= bytes@.len() <= usize::MAX,
            value == le_value(bytes@.subrange(start + left, start + width)),
        decreases left,
    {
        let ghost seen = bytes@.subrange(start + left, start + width);
        let ghost next = bytes@.subrange(start + left - 1, start + width);
        proof {
            assert(next.drop_first() =~= seen);
            lemma_le_value_bound(next);
            lemma_le_value_bound(seen);
            lemma_span_monotonic(next.len(), 8);
            lemma_span_values();
        }
        left = left - 1;
        value = bytes[start + left] as u64 + 256 * value;
    }
    value
}

} // verus!
