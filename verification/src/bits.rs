//! Single bits of a 32-bit acknowledgement bitfield.

use bit_field::BitField;
use vstd::prelude::*;

verus! {

/// Number of sequence numbers that one acknowledgement bitfield covers.
pub const WINDOW: u32 = 32;

/// Whether bit `index` of `value` is set. Bit 0 is the least significant one.
pub open spec fn has_bit(value: u32, index: u32) -> bool {
    value & (1u32 << index) != 0
}

/// `value` with bit `index` set (`on`) or cleared.
pub open spec fn with_bit(value: u32, index: u32, on: bool) -> u32 {
    if on {
        value | (1u32 << index)
    } else {
        value & !(1u32 << index)
    }
}

/// Reads one bit through `bit_field::BitField::get_bit` on `u32`.
///
/// Trusted: for an index below 32 the call returns whether
/// `value & (1 << bit)` is non-zero. It panics for larger indexes, which the
/// precondition excludes.
#[verifier::external_body]
pub(crate) fn get_bit(value: u32, bit: usize) -> (set: bool)
    requires
        bit < 32,
    ensures
        set == has_bit(value, bit as u32),
{
    value.get_bit(bit)
}

/// Writes one bit through `bit_field::BitField::set_bit` on `u32`.
///
/// Trusted: for an index below 32 the call ors `1 << bit` into the value when
/// `on` holds and masks it out otherwise. It panics for larger indexes, which
/// the precondition excludes.
#[verifier::external_body]
pub(crate) fn set_bit(value: &mut u32, bit: usize, on: bool)
    requires
        bit < 32,
    ensures
        *final(value) == with_bit(*old(value), bit as u32, on),
{
    value.set_bit(bit, on);
}

/// No bit of zero is set.
pub proof fn lemma_zero_has_no_bit(index: u32)
    requires
        index < 32,
    ensures
        !has_bit(0, index),
{
    assert(0u32 & (1u32 << index) == 0) by (bit_vector);
}

/// Setting bit `index` sets that bit and leaves every other bit as it was.
pub proof fn lemma_with_bit_set(value: u32, index: u32, other: u32)
    requires
        index < 32,
        other < 32,
    ensures
        has_bit(with_bit(value, index, true), other) == (other == index || has_bit(value, other)),
{
    assert(((value | (1u32 << index)) & (1u32 << other) != 0) == (other == index || (value & (1u32
        << other) != 0))) by (bit_vector)
        requires
            index < 32,
            other < 32,
    ;
}

/// The lowest `count` bits of `value`.
spec fn low_bits(value: u32, count: u32) -> u32 {
    value & (((1u64 << count) - 1) as u32)
}

/// Two values that agree in every bit agree in their lowest `count` bits.
proof fn lemma_low_bits_agree(a: u32, b: u32, count: u32)
    requires
        count <= 32,
        forall|index: u32| index < 32 ==> has_bit(a, index) == has_bit(b, index),
    ensures
        low_bits(a, count) == low_bits(b, count),
    decreases count,
{
    if count == 0 {
        assert(low_bits(a, 0) == 0 && low_bits(b, 0) == 0) by (bit_vector);
    } else {
        let index = (count - 1) as u32;
        lemma_low_bits_agree(a, b, index);
        assert(has_bit(a, index) == has_bit(b, index));
        assert(low_bits(a, count) == low_bits(b, count)) by (bit_vector)
            requires
                count == index + 1,
                index < 32,
                low_bits(a, index) == low_bits(b, index),
                has_bit(a, index) == has_bit(b, index),
        ;
    }
}

/// Two values with the same 32 bits are equal.
pub proof fn lemma_bits_determine_value(a: u32, b: u32)
    requires
        forall|index: u32| index < 32 ==> has_bit(a, index) == has_bit(b, index),
    ensures
        a == b,
{
    lemma_low_bits_agree(a, b, 32);
    assert(low_bits(a, 32) == a && low_bits(b, 32) == b) by (bit_vector);
}

} // verus!
