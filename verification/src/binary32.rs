//! Ordering of IEEE 754 single-precision values, stated and computed over
//! their bit patterns. Lightness values and the threshold cross the library
//! boundary as bit patterns, and every comparison between them is defined
//! here, exactly as the hardware comparison behaves: NaN compares false
//! with everything, the two zeros are equal, and all other values order by
//! sign and magnitude.

use vstd::prelude::*;

verus! {

/// A single-precision bit pattern encodes NaN when the exponent field is
/// all ones and the significand is non-zero.
pub open spec fn b32_is_nan(bits: u32) -> bool {
    (bits / 0x800000) % 0x100 == 0xff && bits % 0x800000 != 0
}

/// Maps a bit pattern to an integer key that orders exactly as the encoded
/// values do: non-negative values sort as their bit patterns, negative ones
/// in the reverse order of theirs, and the two zeros share the key 0.
pub open spec fn b32_key(bits: u32) -> int {
    if bits < 0x80000000 {
        bits as int
    } else {
        -((bits - 0x80000000) as int)
    }
}

/// `a <= b` on the encoded values; false whenever either side is NaN.
pub open spec fn b32_le(a: u32, b: u32) -> bool {
    !b32_is_nan(a) && !b32_is_nan(b) && b32_key(a) <= b32_key(b)
}

/// `a == b` on the encoded values; false whenever either side is NaN.
pub open spec fn b32_eq(a: u32, b: u32) -> bool {
    !b32_is_nan(a) && !b32_is_nan(b) && b32_key(a) == b32_key(b)
}

/// Two comparable, unequal values compare `<=` in exactly one direction.
pub proof fn lemma_b32_le_antisymmetry(a: u32, b: u32)
    requires
        !b32_is_nan(a),
        !b32_is_nan(b),
        !b32_eq(a, b),
    ensures
        b32_le(a, b) == !b32_le(b, a),
{
}

/// Whether the bit pattern encodes NaN.
pub fn is_nan_bits(bits: u32) -> (r: bool)
    ensures
        r == b32_is_nan(bits),
{
    (bits / 0x800000) % 0x100 == 0xff && bits % 0x800000 != 0
}

/// `a <= b` on the encoded values, computed on the bit patterns.
pub fn le_bits(a: u32, b: u32) -> (r: bool)
    ensures
        r == b32_le(a, b),
{
    if is_nan_bits(a) || is_nan_bits(b) {
        false
    } else if a < 0x80000000 {
        // a encodes a non-negative value.
        if b < 0x80000000 {
            a <= b
        } else {
            // b is non-positive: only equal zeros compare `<=`.
            a == 0 && b == 0x80000000
        }
    } else {
        // a encodes a non-positive value.
        if b < 0x80000000 {
            true
        } else {
            b <= a
        }
    }
}

} // verus!
