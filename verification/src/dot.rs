//! The dot decider: whether a Braille dot is drawn for a pixel, given the
//! pixel's lightness, the configured threshold, and the invert flag. Both
//! real-valued inputs are carried as single-precision bit patterns and
//! compared by `binary32`.

use vstd::prelude::*;

use crate::binary32::{b32_eq, b32_is_nan, b32_le, le_bits, lemma_b32_le_antisymmetry};

verus! {

/// A dot is on when the lightness reaches the threshold: at least the
/// threshold normally, at most the threshold when inverted. A value exactly
/// at the threshold yields a dot under either mode.
pub open spec fn spec_dot_on(l_bits: u32, t_bits: u32, invert: bool) -> bool {
    if invert {
        b32_le(l_bits, t_bits)
    } else {
        b32_le(t_bits, l_bits)
    }
}

/// Decides one dot from the lightness and threshold bit patterns.
pub fn is_dot_on(l_bits: u32, t_bits: u32, invert: bool) -> (r: bool)
    ensures
        r == spec_dot_on(l_bits, t_bits, invert),
{
    if invert {
        le_bits(l_bits, t_bits)
    } else {
        le_bits(t_bits, l_bits)
    }
}

/// A pixel whose lightness equals the threshold yields a dot regardless of
/// the invert setting.
pub proof fn lemma_threshold_boundary(l_bits: u32, t_bits: u32)
    requires
        b32_eq(l_bits, t_bits),
    ensures
        spec_dot_on(l_bits, t_bits, false),
        spec_dot_on(l_bits, t_bits, true),
{
}

/// For a lightness different from the threshold (and both comparable),
/// inverting the flag flips the decision.
pub proof fn lemma_invert_symmetry(l_bits: u32, t_bits: u32)
    requires
        !b32_is_nan(l_bits),
        !b32_is_nan(t_bits),
        !b32_eq(l_bits, t_bits),
    ensures
        spec_dot_on(l_bits, t_bits, true) == !spec_dot_on(l_bits, t_bits, false),
{
    lemma_b32_le_antisymmetry(l_bits, t_bits);
}

} // verus!
