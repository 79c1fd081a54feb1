use vstd::prelude::*;

verus! {

// A score is an IEEE-754 single-precision value, held as its bit pattern.
// Apart from NaN, such values are ordered as sign-magnitude integers, with
// both zeros equal.

/// The bit pattern is a NaN: all exponent bits set and a nonzero fraction.
pub open spec fn is_nan_bits(b: u32) -> bool {
    b % 0x8000_0000 > 0x7F80_0000
}

/// The position of a non-NaN score in the order of the values it encodes.
pub open spec fn score_rank(b: u32) -> int {
    if b >= 0x8000_0000 {
        -((b - 0x8000_0000) as int)
    } else {
        b as int
    }
}

/// Whether the score's bit pattern is a NaN.
pub fn is_nan(b: u32) -> (r: bool)
    ensures
        r == is_nan_bits(b),
{
    b % 0x8000_0000 > 0x7F80_0000
}

/// The order position of a score, as `score_rank` gives it.
pub fn rank_of(b: u32) -> (r: i64)
    ensures
        r == score_rank(b),
{
    if b >= 0x8000_0000 {
        -((b - 0x8000_0000) as i64)
    } else {
        b as i64
    }
}

} // verus!
