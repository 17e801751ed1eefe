//! Single-precision values as raw bit patterns: how they compare, without computing on them.

use vstd::arithmetic::power2::{lemma_pow2_pos, lemma_pow2_strictly_increases, lemma_pow2_unfold, pow2};
use vstd::prelude::*;

verus! {

/// Bit pattern of positive infinity, the largest pattern that is not a NaN once the sign is cleared.
pub const INFINITY_BITS: u32 = 0x7f80_0000;

/// Bit pattern of one.
pub const ONE_BITS: u32 = 0x3f80_0000;

/// Sign bit of a pattern.
pub const SIGN_BIT: u32 = 0x8000_0000;

/// Bit pattern of infinity in double precision.
pub const DOUBLE_INFINITY_BITS: u64 = 0x7ff0_0000_0000_0000;

/// Bit pattern of one in double precision.
pub const DOUBLE_ONE_BITS: u64 = 0x3ff0_0000_0000_0000;

/// The pattern without its sign: the absolute value.
pub open spec fn magnitude_bits(bits: u32) -> int {
    if bits < SIGN_BIT {
        bits as int
    } else {
        bits - SIGN_BIT
    }
}

/// Whether the pattern is not a number.
pub open spec fn is_nan(bits: u32) -> bool {
    magnitude_bits(bits) > INFINITY_BITS
}

/// An integer by which patterns are ordered as the values they stand for.
pub open spec fn order_key(bits: u32) -> int {
    if bits < SIGN_BIT {
        bits as int
    } else {
        -(bits - SIGN_BIT)
    }
}

/// Whether the value of `a` is greater than that of `b`; false where either is a NaN.
pub open spec fn greater(a: u32, b: u32) -> bool {
    !is_nan(a) && !is_nan(b) && order_key(a) > order_key(b)
}

/// The magnitude of a finite pattern in units of the smallest positive value.
pub open spec fn scaled_magnitude(bits: int) -> int {
    let exponent = bits / 0x80_0000;
    let fraction = bits % 0x80_0000;
    if exponent == 0 {
        fraction
    } else {
        (0x80_0000 + fraction) * pow2((exponent - 1) as nat)
    }
}

/// The value of a finite pattern in units of the smallest positive value.
pub open spec fn scaled_value(bits: u32) -> int {
    if bits < SIGN_BIT {
        scaled_magnitude(bits as int)
    } else {
        -scaled_magnitude(bits - SIGN_BIT)
    }
}

/// A larger magnitude has a larger value.
pub proof fn lemma_scaled_magnitude_increases(a: int, b: int)
    requires
        0 <= a < b,
    ensures
        0 <= scaled_magnitude(a) < scaled_magnitude(b),
{
    let (ea, fa) = (a / 0x80_0000, a % 0x80_0000);
    let (eb, fb) = (b / 0x80_0000, b % 0x80_0000);
    if eb > 0 {
        lemma_pow2_pos((eb - 1) as nat);
        let pb = pow2((eb - 1) as nat) as int;
        assert((0x80_0000 + fb) * pb >= 0x80_0000 * pb) by (nonlinear_arith)
            requires
                fb >= 0,
                pb > 0,
        ;
        if ea == eb {
            assert((0x80_0000 + fa) * pb < (0x80_0000 + fb) * pb) by (nonlinear_arith)
                requires
                    fa < fb,
                    pb > 0,
            ;
            assert((0x80_0000 + fa) * pb >= 0) by (nonlinear_arith)
                requires
                    fa >= 0,
                    pb > 0,
            ;
        } else if ea > 0 {
            let pa = pow2((ea - 1) as nat) as int;
            lemma_pow2_pos((ea - 1) as nat);
            lemma_pow2_unfold(ea as nat);
            if ea < eb - 1 {
                lemma_pow2_strictly_increases(ea as nat, (eb - 1) as nat);
            }
            assert(2 * pa <= pb);
            assert((0x80_0000 + fa) * pa < 0x80_0000 * pb) by (nonlinear_arith)
                requires
                    0 <= fa < 0x80_0000,
                    pa > 0,
                    2 * pa <= pb,
            ;
            assert((0x80_0000 + fa) * pa >= 0) by (nonlinear_arith)
                requires
                    fa >= 0,
                    pa > 0,
            ;
        } else {
            assert(0x80_0000 * pb >= 0x80_0000);
        }
    }
}

/// Keys order finite patterns exactly as their values are ordered; equal keys stand for equal
/// values, so both zeros have one key.
pub proof fn lemma_order_key_follows_value(a: u32, b: u32)
    requires
        magnitude_bits(a) < INFINITY_BITS,
        magnitude_bits(b) < INFINITY_BITS,
    ensures
        order_key(a) < order_key(b) <==> scaled_value(a) < scaled_value(b),
        order_key(a) == order_key(b) <==> scaled_value(a) == scaled_value(b),
{
    let x = magnitude_bits(a);
    let y = magnitude_bits(b);
    if x < y {
        lemma_scaled_magnitude_increases(x, y);
    }
    if y < x {
        lemma_scaled_magnitude_increases(y, x);
    }
    if x > 0 {
        lemma_scaled_magnitude_increases(0, x);
    }
    if y > 0 {
        lemma_scaled_magnitude_increases(0, y);
    }
}

/// The pattern without its sign.
pub fn pattern_magnitude(bits: u32) -> (magnitude: u32)
    ensures
        magnitude == magnitude_bits(bits),
{
    if bits < SIGN_BIT {
        bits
    } else {
        bits - SIGN_BIT
    }
}

/// Whether the pattern is not a number.
pub fn pattern_is_nan(bits: u32) -> (nan: bool)
    ensures
        nan == is_nan(bits),
{
    pattern_magnitude(bits) > INFINITY_BITS
}

/// The order key of a pattern.
pub fn pattern_key(bits: u32) -> (key: i32)
    ensures
        key == order_key(bits),
{
    if bits < SIGN_BIT {
        bits as i32
    } else {
        -((bits - SIGN_BIT) as i32)
    }
}

/// Whether the value of `a` is greater than that of `b`; false where either is a NaN.
pub fn pattern_greater(a: u32, b: u32) -> (result: bool)
    ensures
        result == greater(a, b),
{
    !pattern_is_nan(a) && !pattern_is_nan(b) && pattern_key(a) > pattern_key(b)
}

/// Whether the pattern stands for a positive finite value.
pub fn is_positive_finite(bits: u32) -> (result: bool)
    ensures
        result == (0 < bits < INFINITY_BITS),
{
    0 < bits && bits < INFINITY_BITS
}

/// Whether the double-precision pattern stands for a positive finite value.
pub fn is_positive_finite_double(bits: u64) -> (result: bool)
    ensures
        result == (0 < bits < DOUBLE_INFINITY_BITS),
{
    0 < bits && bits < DOUBLE_INFINITY_BITS
}

} // verus!
