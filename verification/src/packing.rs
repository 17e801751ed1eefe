//! Signed values packed into 32-bit words: eight of four bits or four of eight bits.

use vstd::arithmetic::power2::{lemma2_to64, lemma_pow2_adds, lemma_pow2_pos, pow2};
use vstd::prelude::*;

use crate::bits::{
    is_nan, lemma_scaled_magnitude_increases, magnitude_bits, pattern_is_nan, pattern_magnitude,
    scaled_magnitude, scaled_value, INFINITY_BITS, SIGN_BIT,
};
use crate::exact::{distance, lemma_associative, lemma_distributive, lemma_one_times, lemma_zero_times};

verus! {

/// The four bits at place `k` of a word, lowest first.
pub open spec fn nibble(word: u32, k: u32) -> u32 {
    (word >> ((4 * k) as u32)) & 15
}

/// The eight bits at place `k` of a word, lowest first.
pub open spec fn byte(word: u32, k: u32) -> u32 {
    (word >> ((8 * k) as u32)) & 255
}

/// `raw`, a number below `2 * half`, read in two's complement.
pub open spec fn signed(raw: int, half: int) -> int {
    if raw >= half {
        raw - 2 * half
    } else {
        raw
    }
}

/// The four-bit value at place `k`.
pub open spec fn q4_value(word: u32, k: int) -> int {
    signed(nibble(word, k as u32) as int, 8)
}

/// The eight-bit value at place `k`.
pub open spec fn q8_value(word: u32, k: int) -> int {
    signed(byte(word, k as u32) as int, 128)
}

/// Reads the four-bit value at place `k`.
pub fn unpack_q4(word: u32, k: usize) -> (quant: i32)
    requires
        k < 8,
    ensures
        quant == q4_value(word, k as int),
        -8 <= quant <= 7,
{
    let place: u32 = k as u32;
    let raw: u32 = (word >> (4 * place)) & 15;
    assert((word >> ((4 * place) as u32)) & 15 <= 15) by (bit_vector);
    if raw >= 8 {
        raw as i32 - 16
    } else {
        raw as i32
    }
}

/// Reads the eight-bit value at place `k`.
pub fn unpack_q8(word: u32, k: usize) -> (quant: i32)
    requires
        k < 4,
    ensures
        quant == q8_value(word, k as int),
        -128 <= quant <= 127,
{
    let place: u32 = k as u32;
    let raw: u32 = (word >> (8 * place)) & 255;
    assert((word >> ((8 * place) as u32)) & 255 <= 255) by (bit_vector);
    if raw >= 128 {
        raw as i32 - 256
    } else {
        raw as i32
    }
}

/// The low four bits of a value in two's complement.
pub open spec fn low_nibble(quant: int) -> int {
    quant % 16
}

/// Packs the low four bits of eight values into one word.
pub fn pack_q4(quants: &Vec<i32>) -> (word: u32)
    requires
        quants@.len() == 8,
    ensures
        forall|k: int|
            0 <= k < 8 ==> #[trigger] nibble(word, k as u32) == low_nibble(quants@[k] as int),
{
    let mut packed: u32 = 0;
    let mut offset: u32 = 0;
    assert(forall|k: u32| k < 8 ==> #[trigger] ((0u32 >> ((4 * k) as u32)) & 15) == 0)
        by (bit_vector);
    while offset < 8
        invariant
            quants@.len() == 8,
            offset <= 8,
            forall|k: u32|
                k < offset ==> #[trigger] nibble(packed, k) == low_nibble(quants@[k as int] as int),
            forall|k: u32| offset <= k < 8 ==> #[trigger] nibble(packed, k) == 0,
        decreases 8 - offset,
    {
        let quant: i32 = quants[offset as usize];
        let low: i32 = quant & 15;
        assert(0 <= low <= 15 && low == quant % 16) by (bit_vector)
            requires
                low == quant & 15,
        ;
        let raw: u32 = low as u32;
        let before: u32 = packed;
        packed = packed | (raw << (4 * offset));
        let after: u32 = packed;
        assert forall|k: u32| k < 8 implies #[trigger] nibble(after, k) == (if k == offset {
            raw
        } else {
            nibble(before, k)
        }) by {
            assert(nibble(before, offset) == 0);
            assert(((after >> ((4 * k) as u32)) & 15) == (if k == offset {
                raw
            } else {
                (before >> ((4 * k) as u32)) & 15
            })) by (bit_vector)
                requires
                    k < 8,
                    offset < 8,
                    raw <= 15,
                    ((before >> ((4 * offset) as u32)) & 15) == 0,
                    after == before | (raw << ((4 * offset) as u32)),
            ;
        }
        offset = offset + 1;
    }
    assert forall|k: int| 0 <= k < 8 implies #[trigger] nibble(packed, k as u32) == low_nibble(
        quants@[k] as int,
    ) by {
        assert(nibble(packed, k as u32) == low_nibble(quants@[(k as u32) as int] as int));
    }
    packed
}

/// Reading gives back what was packed, for every value that four bits can hold.
pub proof fn lemma_q4_read_back(word: u32, quants: Seq<i32>, k: int)
    requires
        quants.len() == 8,
        0 <= k < 8,
        nibble(word, k as u32) == low_nibble(quants[k] as int),
        -8 <= quants[k] <= 7,
    ensures
        q4_value(word, k) == quants[k],
{
}

/// A word is determined by its eight values, so packing gives back the word that was read.
pub proof fn lemma_q4_word_determined(a: u32, b: u32)
    requires
        forall|k: int| 0 <= k < 8 ==> #[trigger] q4_value(a, k) == q4_value(b, k),
    ensures
        a == b,
{
    assert forall|k: u32| k < 8 implies #[trigger] nibble(a, k) == nibble(b, k) by {
        assert(q4_value(a, k as int) == q4_value(b, k as int));
        assert((a >> ((4 * k) as u32)) & 15 <= 15 && (b >> ((4 * k) as u32)) & 15 <= 15)
            by (bit_vector);
    }
    assert(nibble(a, 0) == nibble(b, 0) && nibble(a, 1) == nibble(b, 1) && nibble(a, 2) == nibble(b, 2) && nibble(a, 3) == nibble(
        b,
        3,
    ));
    assert(nibble(a, 4) == nibble(b, 4) && nibble(a, 5) == nibble(b, 5) && nibble(a, 6) == nibble(
        b,
        6,
    ) && nibble(a, 7) == nibble(b, 7));
    assert(a == b) by (bit_vector)
        requires
            nibble(a, 0) == nibble(b, 0),
            nibble(a, 1) == nibble(b, 1),
            nibble(a, 2) == nibble(b, 2),
            nibble(a, 3) == nibble(b, 3),
            nibble(a, 4) == nibble(b, 4),
            nibble(a, 5) == nibble(b, 5),
            nibble(a, 6) == nibble(b, 6),
            nibble(a, 7) == nibble(b, 7),
    ;
}

/// The largest integer up to seven that does not exceed a magnitude.
pub open spec fn whole_part(magnitude: int) -> int {
    if magnitude >= 0x40e0_0000 {
        7
    } else if magnitude >= 0x40c0_0000 {
        6
    } else if magnitude >= 0x40a0_0000 {
        5
    } else if magnitude >= 0x4080_0000 {
        4
    } else if magnitude >= 0x4040_0000 {
        3
    } else if magnitude >= 0x4000_0000 {
        2
    } else if magnitude >= 0x3f80_0000 {
        1
    } else {
        0
    }
}

/// The quantized value of a rounded quotient: between minus and plus seven.
pub open spec fn clamped(rounded: u32) -> int {
    if rounded < SIGN_BIT {
        whole_part(magnitude_bits(rounded))
    } else {
        -whole_part(magnitude_bits(rounded))
    }
}

/// Clamps a rounded quotient, given as a single-precision pattern, to the four-bit symmetric range;
/// `None` for a NaN, whose integer value is up to the device.
pub fn clamp_q4(rounded: u32) -> (quant: Option<i32>)
    ensures
        match quant {
            Some(quant) => !is_nan(rounded) && quant == clamped(rounded) && -7 <= quant <= 7,
            None => is_nan(rounded),
        },
{
    if pattern_is_nan(rounded) {
        return None;
    }
    let magnitude: u32 = pattern_magnitude(rounded);
    let whole: i32 = if magnitude >= 0x40e0_0000 {
        7
    } else if magnitude >= 0x40c0_0000 {
        6
    } else if magnitude >= 0x40a0_0000 {
        5
    } else if magnitude >= 0x4080_0000 {
        4
    } else if magnitude >= 0x4040_0000 {
        3
    } else if magnitude >= 0x4000_0000 {
        2
    } else if magnitude >= 0x3f80_0000 {
        1
    } else {
        0
    };
    if rounded < SIGN_BIT {
        Some(whole)
    } else {
        Some(-whole)
    }
}

/// The value one, in units of the smallest positive value.
pub open spec fn scaled_one() -> int {
    0x80_0000 * pow2(126) as int
}

// Values of the integers one to seven.
proof fn lemma_integer_patterns()
    ensures
        scaled_magnitude(0x3f80_0000) == scaled_one(),
        scaled_magnitude(0x4000_0000) == 2 * scaled_one(),
        scaled_magnitude(0x4040_0000) == 3 * scaled_one(),
        scaled_magnitude(0x4080_0000) == 4 * scaled_one(),
        scaled_magnitude(0x40a0_0000) == 5 * scaled_one(),
        scaled_magnitude(0x40c0_0000) == 6 * scaled_one(),
        scaled_magnitude(0x40e0_0000) == 7 * scaled_one(),
{
    lemma2_to64();
    lemma_pow2_adds(126, 1);
    lemma_pow2_adds(126, 2);
    let p = pow2(126) as int;
    assert(pow2(127) == p * 2 && pow2(128) == p * 4);
    assert(scaled_magnitude(0x4000_0000) == 0x80_0000 * pow2(127));
    assert(scaled_magnitude(0x4040_0000) == 0xc0_0000 * pow2(127));
    assert(scaled_magnitude(0x4080_0000) == 0x80_0000 * pow2(128));
    assert(scaled_magnitude(0x40a0_0000) == 0xa0_0000 * pow2(128));
    assert(scaled_magnitude(0x40c0_0000) == 0xc0_0000 * pow2(128));
    assert(scaled_magnitude(0x40e0_0000) == 0xe0_0000 * pow2(128));
}

/// The clamped value is the value itself with its fraction dropped, or the nearest end of the
/// range: an integer between minus and plus seven is kept.
pub proof fn lemma_clamped_value(rounded: u32)
    requires
        !is_nan(rounded),
    ensures
        ({
            let level = if clamped(rounded) < 0 {
                -clamped(rounded)
            } else {
                clamped(rounded)
            };
            &&& 0 <= level <= 7
            &&& level * scaled_one() <= scaled_magnitude(magnitude_bits(rounded))
            &&& level < 7 ==> scaled_magnitude(magnitude_bits(rounded)) < (level + 1)
                * scaled_one()
        }),
{
    lemma_integer_patterns();
    let m = magnitude_bits(rounded);
    let w = whole_part(m);
    let one = scaled_one();
    if m >= 0x40e0_0000 {
        lemma_not_below(m, 0x40e0_0000);
        assert(w * one == 7 * one);
    } else if m >= 0x40c0_0000 {
        lemma_not_below(m, 0x40c0_0000);
        lemma_scaled_magnitude_increases(m, 0x40e0_0000);
        assert(w * one == 6 * one && (w + 1) * one == 7 * one);
    } else if m >= 0x40a0_0000 {
        lemma_not_below(m, 0x40a0_0000);
        lemma_scaled_magnitude_increases(m, 0x40c0_0000);
        assert(w * one == 5 * one && (w + 1) * one == 6 * one);
    } else if m >= 0x4080_0000 {
        lemma_not_below(m, 0x4080_0000);
        lemma_scaled_magnitude_increases(m, 0x40a0_0000);
        assert(w * one == 4 * one && (w + 1) * one == 5 * one);
    } else if m >= 0x4040_0000 {
        lemma_not_below(m, 0x4040_0000);
        lemma_scaled_magnitude_increases(m, 0x4080_0000);
        assert(w * one == 3 * one && (w + 1) * one == 4 * one);
    } else if m >= 0x4000_0000 {
        lemma_not_below(m, 0x4000_0000);
        lemma_scaled_magnitude_increases(m, 0x4040_0000);
        assert(w * one == 2 * one && (w + 1) * one == 3 * one);
    } else if m >= 0x3f80_0000 {
        lemma_not_below(m, 0x3f80_0000);
        lemma_scaled_magnitude_increases(m, 0x4000_0000);
        assert(w * one == one && (w + 1) * one == 2 * one);
    } else {
        lemma_not_below(m, 0);
        lemma_scaled_magnitude_increases(m, 0x3f80_0000);
        assert(scaled_magnitude(0) == 0);
        assert(w * one == 0 && (w + 1) * one == one);
    }
}

/// The pattern stands for the whole number `n`.
pub open spec fn is_whole(rounded: u32, n: int) -> bool {
    magnitude_bits(rounded) < INFINITY_BITS && scaled_value(rounded) == n * scaled_one()
}

/// A whole number is clamped to the nearest one between minus and plus seven.
pub proof fn lemma_clamped_whole(rounded: u32, n: int)
    requires
        is_whole(rounded, n),
    ensures
        clamped(rounded) == if n > 7 {
            7
        } else if n < -7 {
            -7
        } else {
            n
        },
{
    lemma_clamped_value(rounded);
    lemma_not_below(magnitude_bits(rounded), 0);
    assert(scaled_magnitude(0) == 0);
    lemma_pow2_pos(126);
    let one = scaled_one();
    let size = if n < 0 {
        -n
    } else {
        n
    };
    let level = if clamped(rounded) < 0 {
        -clamped(rounded)
    } else {
        clamped(rounded)
    };
    assert(one > 0);
    let magnitude = scaled_magnitude(magnitude_bits(rounded));
    assert(magnitude == size * one && (n > 0 ==> rounded < SIGN_BIT) && (n < 0 ==> rounded
        >= SIGN_BIT)) by {
        assert((n > 0 ==> n * one > 0) && (n < 0 ==> n * one < 0) && (n == 0 ==> n * one == 0) && (-n)
            * one == -(n * one)) by (nonlinear_arith)
            requires
                one > 0,
        ;
    }
    assert(level <= size && (level < 7 ==> size < level + 1)) by (nonlinear_arith)
        requires
            one > 0,
            level * one <= size * one,
            level < 7 ==> size * one < (level + 1) * one,
    ;
}

/// `n` is a whole number nearest to `x / scale`.
pub open spec fn is_nearest(n: int, x: real, scale: real) -> bool {
    (2 as real) * distance(x, n as real * scale) <= scale
}

/// The value that is kept for a rounded quotient stands, with its scale, as near to `x` as any value
/// that four bits keep does, and within half a scale where `x` lies within seven scales.
pub proof fn lemma_nearest_value_kept(x: real, scale: real, rounded: u32, n: int, other: int)
    requires
        (0 as real) < scale,
        is_whole(rounded, n),
        is_nearest(n, x, scale),
        -7 <= other <= 7,
    ensures
        distance(x, clamped(rounded) as real * scale) <= distance(x, other as real * scale),
        -(7 as real) * scale <= x <= (7 as real) * scale ==> is_nearest(clamped(rounded), x, scale),
{
    lemma_clamped_whole(rounded, n);
    let q = clamped(rounded);
    lemma_multiples(q, other, scale);
    lemma_multiples(n, other, scale);
    lemma_multiples(n, q, scale);
    lemma_multiples(n, 7, scale);
    lemma_multiples(n, -7, scale);
}

// Different multiples of a scale lie at least a scale apart.
proof fn lemma_multiples(a: int, b: int, scale: real)
    requires
        (0 as real) < scale,
    ensures
        a > b ==> a as real * scale >= b as real * scale + scale,
        a < b ==> a as real * scale + scale <= b as real * scale,
{
    let (p, q) = (a as real, b as real);
    if a > b {
        assert(p >= q + 1 as real);
        assert(p * scale >= q * scale + scale) by (nonlinear_arith)
            requires
                p >= q + 1 as real,
                (0 as real) < scale,
        ;
    }
    if a < b {
        assert(q >= p + 1 as real);
        assert(p * scale + scale <= q * scale) by (nonlinear_arith)
            requires
                q >= p + 1 as real,
                (0 as real) < scale,
        ;
    }
}

/// A value that was kept is kept again: where `x` is off the value times the scale by less than half
/// a scale, quantizing `x` gives the value back.
pub proof fn lemma_kept_again(x: real, scale: real, quant: int, rounded: u32, n: int)
    requires
        (0 as real) < scale,
        -7 <= quant <= 7,
        (2 as real) * distance(x, quant as real * scale) < scale,
        is_whole(rounded, n),
        is_nearest(n, x, scale),
    ensures
        clamped(rounded) == quant,
{
    lemma_clamped_whole(rounded, n);
    lemma_multiples(n, quant, scale);
}

/// `a` is off `b` by at most a thirty-second of `b`, which allows for more rounding than any
/// floating-point operation on normal numbers makes.
pub open spec fn is_close(a: real, b: real) -> bool {
    (32 as real) * distance(a, b) <= distance(b, 0 as real)
}

/// A value that was kept is kept again in spite of rounding: `x` may be off the value times the scale,
/// and the quotient that is rounded to a whole number may be off that of `x` and the scale.
pub proof fn lemma_kept_again_rounded(
    x: real,
    quotient: real,
    scale: real,
    quant: int,
    rounded: u32,
    n: int,
)
    requires
        (0 as real) < scale,
        -7 <= quant <= 7,
        is_close(x, quant as real * scale),
        is_close(quotient * scale, x),
        is_whole(rounded, n),
        is_nearest(n, quotient, 1 as real),
    ensures
        clamped(rounded) == quant,
{
    lemma_clamped_whole(rounded, n);
    lemma_multiples(n, quant, scale);
    lemma_multiples(quant, 7, scale);
    lemma_multiples(quant, -7, scale);
    let (whole, product) = (n as real, quotient * scale);
    lemma_one_times(whole);
    lemma_associative(whole, 1 as real, scale);
    let difference = quotient - whole;
    assert((2 as real) * difference <= 1 as real && (2 as real) * difference >= -(1 as real));
    lemma_distributive(quotient, -whole, scale);
    lemma_distributive(whole, -whole, scale);
    lemma_zero_times(scale);
    assert(difference * scale == product - whole * scale);
    let spread = difference * scale;
    assert((2 as real) * spread <= scale && (2 as real) * spread >= -scale) by (nonlinear_arith)
        requires
            (2 as real) * difference <= 1 as real,
            (2 as real) * difference >= -(1 as real),
            (0 as real) < scale,
            spread == difference * scale,
    ;
}

proof fn lemma_not_below(m: int, bound: int)
    requires
        0 <= bound <= m,
    ensures
        scaled_magnitude(bound) <= scaled_magnitude(m),
{
    if bound < m {
        lemma_scaled_magnitude_increases(bound, m);
    }
}

} // verus!
