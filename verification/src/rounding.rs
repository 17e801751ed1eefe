//! Single-precision rounding of products and quotients, as bit patterns: why quantizing an expanded
//! value gives it back.

use vstd::arithmetic::power2::{
    lemma2_to64, lemma_pow2_adds, lemma_pow2_pos, lemma_pow2_unfold, pow2,
};
use vstd::prelude::*;

use crate::bits::{
    lemma_scaled_magnitude_increases, magnitude_bits, scaled_magnitude, scaled_value, INFINITY_BITS,
    SIGN_BIT,
};
use crate::dequantize::{
    expanded, lemma_q4_tensor_read_back, lemma_same_values_same_words, lemma_scale_place, packed,
    scale_place,
};
use crate::packing::{clamped, is_whole, lemma_clamped_whole, q4_value, scaled_one};

verus! {

/// Absolute value.
pub open spec fn size(n: int) -> int {
    if n < 0 {
        -n
    } else {
        n
    }
}

/// The pattern is that of a finite number.
pub open spec fn is_finite(bits: u32) -> bool {
    magnitude_bits(bits) < INFINITY_BITS
}

/// How far the value of a pattern is from `numerator / denominator`, in units of the smallest positive
/// value over the denominator.
pub open spec fn error(bits: u32, numerator: int, denominator: int) -> int {
    size(scaled_value(bits) * denominator - numerator)
}

/// `numerator / denominator`, in units of the smallest positive value, rounds to this pattern: no
/// finite pattern is nearer.
pub open spec fn rounds_to(bits: u32, numerator: int, denominator: int) -> bool {
    &&& is_finite(bits)
    &&& forall|other: u32| #[trigger]
        is_finite(other) ==> error(bits, numerator, denominator) <= error(
            other,
            numerator,
            denominator,
        )
}

// The exponent of a quotient: the largest up to `e` whose smallest value does not exceed it.
proof fn lemma_exponent(m: int, denominator: int, e: nat) -> (r: nat)
    requires
        0 < denominator,
        0x80_0000 * denominator <= m,
        m < 0x80_0000 * (pow2(e + 1) * denominator),
    ensures
        r <= e,
        0x80_0000 * (pow2(r) * denominator) <= m,
        m < 0x80_0000 * (pow2(r + 1) * denominator),
    decreases e,
{
    if 0x80_0000 * (pow2(e) * denominator) <= m {
        e
    } else if e == 0 {
        lemma2_to64();
        assert(1 * denominator == denominator) by (nonlinear_arith);
        e
    } else {
        lemma_exponent(m, denominator, (e - 1) as nat)
    }
}

// Some finite magnitude is close to a positive quotient in the range of normal numbers.
proof fn lemma_magnitude_near(m: int, denominator: int) -> (bits: int)
    requires
        0 < denominator,
        0x80_0000 * denominator <= m,
        m < 0x80_0000 * (pow2(254) * denominator),
    ensures
        0 <= bits < INFINITY_BITS,
        scaled_magnitude(bits) * denominator <= m,
        32 * (m - scaled_magnitude(bits) * denominator) <= m,
{
    let e = lemma_exponent(m, denominator, 253);
    let p = pow2(e) as int;
    lemma_pow2_pos(e);
    lemma_pow2_unfold(e + 1);
    let step = p * denominator;
    assert(step > 0) by (nonlinear_arith)
        requires
            step == p * denominator,
            p > 0,
            denominator > 0,
    ;
    assert((2 * p) * denominator == 2 * step) by (nonlinear_arith)
        requires
            step == p * denominator,
    ;
    let f = m / step;
    vstd::arithmetic::div_mod::lemma_fundamental_div_mod(m, step);
    vstd::arithmetic::div_mod::lemma_mod_bound(m, step);
    let r = m % step;
    assert(0x80_0000 <= f < 0x100_0000) by (nonlinear_arith)
        requires
            m == step * f + r,
            0 <= r < step,
            0x80_0000 * step <= m < 0x100_0000 * step,
            step > 0,
    ;
    let bits = (e + 1) * 0x80_0000 + (f - 0x80_0000);
    assert(bits / 0x80_0000 == e + 1 && bits % 0x80_0000 == f - 0x80_0000);
    assert(scaled_magnitude(bits) == f * p);
    assert((f * p) * denominator == step * f) by (nonlinear_arith)
        requires
            step == p * denominator,
    ;
    bits
}

/// Rounding to nearest is off by little: at most by a thirty-second, for whole multiples of the
/// smallest positive value and in the range of normal numbers.
pub proof fn lemma_rounding_error(bits: u32, numerator: int, denominator: int)
    requires
        rounds_to(bits, numerator, denominator),
        0 < denominator,
        denominator == 1 || numerator == 0 || 0x80_0000 * denominator <= size(numerator),
        size(numerator) < 0x80_0000 * (pow2(254) * denominator),
    ensures
        32 * error(bits, numerator, denominator) <= size(numerator),
{
    if numerator == 0 {
        assert(is_finite(0u32));
        assert(scaled_value(0u32) == 0);
        assert(0 * denominator == 0) by (nonlinear_arith);
    } else {
        let near = if size(numerator) < 0x80_0000 {
            assert(size(numerator) < 0x80_0000 * denominator);
            size(numerator)
        } else {
            lemma_magnitude_near(size(numerator), denominator)
        };
        let other = if numerator > 0 {
            near as u32
        } else {
            (near + SIGN_BIT) as u32
        };
        assert(magnitude_bits(other) == near);
        assert(is_finite(other));
        let v = scaled_magnitude(near);
        assert((-v) * denominator == -(v * denominator)) by (nonlinear_arith);
        assert(32 * error(other, numerator, denominator) <= size(numerator));
    }
}

// What two roundings and the rounding to a whole number leave of a multiple of `unit`.
proof fn lemma_same_multiple(n: int, quant: int, unit: int, product: int, quotient: int)
    requires
        0 < unit,
        -7 <= quant <= 7,
        32 * size(product - quant * unit) <= size(quant * unit),
        32 * size(quotient - product) <= size(product),
        2 * size(n * unit - quotient) <= unit,
    ensures
        n == quant,
{
    assert(-7 * unit <= quant * unit <= 7 * unit) by (nonlinear_arith)
        requires
            0 < unit,
            -7 <= quant <= 7,
    ;
    if n < quant {
        assert(n * unit <= quant * unit - unit) by (nonlinear_arith)
            requires
                0 < unit,
                n <= quant - 1,
        ;
    }
    if n > quant {
        assert(n * unit >= quant * unit + unit) by (nonlinear_arith)
            requires
                0 < unit,
                n >= quant + 1,
        ;
    }
}

/// A value times its scale, rounded, divided by the scale, rounded, and rounded to a whole number is
/// the value again: for every positive scale that is finite when it is taken seven times.
pub proof fn lemma_value_survives_rounding(
    quant: int,
    scale: u32,
    product: u32,
    quotient: u32,
    rounded: u32,
    n: int,
)
    requires
        -7 <= quant <= 7,
        0 < scale < INFINITY_BITS,
        7 * scaled_value(scale) <= scaled_magnitude(INFINITY_BITS - 1),
        rounds_to(product, quant * scaled_value(scale), 1),
        rounds_to(quotient, scaled_value(product) * scaled_one(), scaled_value(scale)),
        is_whole(rounded, n),
        2 * size(n * scaled_one() - scaled_value(quotient)) <= scaled_one(),
    ensures
        clamped(rounded) == quant,
{
    let (s, x, t, one) = (
        scaled_value(scale),
        scaled_value(product),
        scaled_value(quotient),
        scaled_one(),
    );
    lemma_clamped_whole(rounded, n);
    lemma_scaled_magnitude_increases(0, scale as int);
    assert(0 < s);
    lemma2_to64();
    lemma_pow2_pos(122);
    lemma_pow2_pos(253);
    lemma_pow2_unfold(254);
    lemma_pow2_adds(4, 122);
    lemma_pow2_adds(2, 126);
    lemma_pow2_adds(126, 128);
    let (p, r, h) = (pow2(126) as int, pow2(128) as int, pow2(254) as int);
    assert(one == 0x80_0000 * p);
    let half = pow2(253) as int;
    assert(scaled_magnitude(INFINITY_BITS - 1) == 0xff_ffff * half) by {
        assert((INFINITY_BITS - 1) / 0x80_0000 == 254);
        assert((INFINITY_BITS - 1) % 0x80_0000 == 0x7f_ffff);
    }
    assert(h == 2 * half);
    let exact = quant * s;
    assert(-7 * s <= exact <= 7 * s) by (nonlinear_arith)
        requires
            exact == quant * s,
            0 < s,
            -7 <= quant <= 7,
    ;
    lemma_rounding_error(product, exact, 1);
    assert(32 * size(x - exact) <= size(exact));
    let numerator = x * one;
    if quant == 0 {
        assert(numerator == 0) by (nonlinear_arith)
            requires
                x == 0,
                numerator == x * one,
        ;
        assert(0 < 0x80_0000 * (h * s)) by (nonlinear_arith)
            requires
                0 < h,
                0 < s,
        ;
    } else {
        assert(s <= size(exact)) by (nonlinear_arith)
            requires
                exact == quant * s,
                quant != 0,
                0 < s,
                size(exact) == exact || size(exact) == -exact,
                size(exact) >= 0,
        ;
        assert(s <= 2 * size(x) <= 16 * s);
        assert(size(numerator) == size(x) * one) by (nonlinear_arith)
            requires
                numerator == x * one,
                size(numerator) == if numerator < 0 {
                    -numerator
                } else {
                    numerator
                },
                size(x) == if x < 0 {
                    -x
                } else {
                    x
                },
                0 < one,
        ;
        lemma_quotient_in_range(size(x), s, p, r, h);
    }
    lemma_rounding_error(quotient, numerator, s);
    let unit = one * s;
    assert(0 < unit) by (nonlinear_arith)
        requires
            unit == one * s,
            0 < one,
            0 < s,
    ;
    assert(quant * unit == exact * one && n * unit == (n * one) * s && (x - exact) * one
        == numerator - exact * one && (n * one - t) * s == (n * one) * s - t * s)
        by (nonlinear_arith)
        requires
            unit == one * s,
            exact == quant * s,
            numerator == x * one,
    ;
    lemma_size_scaled(x - exact, exact, one);
    lemma_half_scaled(n * one - t, one, s);
    lemma_same_multiple(n, quant, unit, numerator, t * s);
}

// A quotient near a whole number up to seven is in the range of normal numbers.
proof fn lemma_quotient_in_range(x: int, s: int, p: int, r: int, h: int)
    requires
        0 < s <= 2 * x <= 16 * s,
        2 <= p,
        16 <= r,
        h == p * r,
    ensures
        0x80_0000 * s <= x * (0x80_0000 * p),
        x * (0x80_0000 * p) < 0x80_0000 * (h * s),
{
    let xp = x * p;
    assert(2 * x <= xp) by (nonlinear_arith)
        requires
            xp == x * p,
            2 <= p,
            0 <= x,
    ;
    assert(x * (0x80_0000 * p) == 0x80_0000 * xp) by (nonlinear_arith)
        requires
            xp == x * p,
    ;
    assert(xp < h * s) by (nonlinear_arith)
        requires
            xp == x * p,
            h == p * r,
            x <= 8 * s,
            16 <= r,
            0 < s,
            0 < p,
    ;
}

proof fn lemma_size_scaled(a: int, b: int, factor: int)
    requires
        32 * size(a) <= size(b),
        0 < factor,
    ensures
        32 * size(a * factor) <= size(b * factor),
{
    assert(a >= 0 ==> a * factor >= 0) by (nonlinear_arith)
        requires
            0 < factor,
    ;
    assert(a < 0 ==> a * factor < 0) by (nonlinear_arith)
        requires
            0 < factor,
    ;
    assert(b >= 0 ==> b * factor >= 0) by (nonlinear_arith)
        requires
            0 < factor,
    ;
    assert(b < 0 ==> b * factor < 0) by (nonlinear_arith)
        requires
            0 < factor,
    ;
    let (u, v) = (size(a), size(b));
    assert(32 * (u * factor) <= v * factor) by (nonlinear_arith)
        requires
            32 * u <= v,
            0 < factor,
    ;
    assert((-a) * factor == -(a * factor) && (-b) * factor == -(b * factor)) by (nonlinear_arith);
}

proof fn lemma_half_scaled(a: int, b: int, factor: int)
    requires
        2 * size(a) <= b,
        0 < factor,
    ensures
        2 * size(a * factor) <= b * factor,
{
    assert(2 * (a * factor) <= b * factor && -(2 * (a * factor)) <= b * factor)
        by (nonlinear_arith)
        requires
            2 * a <= b,
            -2 * a <= b,
            0 < factor,
    ;
}

/// `elements` are what expansion makes of packed words and the bit patterns of their scales: each is
/// the product of the value that its thread reads and the scale, rounded.
pub open spec fn expanded_rounded(
    elements: Seq<u32>,
    words: Seq<u32>,
    scales: Seq<u32>,
    rows: int,
    columns: int,
    block: int,
) -> bool {
    forall|i: int|
        0 <= i < rows * columns ==> {
            let unit = expanded(i, rows, columns, block);
            rounds_to(
                #[trigger] elements[i],
                q4_value(words[unit.0], unit.1) * scaled_value(scales[unit.2]),
                1,
            )
        }
}

/// `quants` are what the packing kernel makes of the bit patterns of elements and scales: each is
/// clamped from the whole number nearest to the rounded quotient of the element and its scale.
pub open spec fn quantized_rounded(
    quants: Seq<i32>,
    wholes: Seq<int>,
    rounded: Seq<u32>,
    quotients: Seq<u32>,
    elements: Seq<u32>,
    scales: Seq<u32>,
    rows: int,
    columns: int,
    block: int,
) -> bool {
    forall|i: int|
        0 <= i < rows * columns ==> {
            &&& (#[trigger] quants[i]) == clamped(rounded[i])
            &&& is_whole(rounded[i], wholes[i])
            &&& 2 * size(wholes[i] * scaled_one() - scaled_value(quotients[i])) <= scaled_one()
            &&& rounds_to(
                quotients[i],
                scaled_value(elements[i]) * scaled_one(),
                scaled_value(scales[scale_place(i, columns, block)]),
            )
        }
}

/// Quantizing an expanded tensor again with the same scales gives the same words and the same scales,
/// bit for bit, with products and quotients rounded to single precision: for all positive scales
/// that are finite when they are taken seven times.
pub proof fn lemma_q4_tensor_repacked_in_single_precision(
    words: Seq<u32>,
    scales_out: Seq<u32>,
    quants: Seq<i32>,
    again: Seq<u32>,
    again_scales: Seq<u32>,
    again_quants: Seq<i32>,
    wholes: Seq<int>,
    rounded: Seq<u32>,
    quotients: Seq<u32>,
    elements: Seq<u32>,
    scales: Seq<u32>,
    rows: int,
    columns: int,
    block: int,
)
    requires
        0 < rows,
        0 < columns,
        0 < block,
        rows % block == 0,
        columns % 8 == 0,
        forall|p: int|
            0 <= p < (rows / block) * columns ==> 0 < #[trigger] scales[p] < INFINITY_BITS && 7
                * scaled_value(scales[p]) <= scaled_magnitude(INFINITY_BITS - 1),
        forall|i: int| 0 <= i < rows * columns ==> -7 <= #[trigger] quants[i] <= 7,
        packed(words, scales_out, quants, scales, rows, columns, block),
        expanded_rounded(elements, words, scales_out, rows, columns, block),
        quantized_rounded(
            again_quants,
            wholes,
            rounded,
            quotients,
            elements,
            scales,
            rows,
            columns,
            block,
        ),
        packed(again, again_scales, again_quants, scales, rows, columns, block),
    ensures
        again == words,
        forall|p: int|
            0 <= p < (rows / block) * columns ==> #[trigger] again_scales[p] == scales_out[p],
{
    assert forall|i: int| 0 <= i < rows * columns implies #[trigger] again_quants[i] == quants[i] by {
        assert(-7 <= quants[i] <= 7);
        lemma_scale_place(i, rows, columns, block);
        lemma_q4_tensor_read_back(words, scales_out, quants, scales, rows, columns, block, i);
        let scale = scales[scale_place(i, columns, block)];
        assert(rounds_to(elements[i], quants[i] * scaled_value(scale), 1));
        assert(again_quants[i] == clamped(rounded[i]));
        lemma_value_survives_rounding(
            quants[i] as int,
            scale,
            elements[i],
            quotients[i],
            rounded[i],
            wholes[i],
        );
    }
    lemma_same_values_same_words(
        words,
        scales_out,
        quants,
        again,
        again_scales,
        again_quants,
        scales,
        rows,
        columns,
        block,
    );
}

} // verus!
