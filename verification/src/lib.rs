//! Fused inference operations for transformers on Metal: which kernel serves an operation, how it is
//! launched, which elements each of its threads reads and writes, and how packed weights are laid
//! out.
//!
//! - [`ops`] are the operations and [`backend`] plans their fused kernels, by the [`rules`] that say
//!   what is accepted; [`plan`] holds the plans, [`reject`] lists the reasons for a refusal, and
//!   [`accepted`] says what acceptance guarantees.
//! - [`elementwise`], [`attention`], [`gemv`] and [`embedding`] say what the threads of each kernel
//!   do, [`products`] and [`softmax`] what products and attention amount to in [`exact`] arithmetic.
//! - [`bitonic`], [`ranking`] and [`sampling`] rank logits and pick a token.
//! - [`scheme`], [`blocks`], [`calibration`], [`packing`], [`quantize`] and [`dequantize`] are
//!   quantization: schemes, blocks, ranges, words, and the way there and back, which [`rounding`]
//!   does not disturb.
//! - [`shape`], [`tensor`] and [`bits`] are the ground: addresses, allocations and launches, and
//!   real numbers as bit patterns.
//! - [`laws`] say, over all of these, what callers can count on.
//!
//! Real numbers enter as bit patterns or not at all: kernels compute with them, the library decides
//! on integers. Laws on what kernels compute are stated in exact arithmetic, and for packing also
//! with single-precision rounding.

pub mod accepted;
pub mod attention;
pub mod backend;
pub mod bitonic;
pub mod bits;
pub mod blocks;
pub mod calibration;
pub mod dequantize;
pub mod elementwise;
pub mod embedding;
pub mod exact;
pub mod gemv;
pub mod laws;
pub mod ops;
pub mod packing;
pub mod plan;
pub mod products;
pub mod quantize;
pub mod ranking;
pub mod reject;
pub mod rounding;
pub mod rules;
pub mod sampling;
pub mod scheme;
pub mod shape;
pub mod softmax;
pub mod tensor;
