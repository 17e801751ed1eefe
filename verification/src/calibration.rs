//! Value ranges of tensors and the scales that follow from them.

use burn_std::BlockSize;
use vstd::prelude::*;

use crate::bits::{greater, magnitude_bits, pattern_greater, pattern_magnitude};
use crate::blocks::{
    block_counts, block_widths, blocks, first_fault, has_empty, tiles, BlocksPlan,
};
use crate::reject::Rejection;
use crate::scheme::{block_dims, fitted, QuantLevel, QuantScheme, QuantValue};
use crate::shape::{ceil_div, lemma_pair, product};

verus! {

/// How the range of values is found.
#[derive(Clone, Copy, Debug, PartialEq, Eq, Structural)]
pub enum Calibration {
    /// From the smallest to the largest value.
    MinMax,
    /// From minus to plus the mean of the absolute values.
    AbsMean,
}

/// How to find the value ranges of a tensor.
#[derive(Clone, Debug, PartialEq, Eq)]
pub struct RangePlan {
    /// What is reduced.
    pub calibration: Calibration,
    /// The blocks that each have a range, or `None` where the tensor has a single range.
    pub blocks: Option<BlockRanges>,
}

/// Ranges per block: each row of the rearranged tensor is reduced, and the results take the shape
/// of the parameters.
#[derive(Clone, Debug, PartialEq, Eq)]
pub struct BlockRanges {
    /// The rearrangement.
    pub plan: BlocksPlan,
    /// Shape of the lower and of the upper bounds.
    pub params_shape: Vec<usize>,
}

/// `burn_std::params_shape` for a block level: every dimension is divided by the width of the
/// block along it, rounded up. A block with an empty dimension is left out, since the outside
/// function divides by it.
#[verifier::external_body]
fn params_shape(shape: &Vec<usize>, block: &BlockSize) -> (dims: Vec<usize>)
    requires
        forall|d: int|
            0 <= d < shape@.len() ==> #[trigger] block_widths(*block, shape@.len())[d] > 0,
    ensures
        dims@.len() == shape@.len(),
        forall|d: int|
            0 <= d < shape@.len() ==> #[trigger] dims@[d] == ceil_div(
                shape@[d] as int,
                block_widths(*block, shape@.len())[d] as int,
            ),
{
    let shape = burn_std::Shape::from(shape.clone());
    burn_std::params_shape(&shape, burn_std::QuantLevel::Block(*block)).to_vec()
}

/// Plans the computation of value ranges: one for the tensor, or one per block.
pub fn compute_range(
    scheme: &QuantScheme,
    shape: &Vec<usize>,
    calibration: Calibration,
) -> (plan: Result<RangePlan, Rejection>)
    ensures
        match scheme.level {
            QuantLevel::Tensor => plan matches Ok(plan) && plan.calibration == calibration
                && plan.blocks is None,
            QuantLevel::BlockTensor(_) => plan == Err::<RangePlan, Rejection>(Rejection::TwoLevel),
            QuantLevel::Block(block) => {
                let widths = block_widths(block, shape@.len());
                match plan {
                    Ok(plan) => {
                        &&& tiles(shape@, widths)
                        &&& plan.calibration == calibration
                        &&& plan.blocks matches Some(ranges) && ranges.plan.makes_rows(
                            shape@,
                            widths,
                        ) && ranges.params_shape@ == block_counts(shape@, widths)
                    },
                    Err(Rejection::ZeroBlock) => has_empty(widths),
                    Err(Rejection::TooLarge) => tiles(shape@, widths) && (2 * shape@.len()
                        > usize::MAX || product(block_counts(shape@, widths)) > usize::MAX
                        || product(widths) > usize::MAX),
                    Err(reason) => !has_empty(widths) && reason == Rejection::UnevenBlock && first_fault(
                        shape@,
                        widths,
                        reason,
                    ),
                }
            },
        },
{
    match &scheme.level {
        QuantLevel::Tensor => Ok(RangePlan { calibration, blocks: None }),
        QuantLevel::BlockTensor(_) => Err(Rejection::TwoLevel),
        QuantLevel::Block(block) => {
            let rank: usize = shape.len();
            let dims = block.to_dim_vec(rank);
            let ghost widths = block_widths(*block, shape@.len());
            let mut d: usize = 0;
            while d < rank
                invariant
                    rank == shape@.len(),
                    dims@ == fitted(block_dims(*block), rank as nat),
                    dims@.len() == rank,
                    widths == block_widths(*block, shape@.len()),
                    d <= rank,
                    scheme.level == QuantLevel::Block(*block),
                    forall|c: int| 0 <= c < d ==> #[trigger] widths[c] > 0,
                decreases rank - d,
            {
                if dims[d] == 0 {
                    assert(widths[d as int] == 0);
                    assert(has_empty(widths));
                    return Err(Rejection::ZeroBlock);
                }
                d = d + 1;
            }
            let params = params_shape(shape, block);
            match blocks(shape, block) {
                Ok(plan) => {
                    proof {
                        assert forall|c: int| 0 <= c < shape@.len() implies #[trigger] params@[c]
                            == block_counts(shape@, widths)[c] by {
                            assert(widths[c] > 0);
                            let (x, w) = (shape@[c] as int, widths[c] as int);
                            vstd::arithmetic::div_mod::lemma_fundamental_div_mod(x, w);
                            assert(x + w - 1 == (x / w) * w + (w - 1)) by (nonlinear_arith)
                                requires
                                    x == w * (x / w) + x % w,
                                    x % w == 0,
                            ;
                            lemma_pair(x / w, w, w - 1);
                        }
                        assert(params@ =~= block_counts(shape@, widths));
                    }
                    Ok(
                        RangePlan {
                            calibration,
                            blocks: Some(BlockRanges { plan, params_shape: params }),
                        },
                    )
                },
                Err(reason) => Err(reason),
            }
        },
    }
}

/// Smallest and largest quantized value.
pub open spec fn value_range(value: QuantValue) -> (int, int) {
    match value {
        QuantValue::Q8F => (-128, 127),
        QuantValue::Q4F => (-8, 7),
        QuantValue::Q2F => (-2, 1),
        QuantValue::Q8S => (-127, 127),
        QuantValue::Q4S => (-7, 7),
        QuantValue::Q2S => (-1, 1),
        QuantValue::E4M3 => (-448, 448),
        QuantValue::E5M2 => (-57344, 57344),
        QuantValue::E2M1 => (-6, 6),
    }
}

impl QuantValue {
    /// Smallest and largest quantized value.
    pub fn range(&self) -> (bounds: (i32, i32))
        ensures
            bounds.0 == value_range(*self).0,
            bounds.1 == value_range(*self).1,
    {
        match self {
            QuantValue::Q8F => (-128, 127),
            QuantValue::Q4F => (-8, 7),
            QuantValue::Q2F => (-2, 1),
            QuantValue::Q8S => (-127, 127),
            QuantValue::Q4S => (-7, 7),
            QuantValue::Q2S => (-1, 1),
            QuantValue::E4M3 => (-448, 448),
            QuantValue::E5M2 => (-57344, 57344),
            QuantValue::E2M1 => (-6, 6),
        }
    }
}

/// What the scales are computed from: each scale is twice its `alpha`, divided by `span`.
#[derive(Clone, Debug, PartialEq, Eq)]
pub struct QParams {
    /// Patterns of the half-widths of the symmetric input ranges.
    pub alphas: Vec<u32>,
    /// Width of the quantized range.
    pub span: i32,
}

/// Half-width of the symmetric range that covers both bounds: the absolute value of the upper one
/// where that is greater, else the absolute value of the lower one.
pub open spec fn half_width(lower: u32, upper: u32) -> int {
    if greater(magnitude_bits(upper) as u32, magnitude_bits(lower) as u32) {
        magnitude_bits(upper)
    } else {
        magnitude_bits(lower)
    }
}

/// Prepares the scales for input ranges whose bounds are given as single-precision patterns.
pub fn compute_q_params(scheme: &QuantScheme, min: &Vec<u32>, max: &Vec<u32>) -> (params: Result<
    QParams,
    Rejection,
>)
    ensures
        match params {
            Ok(params) => {
                &&& !(scheme.level is BlockTensor)
                &&& min@.len() == max@.len()
                &&& params.alphas@.len() == min@.len()
                &&& forall|i: int|
                    0 <= i < min@.len() ==> #[trigger] params.alphas@[i] == half_width(
                        min@[i],
                        max@[i],
                    )
                &&& params.span == value_range(scheme.value).1 - value_range(scheme.value).0
            },
            Err(Rejection::TwoLevel) => scheme.level is BlockTensor,
            Err(reason) => !(scheme.level is BlockTensor) && reason == Rejection::ShapeMismatch
                && min@.len() != max@.len(),
        },
{
    if let QuantLevel::BlockTensor(_) = scheme.level {
        return Err(Rejection::TwoLevel);
    }
    if min.len() != max.len() {
        return Err(Rejection::ShapeMismatch);
    }
    let (lowest, highest) = scheme.value.range();
    let mut alphas: Vec<u32> = Vec::new();
    let mut i: usize = 0;
    while i < min.len()
        invariant
            i <= min@.len(),
            min@.len() == max@.len(),
            alphas@.len() == i,
            forall|j: int|
                0 <= j < i ==> #[trigger] alphas@[j] == half_width(min@[j], max@[j]),
        decreases min@.len() - i,
    {
        let min_abs: u32 = pattern_magnitude(min[i]);
        let max_abs: u32 = pattern_magnitude(max[i]);
        if pattern_greater(max_abs, min_abs) {
            alphas.push(max_abs);
        } else {
            alphas.push(min_abs);
        }
        i = i + 1;
    }
    Ok(QParams { alphas, span: highest - lowest })
}

/// Without a NaN the half-width is at least the absolute value of each bound, and is one of them:
/// the symmetric range is the smallest that covers the input range.
pub proof fn lemma_half_width_covers(lower: u32, upper: u32)
    requires
        !crate::bits::is_nan(lower),
        !crate::bits::is_nan(upper),
    ensures
        half_width(lower, upper) >= magnitude_bits(lower),
        half_width(lower, upper) >= magnitude_bits(upper),
        half_width(lower, upper) == magnitude_bits(lower) || half_width(lower, upper)
            == magnitude_bits(upper),
{
}

} // verus!
