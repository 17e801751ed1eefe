//! Blocks, value ranges and what scales are computed from.

use burn_std::BlockSize;
use vstd::prelude::*;

use crate::bits::{is_nan, magnitude_bits};
use crate::blocks::{block_widths, blocks, lemma_one_value_per_block, BlocksPlan};
use crate::calibration::{
    compute_q_params, compute_range, Calibration, QParams, RangePlan,
};
use crate::reject::Rejection;
use crate::scheme::{block_dims, QuantLevel, QuantScheme, QuantValue};
use crate::shape::product;

verus! {

/// Width of a block along dimension `d` of a tensor. A block with fewer dimensions than the tensor is
/// one wide along the first ones, and of one with more the first ones count.
pub open spec fn width_along(dims: Seq<u8>, rank: int, d: int) -> int {
    if dims.len() >= rank {
        dims[d] as int
    } else if d < rank - dims.len() {
        1
    } else {
        dims[d - (rank - dims.len())] as int
    }
}

// What the widths of a block are.
proof fn lemma_widths(block: BlockSize, rank: nat)
    ensures
        block_widths(block, rank).len() == rank,
        forall|d: int|
            0 <= d < rank ==> #[trigger] block_widths(block, rank)[d] == width_along(
                block_dims(block),
                rank as int,
                d,
            ),
{
}

/// Every dimension is split into blocks of the block's width, all counts come before all widths, and
/// the rows that result hold all elements.
pub open spec fn splits_into_rows(plan: BlocksPlan, shape: Seq<usize>, dims: Seq<u8>) -> bool {
    let rank = shape.len() as int;
    &&& plan.split_shape@.len() == 2 * rank
    &&& plan.axes@.len() == 2 * rank
    &&& forall|d: int|
        0 <= d < rank ==> (#[trigger] plan.split_shape@[2 * d + 1]) == width_along(dims, rank, d)
            && plan.split_shape@[2 * d] * plan.split_shape@[2 * d + 1] == shape[d]
    &&& forall|d: int| 0 <= d < rank ==> #[trigger] plan.axes@[d] == 2 * d
    &&& forall|d: int| rank <= d < 2 * rank ==> #[trigger] plan.axes@[d] == 2 * (d - rank) + 1
    &&& plan.block_elems == product(Seq::new(shape.len(), |d: int| width_along(dims, rank, d) as usize))
    &&& plan.num_blocks * plan.block_elems == product(shape)
}

/// Some dimension is not a multiple of the width of the block.
pub open spec fn is_uneven(shape: Seq<usize>, dims: Seq<u8>) -> bool {
    exists|d: int|
        0 <= d < shape.len() && width_along(dims, shape.len() as int, d) > 0
            && #[trigger] shape[d] as int % width_along(dims, shape.len() as int, d) != 0
}

/// Some width of the block is zero.
pub open spec fn is_void(shape: Seq<usize>, dims: Seq<u8>) -> bool {
    exists|d: int|
        0 <= d < shape.len() && #[trigger] width_along(dims, shape.len() as int, d) == 0
}

/// The blocks, or the elements of one, are too many to count.
pub open spec fn is_uncountable(shape: Seq<usize>, dims: Seq<u8>) -> bool {
    let rank = shape.len();
    ||| product(Seq::new(rank, |d: int| width_along(dims, rank as int, d) as usize)) > usize::MAX
    ||| product(
        Seq::new(rank, |d: int| (shape[d] as int / width_along(dims, rank as int, d)) as usize),
    ) > usize::MAX
}

// A plan of rows, in terms of the block.
proof fn lemma_rows_planned(plan: BlocksPlan, shape: Seq<usize>, block: BlockSize)
    requires
        crate::blocks::tiles(shape, block_widths(block, shape.len())),
        plan.makes_rows(shape, block_widths(block, shape.len())),
        2 * shape.len() <= usize::MAX,
    ensures
        splits_into_rows(plan, shape, block_dims(block)),
        forall|d: int|
            0 <= d < shape.len() ==> #[trigger] width_along(
                block_dims(block),
                shape.len() as int,
                d,
            ) > 0 && shape[d] as int % width_along(block_dims(block), shape.len() as int, d) == 0,
{
    let widths = block_widths(block, shape.len());
    lemma_widths(block, shape.len());
    lemma_one_value_per_block(shape, widths, plan);
    assert(widths =~= Seq::new(
        shape.len(),
        |d: int| width_along(block_dims(block), shape.len() as int, d) as usize,
    ));
    assert forall|d: int| 0 <= d < shape.len() implies (#[trigger] plan.split_shape@[2 * d + 1])
        == width_along(block_dims(block), shape.len() as int, d) && plan.split_shape@[2 * d]
        * plan.split_shape@[2 * d + 1] == shape[d] by {
        assert(widths[d] > 0 && shape[d] as int % widths[d] as int == 0);
        let (n, w) = (shape[d] as int, widths[d] as int);
        vstd::arithmetic::div_mod::lemma_fundamental_div_mod(n, w);
        assert((n / w) * w == n) by (nonlinear_arith)
            requires
                n == w * (n / w) + n % w,
                n % w == 0,
        ;
        assert((2 * d) / 2 == d && (2 * d + 1) / 2 == d);
        assert(plan.split_shape@[2 * d] == n / w);
    }
    assert forall|d: int| 0 <= d < shape.len() implies #[trigger] width_along(
        block_dims(block),
        shape.len() as int,
        d,
    ) > 0 && shape[d] as int % width_along(block_dims(block), shape.len() as int, d) == 0 by {
        assert(widths[d] > 0);
    }
}

// Blocks that tile a tensor but cannot be counted, in terms of the block.
proof fn lemma_too_many_blocks(shape: Seq<usize>, block: BlockSize)
    requires
        crate::blocks::tiles(shape, block_widths(block, shape.len())),
        product(crate::blocks::block_counts(shape, block_widths(block, shape.len()))) > usize::MAX
            || product(block_widths(block, shape.len())) > usize::MAX,
    ensures
        is_uncountable(shape, block_dims(block)),
        !is_uneven(shape, block_dims(block)),
        !is_void(shape, block_dims(block)),
{
    let (rank, dims) = (shape.len() as int, block_dims(block));
    let widths = block_widths(block, shape.len());
    lemma_widths(block, shape.len());
    assert forall|d: int| 0 <= d < rank implies #[trigger] width_along(dims, rank, d) > 0
        && shape[d] as int % width_along(dims, rank, d) == 0 by {
        assert(widths[d] > 0);
    }
    assert(widths =~= Seq::new(shape.len(), |d: int| width_along(dims, rank, d) as usize));
    assert(crate::blocks::block_counts(shape, widths) =~= Seq::new(
        shape.len(),
        |d: int| (shape[d] as int / width_along(dims, rank, d)) as usize,
    ));
}

/// A tensor is rearranged into one row per block; it is refused only where the blocks do not tile it,
/// or where it is too large to count.
pub proof fn lemma_blocks(
    shape: Vec<usize>,
    block: BlockSize,
    answer: Result<BlocksPlan, Rejection>,
)
    requires
        call_ensures(blocks, (&shape, &block), answer),
        2 * shape@.len() <= usize::MAX,
    ensures
        match answer {
            Ok(plan) => splits_into_rows(plan, shape@, block_dims(block)) && !is_uneven(
                shape@,
                block_dims(block),
            ) && !is_void(shape@, block_dims(block)),
            Err(Rejection::ZeroBlock) => is_void(shape@, block_dims(block)),
            Err(Rejection::UnevenBlock) => is_uneven(shape@, block_dims(block)),
            Err(Rejection::TooLarge) => !is_uneven(shape@, block_dims(block)) && !is_void(
                shape@,
                block_dims(block),
            ) && is_uncountable(shape@, block_dims(block)),
            Err(_) => false,
        },
{
    let (s, dims) = (shape@, block_dims(block));
    let rank = s.len() as int;
    let widths = block_widths(block, s.len());
    lemma_widths(block, s.len());
    match answer {
        Ok(plan) => {
            lemma_rows_planned(plan, s, block);
        },
        Err(Rejection::TooLarge) => {
            lemma_too_many_blocks(s, block);
        },
        Err(reason) => {
            let d = choose|d: int|
                0 <= d < s.len() && #[trigger] crate::blocks::fault(s, widths, d) == Some(reason)
                    && forall|c: int|
                    0 <= c < d ==> #[trigger] crate::blocks::fault(s, widths, c) is None;
            assert(widths[d] == width_along(dims, rank, d));
            if reason == Rejection::ZeroBlock {
                assert(width_along(dims, rank, d) == 0);
            } else {
                assert(s[d] as int % width_along(dims, rank, d) != 0);
            }
        },
    }
}

/// A tensor has one range, or one per block of the scheme, found as the caller asks: the bounds take
/// the shape of the tensor divided by the block.
pub proof fn lemma_compute_range(
    scheme: QuantScheme,
    shape: Vec<usize>,
    calibration: Calibration,
    answer: Result<RangePlan, Rejection>,
)
    requires
        call_ensures(compute_range, (&scheme, &shape, calibration), answer),
        2 * shape@.len() <= usize::MAX,
    ensures
        match scheme.level {
            QuantLevel::Tensor => answer matches Ok(plan) && plan.calibration == calibration
                && plan.blocks is None,
            QuantLevel::BlockTensor(_) => answer == Err::<RangePlan, Rejection>(
                Rejection::TwoLevel,
            ),
            QuantLevel::Block(block) => {
                let dims = block_dims(block);
                match answer {
                    Ok(plan) => {
                        &&& plan.calibration == calibration
                        &&& plan.blocks matches Some(ranges)
                        &&& splits_into_rows(ranges.plan, shape@, dims)
                        &&& ranges.params_shape@.len() == shape@.len()
                        &&& forall|d: int|
                            0 <= d < shape@.len() ==> (#[trigger] ranges.params_shape@[d])
                                * width_along(dims, shape@.len() as int, d) == shape@[d]
                    },
                    Err(Rejection::ZeroBlock) => is_void(shape@, dims),
                    Err(Rejection::UnevenBlock) => is_uneven(shape@, dims),
                    Err(Rejection::TooLarge) => !is_uneven(shape@, dims) && !is_void(shape@, dims)
                        && is_uncountable(shape@, dims),
                    Err(_) => false,
                }
            },
        },
{
    if let QuantLevel::Block(block) = scheme.level {
        let (s, dims) = (shape@, block_dims(block));
        let rank = s.len() as int;
        let widths = block_widths(block, s.len());
        lemma_widths(block, s.len());
        match answer {
            Ok(plan) => {
                if let Some(ranges) = plan.blocks {
                    lemma_rows_planned(ranges.plan, s, block);
                    assert forall|d: int| 0 <= d < rank implies (#[trigger] ranges.params_shape@[d])
                        * width_along(dims, rank, d) == s[d] by {
                        assert(width_along(dims, rank, d) > 0);
                        let (n, w) = (s[d] as int, widths[d] as int);
                        vstd::arithmetic::div_mod::lemma_fundamental_div_mod(n, w);
                        assert((n / w) * w == n) by (nonlinear_arith)
                            requires
                                n == w * (n / w) + n % w,
                                n % w == 0,
                        ;
                    }
                }
            },
            Err(Rejection::ZeroBlock) => {
                let d = choose|d: int| 0 <= d < widths.len() && #[trigger] widths[d] == 0;
                assert(width_along(dims, rank, d) == 0);
            },
            Err(Rejection::TooLarge) => {
                lemma_too_many_blocks(s, block);
            },
            Err(reason) => {
                let d = choose|d: int|
                    0 <= d < s.len() && #[trigger] crate::blocks::fault(s, widths, d) == Some(reason)
                        && forall|c: int|
                        0 <= c < d ==> #[trigger] crate::blocks::fault(s, widths, c) is None;
                assert(widths[d] == width_along(dims, rank, d));
                assert(s[d] as int % width_along(dims, rank, d) != 0);
            },
        }
    }
}

/// Integer values use all patterns of their bits but, where the range is symmetric, the lowest; values
/// in floating point reach to the largest finite one.
pub proof fn lemma_value_ranges(value: QuantValue, bounds: (i32, i32))
    requires
        call_ensures(QuantValue::range, (&value,), bounds),
    ensures
        bounds.1 == (match value {
            QuantValue::Q8F | QuantValue::Q8S => 0x7fint,
            QuantValue::Q4F | QuantValue::Q4S => 0x7,
            QuantValue::Q2F | QuantValue::Q2S => 0x1,
            QuantValue::E4M3 => 448,
            QuantValue::E5M2 => 57344,
            QuantValue::E2M1 => 6,
        }),
        value is Q8F || value is Q4F || value is Q2F ==> bounds.0 == -bounds.1 - 1,
        !(value is Q8F || value is Q4F || value is Q2F) ==> bounds.0 == -bounds.1,
{
}

/// Scales come from the greater of the absolute values of both bounds, and from the width of the range
/// of the scheme's values.
pub proof fn lemma_compute_q_params(
    scheme: QuantScheme,
    min: Vec<u32>,
    max: Vec<u32>,
    bounds: (i32, i32),
    answer: Result<QParams, Rejection>,
)
    requires
        call_ensures(compute_q_params, (&scheme, &min, &max), answer),
        call_ensures(QuantValue::range, (&scheme.value,), bounds),
    ensures
        match answer {
            Ok(params) => {
                &&& !(scheme.level is BlockTensor)
                &&& params.span == bounds.1 - bounds.0
                &&& params.alphas@.len() == min@.len() && min@.len() == max@.len()
                &&& forall|i: int|
                    0 <= i < min@.len() ==> {
                        let alpha = #[trigger] params.alphas@[i] as int;
                        let (low, high) = (magnitude_bits(min@[i]), magnitude_bits(max@[i]));
                        &&& !is_nan(min@[i]) && !is_nan(max@[i]) ==> alpha == (if low > high {
                            low
                        } else {
                            high
                        })
                        &&& is_nan(min@[i]) || is_nan(max@[i]) ==> alpha == low
                    }
            },
            Err(Rejection::TwoLevel) => scheme.level is BlockTensor,
            Err(Rejection::ShapeMismatch) => !(scheme.level is BlockTensor) && min@.len()
                != max@.len(),
            Err(_) => false,
        },
{
}

} // verus!
