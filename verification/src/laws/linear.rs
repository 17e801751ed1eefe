//! Linear layers: which columns are computed, by which kernel and with which scales.

use vstd::prelude::*;

use crate::accepted::lemma_word_groups;
use crate::backend::{gemv_output, gemv_prefix_output, CubeBackend, MetalTransformerBackend};
use crate::laws::counts::{
    has_room, is_large, lemma_created_is_counted, lemma_elements_of_three, lemma_grouped_count,
    lemma_small_tensors_fit,
};
use crate::laws::schemes::{lemma_q4_block, lemma_q8_block, q4_in_columns, q8_in_rows};
use crate::ops::{linear, linear_prefix, LinearPlan};
use crate::plan::{Kernel, Plan};
use crate::reject::Rejection;
use crate::rules::{
    gemv_bias_planned, gemv_planned, prefix_rejection, product_shape, q4_gemv_bias_planned,
    q4_gemv_planned, q8_gemv_bias_planned, q8_gemv_planned, word_products,
};
use crate::scheme::{lemma_gemv_schemes_disjoint, DType};
use crate::shape::{ceil_div, product};
use crate::tensor::{row_major, Allocation, QuantParts, QuantTensor, TensorInfo};

verus! {

/// The tensor is without gaps, on the device and of the element type of `input`, with `columns` entries
/// for each of its rows.
pub open spec fn holds_products(output: TensorInfo, input: TensorInfo, columns: int) -> bool {
    &&& output.device == input.device
    &&& output.dtype == input.dtype
    &&& output.shape@.len() == 3
    &&& output.shape@[0] == input.shape@[0]
    &&& output.shape@[1] == input.shape@[1]
    &&& output.shape@[2] == columns
    &&& row_major(output.strides@, output.shape@)
}

/// Rows of an input of three dimensions.
pub open spec fn rows_of(input: TensorInfo) -> int {
    input.shape@[0] * input.shape@[1]
}

/// A product of `columns` columns would be too large.
pub open spec fn product_is_large(input: TensorInfo, columns: int) -> bool {
    is_large(seq![input.shape@[0], input.shape@[1], columns as usize], input.dtype)
}

/// Why an input of three dimensions has no product with the leading columns of a matrix, and else the
/// tensor for it.
pub open spec fn product_prepared(
    answer: Result<Allocation, Rejection>,
    input: TensorInfo,
    weight: TensorInfo,
    columns: int,
) -> bool {
    let (i, w) = (input.shape@, weight.shape@);
    match answer {
        Ok(output) => {
            &&& i.len() == 3 && w.len() == 2 && w[0] == i[2]
            &&& 0 < columns <= w[1]
            &&& holds_products(output.tensor, input, columns)
            &&& has_room(output)
        },
        Err(Rejection::WrongRank) => i.len() != 3 || w.len() != 2,
        Err(Rejection::ShapeMismatch) => i.len() == 3 && w.len() == 2 && w[0] != i[2],
        Err(Rejection::OutOfRange) => i.len() == 3 && w.len() == 2 && w[0] == i[2] && (columns == 0
            || columns > w[1]),
        Err(Rejection::TooLarge) => columns_exist(input, weight, columns) && product_is_large(
            input,
            columns,
        ),
        Err(_) => false,
    }
}

// What `prefix_rejection` says, in terms of the operands.
proof fn lemma_prefix(input: TensorInfo, weight: TensorInfo, columns: int)
    requires
        0 <= columns <= usize::MAX,
    ensures
        prefix_rejection(input, weight, columns) is None ==> {
            &&& input.shape@.len() == 3 && weight.shape@.len() == 2
            &&& weight.shape@[0] == input.shape@[2]
            &&& 0 < columns <= weight.shape@[1]
            &&& product(product_shape(input.shape@, columns)) <= usize::MAX
        },
        match prefix_rejection(input, weight, columns) {
            None => true,
            Some(Rejection::WrongRank) => input.shape@.len() != 3 || weight.shape@.len() != 2,
            Some(Rejection::ShapeMismatch) => input.shape@.len() == 3 && weight.shape@.len() == 2
                && weight.shape@[0] != input.shape@[2],
            Some(Rejection::OutOfRange) => input.shape@.len() == 3 && weight.shape@.len() == 2
                && weight.shape@[0] == input.shape@[2] && (columns == 0 || columns
                > weight.shape@[1]),
            Some(Rejection::TooLarge) => columns_exist(input, weight, columns) && product_is_large(
                input,
                columns,
            ),
            Some(_) => false,
        },
        input.shape@.len() == 3 ==> product(product_shape(input.shape@, columns)) == rows_of(input)
            * columns,
        input.shape@.len() == 3 ==> rows_of(input) >= 0,
{
    if input.shape@.len() == 3 {
        let shape = product_shape(input.shape@, columns);
        assert(shape =~= seq![input.shape@[0], input.shape@[1], columns as usize]);
        lemma_elements_of_three(shape);
        if !is_large(shape, input.dtype) {
            lemma_small_tensors_fit(shape, input.dtype);
        }
        if crate::tensor::allocatable(shape, input.dtype) {
            lemma_created_is_counted(shape, input.dtype);
        }
    }
}

/// The tensor for the product with leading columns has those columns.
pub proof fn lemma_gemv_prefix_output(
    input: TensorInfo,
    weight: TensorInfo,
    columns: usize,
    answer: Result<Allocation, Rejection>,
)
    requires
        call_ensures(gemv_prefix_output, (&input, &weight, columns), answer),
    ensures
        product_prepared(answer, input, weight, columns as int),
{
    lemma_prefix(input, weight, columns as int);
}

/// The tensor for the product with all columns has them all.
pub proof fn lemma_gemv_output(
    input: TensorInfo,
    weight: TensorInfo,
    answer: Result<Allocation, Rejection>,
)
    requires
        call_ensures(gemv_output, (&input, &weight), answer),
    ensures
        if weight.shape@.len() < 2 {
            answer == Err::<Allocation, Rejection>(Rejection::WrongRank)
        } else {
            product_prepared(answer, input, weight, weight.shape@[1] as int)
        },
{
    if weight.shape@.len() >= 2 {
        lemma_prefix(input, weight, weight.shape@[1] as int);
    }
}

/// Input and matrix fit together, and so many columns can be computed.
pub open spec fn columns_exist(input: TensorInfo, weight: TensorInfo, columns: int) -> bool {
    &&& input.shape@.len() == 3
    &&& weight.shape@.len() == 2
    &&& weight.shape@[0] == input.shape@[2]
    &&& 0 < columns <= weight.shape@[1]
}

/// One group of thirty-two lanes for each of `groups` pieces of work.
pub open spec fn one_group_each(plan: Plan, groups: int) -> bool {
    &&& plan.launch.threads == 32
    &&& plan.launch.cubes == groups % 0x1_0000_0000
    &&& groups < 0x1_0000_0000 ==> plan.launch.cubes == groups
}

/// The dense product computes the columns asked for, with a group for every output element; it is
/// refused for these reasons only.
pub open spec fn dense_served(
    answer: Result<Plan, Rejection>,
    input: TensorInfo,
    weight: TensorInfo,
    columns: int,
    bias: Option<TensorInfo>,
) -> bool {
    let apart = input.device != weight.device || (bias matches Some(bias) && input.device
        != bias.device);
    let joined = !apart && (input.dtype is QFloat || (input.dtype == weight.dtype && (
    bias matches Some(bias) ==> input.dtype == bias.dtype)));
    let ranks = input.shape@.len() == 3 && weight.shape@.len() == 2;
    match answer {
        Ok(plan) => {
            &&& joined
            &&& columns_exist(input, weight, columns)
            &&& match (plan.kernel, bias) {
                (Kernel::Gemv { output_width }, None) => output_width == columns,
                (Kernel::GemvBias, Some(bias)) => columns == weight.shape@[1] && product(
                    bias.shape@,
                ) == columns && (input.dtype is QFloat || input.dtype == bias.dtype),
                _ => false,
            }
            &&& one_group_each(plan, rows_of(input) * columns)
            &&& holds_products(plan.output.tensor, input, columns)
            &&& has_room(plan.output)
        },
        Err(Rejection::DeviceMismatch) => apart,
        Err(Rejection::DTypeMismatch) => !apart && (input.dtype != weight.dtype || (
        bias matches Some(bias) && input.dtype != bias.dtype)),
        Err(Rejection::WrongRank) => joined && !ranks,
        Err(Rejection::ShapeMismatch) => joined && ranks && (weight.shape@[0] != input.shape@[2] || (
        columns_exist(input, weight, columns) && (bias matches Some(bias) && product(bias.shape@)
            != columns))),
        Err(Rejection::OutOfRange) => joined && ranks && weight.shape@[0] == input.shape@[2] && (
        columns == 0 || columns > weight.shape@[1]),
        Err(Rejection::TooLarge) => joined && columns_exist(input, weight, columns)
            && product_is_large(input, columns),
        Err(_) => false,
    }
}

// Groups that fit one word are counted right.
proof fn lemma_group_count(plan: Plan, groups: int)
    requires
        0 <= groups,
        plan.launch == crate::tensor::grouped(groups),
    ensures
        one_group_each(plan, groups),
{
    lemma_grouped_count(groups);
}

proof fn lemma_dense(
    answer: Result<Plan, Rejection>,
    input: TensorInfo,
    weight: TensorInfo,
    columns: u32,
)
    requires
        gemv_planned(answer, input, weight, columns),
    ensures
        dense_served(answer, input, weight, columns as int, None),
{
    lemma_prefix(input, weight, columns as int);
    if let Ok(plan) = answer {
        lemma_group_count(plan, rows_of(input) * columns);
    }
}

proof fn lemma_dense_bias(
    answer: Result<Plan, Rejection>,
    input: TensorInfo,
    weight: TensorInfo,
    bias: TensorInfo,
)
    requires
        gemv_bias_planned(answer, input, weight, bias),
    ensures
        dense_served(answer, input, weight, weight.shape@[1] as int, Some(bias)),
{
    let columns = weight.shape@[1] as int;
    lemma_prefix(input, weight, columns);
    if let Ok(plan) = answer {
        lemma_group_count(plan, rows_of(input) * columns);
    }
}

/// The dense product by the fused kernel.
pub proof fn lemma_fused_gemv(
    input: TensorInfo,
    weight: TensorInfo,
    columns: u32,
    answer: Result<Plan, Rejection>,
)
    requires
        call_ensures(CubeBackend::fused_gemv, (&input, &weight, columns), answer),
    ensures
        dense_served(answer, input, weight, columns as int, None),
{
    lemma_dense(answer, input, weight, columns);
}

/// The dense product with a bias by the fused kernel.
pub proof fn lemma_fused_gemv_bias(
    input: TensorInfo,
    weight: TensorInfo,
    bias: TensorInfo,
    answer: Result<Plan, Rejection>,
)
    requires
        call_ensures(CubeBackend::fused_gemv_bias, (&input, &weight, &bias), answer),
    ensures
        dense_served(answer, input, weight, weight.shape@[1] as int, Some(bias)),
{
    lemma_dense_bias(answer, input, weight, bias);
}

/// The scheme of a quantized tensor is one with this block.
pub open spec fn has_q4_block(tensor: TensorInfo, block: int) -> bool {
    tensor.dtype matches DType::QFloat(scheme) && q4_in_columns(scheme, block)
}

/// The scheme of a quantized tensor is one with this block.
pub open spec fn has_q8_block(tensor: TensorInfo, block: int) -> bool {
    tensor.dtype matches DType::QFloat(scheme) && q8_in_rows(scheme, block)
}

/// The first two dimensions of a tensor.
pub open spec fn leads(tensor: TensorInfo, rows: int, columns: int) -> bool {
    tensor.shape@.len() >= 2 && tensor.shape@[0] == rows && tensor.shape@[1] == columns
}

/// Words of eight columns, and a scale for every column of each `block` rows.
pub open spec fn q4_parts_fit(parts: QuantParts, weight: TensorInfo, block: int) -> bool {
    let (rows, columns) = (weight.shape@[0] as int, weight.shape@[1] as int);
    &&& parts.values.dtype is U32
    &&& leads(parts.values, rows, columns / 8)
    &&& parts.scales.dtype is F32
    &&& leads(parts.scales, rows / block, columns)
}

/// Words of four columns, and a scale for every row of each `block` columns, the last of which may be
/// fewer.
pub open spec fn q8_parts_fit(parts: QuantParts, weight: TensorInfo, block: int) -> bool {
    let (rows, columns) = (weight.shape@[0] as int, weight.shape@[1] as int);
    let blocks = parts.scales.shape@[1] as int;
    &&& parts.values.dtype is U32
    &&& leads(parts.values, rows, columns / 4)
    &&& parts.scales.dtype is F32
    &&& leads(parts.scales, rows, blocks)
    &&& blocks * block >= columns
    &&& (blocks - 1) * block < columns
}

/// A packed product is refused for these reasons, besides those that depend on the scheme.
pub open spec fn packed_refused(
    reason: Rejection,
    input: TensorInfo,
    weight: QuantTensor,
    columns: int,
    bias: Option<TensorInfo>,
) -> bool {
    let apart = input.device != weight.info.device || (bias matches Some(bias) && input.device
        != bias.device);
    let joined = !apart && (bias matches Some(bias) ==> input.dtype is QFloat || input.dtype
        == bias.dtype);
    let ranks = input.shape@.len() == 3 && weight.info.shape@.len() == 2;
    let computable = joined && weight.info.dtype is QFloat && columns_exist(
        input,
        weight.info,
        columns,
    );
    match reason {
        Rejection::DeviceMismatch => apart,
        Rejection::DTypeMismatch => !apart && (bias matches Some(bias) && input.dtype != bias.dtype),
        Rejection::NotQuantized => joined && !(weight.info.dtype is QFloat),
        Rejection::WrongRank => joined && weight.info.dtype is QFloat && !ranks,
        Rejection::ShapeMismatch => joined && weight.info.dtype is QFloat && ranks && (
        weight.info.shape@[0] != input.shape@[2] || (computable && (bias matches Some(bias)
            && product(bias.shape@) != columns))),
        Rejection::OutOfRange => joined && weight.info.dtype is QFloat && ranks
            && weight.info.shape@[0] == input.shape@[2] && (columns == 0 || columns
            > weight.info.shape@[1]),
        Rejection::MissingParts => computable && weight.parts is None,
        Rejection::EmptyDimension => computable && weight.parts is Some && weight.info.shape@[0]
            == 0,
        Rejection::TooLarge => computable && (product_is_large(input, columns) || product(
            input.shape@,
        ) > usize::MAX),
        _ => false,
    }
}

/// What a packed product needs besides its parts.
pub open spec fn packed_accepted(
    input: TensorInfo,
    weight: QuantTensor,
    columns: int,
    bias: Option<TensorInfo>,
) -> bool {
    &&& input.device == weight.info.device
    &&& columns_exist(input, weight.info, columns)
    &&& weight.info.shape@[0] > 0
    &&& product(input.shape@) <= usize::MAX
    &&& bias matches Some(bias) ==> {
        &&& input.device == bias.device
        &&& input.dtype is QFloat || input.dtype == bias.dtype
        &&& columns == weight.info.shape@[1]
        &&& product(bias.shape@) == columns
    }
}

/// Columns that a kernel computes and the block that it goes by, where it is the four-bit product with
/// or without a bias.
pub open spec fn q4_arguments(kernel: Kernel, biased: bool) -> Option<(int, int)> {
    match (kernel, biased) {
        (Kernel::Q4Gemv { output_width, block_size }, false) => Some(
            (output_width as int, block_size as int),
        ),
        (Kernel::Q4GemvBias { output_width, block_size }, true) => Some(
            (output_width as int, block_size as int),
        ),
        _ => None,
    }
}

/// Columns that a kernel computes and the block that it goes by, where it is the eight-bit product
/// with or without a bias.
pub open spec fn q8_arguments(kernel: Kernel, biased: bool) -> Option<(int, int)> {
    match (kernel, biased) {
        (Kernel::Q8Gemv { output_width, block_size }, false) => Some(
            (output_width as int, block_size as int),
        ),
        (Kernel::Q8GemvBias { output_width, block_size }, true) => Some(
            (output_width as int, block_size as int),
        ),
        _ => None,
    }
}

/// The four-bit product computes the columns asked for and goes by the block of the weight's scheme,
/// with a group for every word of eight columns; it is refused for these reasons only.
pub open spec fn q4_served(
    answer: Result<Plan, Rejection>,
    input: TensorInfo,
    weight: QuantTensor,
    columns: int,
    bias: Option<TensorInfo>,
) -> bool {
    match answer {
        Ok(plan) => {
            &&& packed_accepted(input, weight, columns, bias)
            &&& q4_arguments(plan.kernel, bias is Some) matches Some((width, block))
            &&& width == columns % 0x1_0000_0000
            &&& columns <= u32::MAX ==> width == columns
            &&& has_q4_block(weight.info, block)
            &&& weight.info.shape@[0] as int % block == 0
            &&& columns % 8 == 0
            &&& weight.parts matches Some(parts) && q4_parts_fit(parts, weight.info, block)
            &&& one_group_each(plan, rows_of(input) * (columns / 8))
            &&& holds_products(plan.output.tensor, input, columns)
            &&& has_room(plan.output)
        },
        Err(Rejection::UnsupportedScheme) => input.device == weight.info.device
            && weight.info.dtype is QFloat && forall|block: int|
            !#[trigger] has_q4_block(weight.info, block),
        Err(Rejection::Misaligned) => input.device == weight.info.device && columns_exist(
            input,
            weight.info,
            columns,
        ) && (columns % 8 != 0 || exists|block: int| #[trigger]
            has_q4_block(weight.info, block) && weight.info.shape@[0] as int % block != 0),
        Err(Rejection::WrongParts) => columns_exist(input, weight.info, columns) && columns % 8 == 0
            && (weight.parts matches Some(parts) && exists|block: int|
            #[trigger]
            has_q4_block(weight.info, block) && !q4_parts_fit(parts, weight.info, block)),
        Err(reason) => packed_refused(reason, input, weight, columns, bias),
    }
}

/// The eight-bit product computes the columns asked for and goes by the block of the weight's scheme,
/// with a group for every word of four columns; it is refused for these reasons only.
pub open spec fn q8_served(
    answer: Result<Plan, Rejection>,
    input: TensorInfo,
    weight: QuantTensor,
    columns: int,
    bias: Option<TensorInfo>,
) -> bool {
    match answer {
        Ok(plan) => {
            &&& packed_accepted(input, weight, columns, bias)
            &&& q8_arguments(plan.kernel, bias is Some) matches Some((width, block))
            &&& width == columns % 0x1_0000_0000
            &&& columns <= u32::MAX ==> width == columns
            &&& has_q8_block(weight.info, block)
            &&& columns % 4 == 0
            &&& weight.parts matches Some(parts) && q8_parts_fit(parts, weight.info, block)
            &&& one_group_each(plan, rows_of(input) * (columns / 4))
            &&& holds_products(plan.output.tensor, input, columns)
            &&& has_room(plan.output)
        },
        Err(Rejection::UnsupportedScheme) => input.device == weight.info.device
            && weight.info.dtype is QFloat && forall|block: int|
            !#[trigger] has_q8_block(weight.info, block),
        Err(Rejection::Misaligned) => input.device == weight.info.device && columns_exist(
            input,
            weight.info,
            columns,
        ) && columns % 4 != 0,
        Err(Rejection::WrongParts) => columns_exist(input, weight.info, columns) && columns % 4 == 0
            && (weight.parts matches Some(parts) && exists|block: int|
            #[trigger]
            has_q8_block(weight.info, block) && !q8_parts_fit(parts, weight.info, block)),
        Err(reason) => packed_refused(reason, input, weight, columns, bias),
    }
}

// Blocks that cover the columns, the last one not in vain, are counted by rounding up.
proof fn lemma_blocks_counted(columns: int, block: int, blocks: int)
    requires
        0 < block,
    ensures
        blocks == ceil_div(columns, block) <==> blocks * block >= columns && (blocks - 1) * block
            < columns,
{
    let c = ceil_div(columns, block);
    let r = (columns + block - 1) % block;
    vstd::arithmetic::div_mod::lemma_fundamental_div_mod(columns + block - 1, block);
    vstd::arithmetic::div_mod::lemma_mod_bound(columns + block - 1, block);
    assert(c * block >= columns && (c - 1) * block < columns) by (nonlinear_arith)
        requires
            columns + block - 1 == block * c + r,
            0 <= r < block,
    ;
    if blocks * block >= columns && (blocks - 1) * block < columns {
        assert(blocks == c) by (nonlinear_arith)
            requires
                blocks * block >= columns,
                (blocks - 1) * block < columns,
                c * block >= columns,
                (c - 1) * block < columns,
                0 < block,
        ;
    }
}

// The scheme of a weight has one block or none.
proof fn lemma_blocks_known(weight: TensorInfo)
    ensures
        forall|block: int|
            #[trigger] has_q4_block(weight, block) <==> (weight.dtype matches DType::QFloat(scheme)
                && crate::scheme::q4_block(scheme) == Some(block as usize) && 0 <= block
                <= usize::MAX),
        forall|block: int|
            #[trigger] has_q8_block(weight, block) <==> (weight.dtype matches DType::QFloat(scheme)
                && crate::scheme::q8_block(scheme) == Some(block as usize) && 0 <= block
                <= usize::MAX),
        weight.dtype matches DType::QFloat(scheme) ==> {
            &&& crate::scheme::q4_block(scheme) matches Some(b) ==> has_q4_block(weight, b as int)
                && b <= 255
            &&& crate::scheme::q8_block(scheme) matches Some(b) ==> has_q8_block(weight, b as int)
                && b <= 255
        },
{
    if let DType::QFloat(scheme) = weight.dtype {
        assert forall|block: int|
            #[trigger] has_q4_block(weight, block) <==> (crate::scheme::q4_block(scheme) == Some(
                block as usize,
            ) && 0 <= block <= usize::MAX) by {
            lemma_q4_block(scheme, block);
        }
        assert forall|block: int|
            #[trigger] has_q8_block(weight, block) <==> (crate::scheme::q8_block(scheme) == Some(
                block as usize,
            ) && 0 <= block <= usize::MAX) by {
            lemma_q8_block(scheme, block);
        }
        if let Some(b) = crate::scheme::q4_block(scheme) {
            lemma_q4_block(scheme, b as int);
        }
        if let Some(b) = crate::scheme::q8_block(scheme) {
            lemma_q8_block(scheme, b as int);
        }
    }
}

// Groups of a packed product.
proof fn lemma_packed_groups(
    plan: Plan,
    input: TensorInfo,
    weight: TensorInfo,
    columns: int,
    per_word: int,
)
    requires
        columns_exist(input, weight, columns),
        weight.shape@[0] > 0,
        0 < per_word,
        columns % per_word == 0,
        columns <= usize::MAX,
        plan.launch == crate::tensor::grouped(word_products(input, weight, columns, per_word)),
    ensures
        one_group_each(plan, rows_of(input) * (columns / per_word)),
{
    lemma_word_groups(input, weight, columns, per_word);
    let groups = rows_of(input) * (columns / per_word);
    vstd::arithmetic::div_mod::lemma_div_pos_is_pos(columns, per_word);
    assert(groups >= 0) by (nonlinear_arith)
        requires
            groups == rows_of(input) * (columns / per_word),
            rows_of(input) >= 0,
            columns / per_word >= 0,
    ;
    lemma_group_count(plan, groups);
}

proof fn lemma_q4(
    answer: Result<Plan, Rejection>,
    input: TensorInfo,
    weight: QuantTensor,
    columns: int,
    bias: Option<TensorInfo>,
)
    requires
        match bias {
            None => 0 <= columns <= u32::MAX && q4_gemv_planned(
                answer,
                input,
                weight,
                columns as u32,
            ),
            Some(bias) => columns == weight.info.shape@[1] && q4_gemv_bias_planned(
                answer,
                input,
                weight,
                bias,
            ),
        },
    ensures
        q4_served(answer, input, weight, columns, bias),
{
    lemma_prefix(input, weight.info, columns);
    lemma_blocks_known(weight.info);
    match answer {
        Ok(plan) => {
            lemma_packed_groups(plan, input, weight.info, columns, 8);
            if columns <= u32::MAX {
                vstd::arithmetic::div_mod::lemma_small_mod(columns as nat, 0x1_0000_0000);
            }
        },
        Err(_) => {},
    }
}

proof fn lemma_q8(
    answer: Result<Plan, Rejection>,
    input: TensorInfo,
    weight: QuantTensor,
    columns: int,
    bias: Option<TensorInfo>,
)
    requires
        match bias {
            None => 0 <= columns <= u32::MAX && q8_gemv_planned(
                answer,
                input,
                weight,
                columns as u32,
            ),
            Some(bias) => columns == weight.info.shape@[1] && q8_gemv_bias_planned(
                answer,
                input,
                weight,
                bias,
            ),
        },
    ensures
        q8_served(answer, input, weight, columns, bias),
{
    lemma_prefix(input, weight.info, columns);
    lemma_blocks_known(weight.info);
    if let DType::QFloat(scheme) = weight.info.dtype {
        if let Some(block) = crate::scheme::q8_block(scheme) {
            if let Some(parts) = weight.parts {
                lemma_blocks_counted(
                    weight.info.shape@[1] as int,
                    block as int,
                    parts.scales.shape@[1] as int,
                );
            }
        }
    }
    match answer {
        Ok(plan) => {
            lemma_packed_groups(plan, input, weight.info, columns, 4);
            if columns <= u32::MAX {
                vstd::arithmetic::div_mod::lemma_small_mod(columns as nat, 0x1_0000_0000);
            }
        },
        Err(_) => {},
    }
}

/// The four-bit product by the fused kernel.
pub proof fn lemma_fused_q4_gemv(
    input: TensorInfo,
    weight: QuantTensor,
    columns: u32,
    answer: Result<Plan, Rejection>,
)
    requires
        call_ensures(CubeBackend::fused_q4_gemv, (&input, &weight, columns), answer),
    ensures
        q4_served(answer, input, weight, columns as int, None),
{
    lemma_q4(answer, input, weight, columns as int, None);
}

/// The four-bit product with a bias by the fused kernel.
pub proof fn lemma_fused_q4_gemv_bias(
    input: TensorInfo,
    weight: QuantTensor,
    bias: TensorInfo,
    answer: Result<Plan, Rejection>,
)
    requires
        call_ensures(CubeBackend::fused_q4_gemv_bias, (&input, &weight, &bias), answer),
    ensures
        q4_served(answer, input, weight, weight.info.shape@[1] as int, Some(bias)),
{
    lemma_q4(answer, input, weight, weight.info.shape@[1] as int, Some(bias));
}

/// The eight-bit product by the fused kernel.
pub proof fn lemma_fused_q8_gemv(
    input: TensorInfo,
    weight: QuantTensor,
    columns: u32,
    answer: Result<Plan, Rejection>,
)
    requires
        call_ensures(CubeBackend::fused_q8_gemv, (&input, &weight, columns), answer),
    ensures
        q8_served(answer, input, weight, columns as int, None),
{
    lemma_q8(answer, input, weight, columns as int, None);
}

/// The eight-bit product with a bias by the fused kernel.
pub proof fn lemma_fused_q8_gemv_bias(
    input: TensorInfo,
    weight: QuantTensor,
    bias: TensorInfo,
    answer: Result<Plan, Rejection>,
)
    requires
        call_ensures(CubeBackend::fused_q8_gemv_bias, (&input, &weight, &bias), answer),
    ensures
        q8_served(answer, input, weight, weight.info.shape@[1] as int, Some(bias)),
{
    lemma_q8(answer, input, weight, weight.info.shape@[1] as int, Some(bias));
}

/// What a fused kernel answers, where a layer is computed by one or refused.
pub open spec fn by_kernel(answer: Result<LinearPlan, Rejection>) -> Option<
    Result<Plan, Rejection>,
> {
    match answer {
        Ok(LinearPlan::Fused(plan)) => Some(Ok(plan)),
        Err(reason) => Some(Err(reason)),
        _ => None,
    }
}

/// A layer of so many columns goes to the kernel for its weight: the eight-bit or the four-bit one for
/// packed weights of their schemes, the dense one for weights that are not quantized. Other weights go
/// to `general`.
pub open spec fn layer_served(
    answer: Result<LinearPlan, Rejection>,
    input: TensorInfo,
    weight: QuantTensor,
    columns: int,
    bias: Option<TensorInfo>,
    general: LinearPlan,
) -> bool {
    &&& weight.info.dtype is QFloat && (exists|block: int| #[trigger]
        has_q8_block(weight.info, block)) ==> (by_kernel(answer) matches Some(answer) && q8_served(
        answer,
        input,
        weight,
        columns,
        bias,
    ))
    &&& weight.info.dtype is QFloat && (exists|block: int| #[trigger]
        has_q4_block(weight.info, block)) ==> (by_kernel(answer) matches Some(answer) && q4_served(
        answer,
        input,
        weight,
        columns,
        bias,
    ))
    &&& weight.info.dtype is QFloat && (forall|block: int|
        !#[trigger] has_q8_block(weight.info, block)) && (forall|block: int|
        !#[trigger] has_q4_block(weight.info, block)) ==> answer == Ok::<LinearPlan, Rejection>(
        general,
    )
    &&& !(weight.info.dtype is QFloat) ==> (by_kernel(answer) matches Some(answer) && dense_served(
        answer,
        input,
        weight.info,
        columns,
        bias,
    ))
}

/// A linear layer computes all columns, with the kernel for its weight.
pub proof fn lemma_linear(
    input: TensorInfo,
    weight: QuantTensor,
    bias: Option<&TensorInfo>,
    answer: Result<LinearPlan, Rejection>,
)
    requires
        call_ensures(linear, (&input, &weight, bias), answer),
        weight.info.shape@[1] <= u32::MAX,
    ensures
        ({
            let bias = match bias {
                Some(bias) => Some(*bias),
                None => None,
            };
            if input.shape@.len() == 3 && weight.info.shape@.len() == 2 && (
            bias matches Some(bias) ==> bias.shape@.len() == 1) {
                layer_served(
                    answer,
                    input,
                    weight,
                    weight.info.shape@[1] as int,
                    bias,
                    LinearPlan::General,
                )
            } else {
                answer == Err::<LinearPlan, Rejection>(Rejection::WrongRank)
            }
        }),
{
    let bias = match bias {
        Some(bias) => Some(*bias),
        None => None,
    };
    if input.shape@.len() == 3 && weight.info.shape@.len() == 2 && (bias matches Some(bias)
        ==> bias.shape@.len() == 1) {
        lemma_layer(answer, input, weight, bias);
    }
}

// A layer as a whole.
proof fn lemma_layer(
    answer: Result<LinearPlan, Rejection>,
    input: TensorInfo,
    weight: QuantTensor,
    bias: Option<TensorInfo>,
)
    requires
        crate::ops::linear_planned(answer, input, weight, bias),
        weight.info.shape@[1] <= u32::MAX,
    ensures
        layer_served(
            answer,
            input,
            weight,
            weight.info.shape@[1] as int,
            bias,
            LinearPlan::General,
        ),
{
    let columns = weight.info.shape@[1] as int;
    vstd::arithmetic::div_mod::lemma_small_mod(columns as nat, 0x1_0000_0000);
    lemma_blocks_known(weight.info);
    if let DType::QFloat(scheme) = weight.info.dtype {
        lemma_gemv_schemes_disjoint(scheme);
        if let Some(plan) = by_kernel(answer) {
            if crate::scheme::q8_block(scheme) is Some {
                lemma_q8(plan, input, weight, columns, bias);
            } else if crate::scheme::q4_block(scheme) is Some {
                lemma_q4(plan, input, weight, columns, bias);
            }
        }
    } else {
        if let Some(plan) = by_kernel(answer) {
            match bias {
                Some(bias) => lemma_dense_bias(plan, input, weight.info, bias),
                None => lemma_dense(plan, input, weight.info, columns as u32),
            }
        }
    }
}

/// A linear layer of any width: without a bias, the low word of the number of columns is computed.
pub proof fn lemma_linear_of_any_width(
    input: TensorInfo,
    weight: QuantTensor,
    bias: Option<&TensorInfo>,
    answer: Result<LinearPlan, Rejection>,
)
    requires
        call_ensures(linear, (&input, &weight, bias), answer),
        input.shape@.len() == 3,
        weight.info.shape@.len() == 2,
        bias matches Some(bias) ==> bias.shape@.len() == 1,
    ensures
        ({
            let columns = weight.info.shape@[1] as int;
            let bias = match bias {
                Some(bias) => Some(*bias),
                None => None,
            };
            layer_served(
                answer,
                input,
                weight,
                if bias is Some {
                    columns
                } else {
                    columns % 0x1_0000_0000
                },
                bias,
                LinearPlan::General,
            )
        }),
{
    let bias = match bias {
        Some(bias) => Some(*bias),
        None => None,
    };
    let all = weight.info.shape@[1] as int;
    let columns = if bias is Some {
        all
    } else {
        all % 0x1_0000_0000
    };
    lemma_blocks_known(weight.info);
    if let DType::QFloat(scheme) = weight.info.dtype {
        lemma_gemv_schemes_disjoint(scheme);
        if let Some(plan) = by_kernel(answer) {
            if crate::scheme::q8_block(scheme) is Some {
                lemma_q8(plan, input, weight, columns, bias);
            } else if crate::scheme::q4_block(scheme) is Some {
                lemma_q4(plan, input, weight, columns, bias);
            }
        }
    } else {
        if let Some(plan) = by_kernel(answer) {
            match bias {
                Some(bias) => lemma_dense_bias(plan, input, weight.info, bias),
                None => lemma_dense(plan, input, weight.info, columns as u32),
            }
        }
    }
}

/// Leading columns are those asked for, computed with the kernel for the weight or cut from the layer
/// as a whole.
pub proof fn lemma_linear_prefix(
    input: TensorInfo,
    weight: QuantTensor,
    columns: usize,
    answer: Result<LinearPlan, Rejection>,
)
    requires
        call_ensures(linear_prefix, (&input, &weight, columns), answer),
        columns <= u32::MAX,
    ensures
        if input.shape@.len() != 3 || weight.info.shape@.len() != 2 {
            answer == Err::<LinearPlan, Rejection>(Rejection::WrongRank)
        } else if columns == 0 || columns > weight.info.shape@[1] {
            answer == Err::<LinearPlan, Rejection>(Rejection::OutOfRange)
        } else {
            layer_served(
                answer,
                input,
                weight,
                columns as int,
                None,
                if columns == weight.info.shape@[1] {
                    LinearPlan::General
                } else {
                    LinearPlan::GeneralPrefix {
                        batch: input.shape@[0],
                        sequence: input.shape@[1],
                        output_width: columns,
                    }
                },
            )
        },
{
    if input.shape@.len() == 3 && weight.info.shape@.len() == 2 && 0 < columns
        <= weight.info.shape@[1] {
        if columns == weight.info.shape@[1] {
            lemma_layer(answer, input, weight, None);
        } else {
            vstd::arithmetic::div_mod::lemma_small_mod(columns as nat, 0x1_0000_0000);
            lemma_blocks_known(weight.info);
            if let DType::QFloat(scheme) = weight.info.dtype {
                lemma_gemv_schemes_disjoint(scheme);
                if let Some(plan) = by_kernel(answer) {
                    if crate::scheme::q8_block(scheme) is Some {
                        lemma_q8(plan, input, weight, columns as int, None);
                    } else if crate::scheme::q4_block(scheme) is Some {
                        lemma_q4(plan, input, weight, columns as int, None);
                    }
                }
            } else {
                if let Some(plan) = by_kernel(answer) {
                    lemma_dense(plan, input, weight.info, columns as u32);
                }
            }
        }
    }
}

} // verus!
