//! Operations on tensors: which fused kernel serves them, or which general operation.

use vstd::prelude::*;

use crate::backend::{CubeBackend, MetalTransformerBackend};
use crate::rules::{
    attention_planned, gathered_shape, gemv_bias_planned, gemv_planned, product_shape, q4_embedding_planned,
    q4_embedding_projection_planned, q4_embedding_row_planned, q4_gemv_bias_planned,
    q4_gemv_planned, q8_gemv_bias_planned, q8_gemv_planned, rms_norm_planned, rope_planned,
    sample_topk_planned, silu_mul_planned,
};
use crate::bits::{is_positive_finite_double, DOUBLE_INFINITY_BITS, DOUBLE_ONE_BITS};
use crate::embedding::{entry_at, entry_value, table_value, TableEntry};
use crate::plan::{scheme_of, AttentionPlan, Plan};
use crate::reject::Rejection;
use crate::scheme::{
    is_q4_embedding_scheme, q4_block, q4_embedding, q4_gemv_block_size, q8_block, q8_gemv_block_size,
    DType, QuantScheme,
};
use crate::shape::{low_word, product, truncate};
use crate::tensor::{lemma_narrower_allocatable, QuantParts, QuantTensor, TensorInfo};

verus! {

/// A real number in double precision and rounded to single precision, as bit patterns.
#[derive(Clone, Copy, Debug, PartialEq, Eq, Structural)]
pub struct Real {
    /// Double-precision pattern.
    pub double: u64,
    /// Single-precision pattern.
    pub single: u32,
}

/// RMS normalization of a tensor of three dimensions.
pub fn rms_norm(input: &TensorInfo, gamma: &TensorInfo, epsilon: Real) -> (plan: Result<
    Plan,
    Rejection,
>)
    ensures
        if input.shape@.len() != 3 || gamma.shape@.len() != 1 {
            plan == Err::<Plan, Rejection>(Rejection::WrongRank)
        } else {
            rms_norm_planned(plan, *input, *gamma, epsilon.single)
        },
{
    if input.shape.len() != 3 || gamma.shape.len() != 1 {
        return Err(Rejection::WrongRank);
    }
    CubeBackend::fused_rms_norm(input, gamma, epsilon.single)
}

/// `silu(input) * gate`.
pub fn silu_mul(input: &TensorInfo, gate: &TensorInfo) -> (plan: Result<Plan, Rejection>)
    ensures
        silu_mul_planned(plan, *input, *gate),
{
    CubeBackend::fused_silu_mul(input, gate)
}

/// Rotary position embeddings of `[batch, heads, sequence, width]` (`sequence_dim` is 2) or
/// `[batch, sequence, heads, width]` (`sequence_dim` is 1).
pub fn apply_rope(input: &TensorInfo, frequencies: &TensorInfo, sequence_dim: usize) -> (plan:
    Result<Plan, Rejection>)
    ensures
        if sequence_dim != 1 && sequence_dim != 2 {
            plan == Err::<Plan, Rejection>(Rejection::BadParameter)
        } else {
            rope_planned(plan, *input, *frequencies, sequence_dim as u32)
        },
{
    if sequence_dim != 1 && sequence_dim != 2 {
        return Err(Rejection::BadParameter);
    }
    CubeBackend::fused_rope(input, frequencies, sequence_dim as u32)
}

/// Single-token grouped-query attention from compact key and value heads.
pub fn grouped_query_attention_decode(
    query: &TensorInfo,
    key: &TensorInfo,
    value: &TensorInfo,
) -> (plan: Result<AttentionPlan, Rejection>)
    ensures
        attention_planned(plan, *query, *key, *value),
{
    CubeBackend::fused_grouped_query_attention_decode(query, key, value)
}

/// How a linear layer is computed.
#[derive(Clone, Debug, PartialEq, Eq)]
pub enum LinearPlan {
    /// By a fused kernel.
    Fused(Plan),
    /// By the general linear operation.
    General,
    /// By the general linear operation, of whose output these leading extents are kept.
    GeneralPrefix {
        /// Extent of the first dimension.
        batch: usize,
        /// Extent of the second dimension.
        sequence: usize,
        /// Extent of the third dimension.
        output_width: usize,
    },
}

/// What the fused kernel's plan or refusal was, where the layer is computed by one.
pub open spec fn fused(plan: Result<LinearPlan, Rejection>) -> Option<Result<Plan, Rejection>> {
    match plan {
        Ok(LinearPlan::Fused(plan)) => Some(Ok(plan)),
        Ok(_) => None,
        Err(reason) => Some(Err(reason)),
    }
}

/// A fused kernel serves weights of this scheme.
pub open spec fn has_gemv(scheme: QuantScheme) -> bool {
    q8_block(scheme) is Some || q4_block(scheme) is Some
}

/// The layer is computed by the kernel for its weight: eight-bit, four-bit or dense. Other
/// quantized weights go through the general operation.
pub open spec fn linear_planned(
    plan: Result<LinearPlan, Rejection>,
    input: TensorInfo,
    weight: QuantTensor,
    bias: Option<TensorInfo>,
) -> bool {
    let columns = low_word(weight.info.shape@[1] as int) as u32;
    match scheme_of(weight.info) {
        Some(scheme) => if !has_gemv(scheme) {
            plan == Ok::<LinearPlan, Rejection>(LinearPlan::General)
        } else {
            &&& fused(plan) matches Some(plan)
            &&& match (q8_block(scheme) is Some, bias) {
                (true, Some(bias)) => q8_gemv_bias_planned(plan, input, weight, bias),
                (true, None) => q8_gemv_planned(plan, input, weight, columns),
                (false, Some(bias)) => q4_gemv_bias_planned(plan, input, weight, bias),
                (false, None) => q4_gemv_planned(plan, input, weight, columns),
            }
        },
        None => {
            &&& fused(plan) matches Some(plan)
            &&& match bias {
                Some(bias) => gemv_bias_planned(plan, input, weight.info, bias),
                None => gemv_planned(plan, input, weight.info, columns),
            }
        },
    }
}

/// The operands of a linear layer have other than three, two and one dimensions.
pub open spec fn linear_ranks_wrong(
    input: TensorInfo,
    weight: QuantTensor,
    bias: Option<TensorInfo>,
) -> bool {
    ||| input.shape@.len() != 3
    ||| weight.info.shape@.len() != 2
    ||| bias matches Some(bias) && bias.shape@.len() != 1
}

fn fused_route(plan: Result<Plan, Rejection>) -> (route: Result<LinearPlan, Rejection>)
    ensures
        fused(route) == Some(plan),
{
    match plan {
        Ok(plan) => Ok(LinearPlan::Fused(plan)),
        Err(reason) => Err(reason),
    }
}

/// Applies a row-major linear layer to an input of three dimensions.
pub fn linear(input: &TensorInfo, weight: &QuantTensor, bias: Option<&TensorInfo>) -> (plan: Result<
    LinearPlan,
    Rejection,
>)
    ensures
        ({
            let bias = match bias {
                Some(bias) => Some(*bias),
                None => None,
            };
            if linear_ranks_wrong(*input, *weight, bias) {
                plan == Err::<LinearPlan, Rejection>(Rejection::WrongRank)
            } else {
                linear_planned(plan, *input, *weight, bias)
            }
        }),
{
    if input.shape.len() != 3 || weight.info.shape.len() != 2 {
        return Err(Rejection::WrongRank);
    }
    match bias {
        Some(bias) => {
            if bias.shape.len() != 1 {
                return Err(Rejection::WrongRank);
            }
        },
        None => {},
    }
    let output_width: u32 = truncate(weight.info.shape[1]);
    match &weight.info.dtype {
        DType::QFloat(scheme) => {
            if q8_gemv_block_size(scheme).is_some() {
                match bias {
                    Some(bias) => fused_route(CubeBackend::fused_q8_gemv_bias(input, weight, bias)),
                    None => fused_route(CubeBackend::fused_q8_gemv(input, weight, output_width)),
                }
            } else if q4_gemv_block_size(scheme).is_some() {
                match bias {
                    Some(bias) => fused_route(CubeBackend::fused_q4_gemv_bias(input, weight, bias)),
                    None => fused_route(CubeBackend::fused_q4_gemv(input, weight, output_width)),
                }
            } else {
                Ok(LinearPlan::General)
            }
        },
        _ => match bias {
            Some(bias) => fused_route(CubeBackend::fused_gemv_bias(input, &weight.info, bias)),
            None => fused_route(CubeBackend::fused_gemv(input, &weight.info, output_width)),
        },
    }
}

/// A linear layer fills the same tensor for a quantized weight as for a dense one of that shape: one
/// row of outputs per input row.
pub proof fn lemma_linear_outputs_agree(
    input: TensorInfo,
    weight: QuantTensor,
    dense: QuantTensor,
    bias: Option<TensorInfo>,
    plan: Plan,
    dense_plan: Plan,
)
    requires
        !linear_ranks_wrong(input, weight, bias),
        weight.info.shape@ == dense.info.shape@,
        scheme_of(dense.info) is None,
        weight.info.shape@[1] <= u32::MAX,
        linear_planned(Ok(LinearPlan::Fused(plan)), input, weight, bias),
        linear_planned(Ok(LinearPlan::Fused(dense_plan)), input, dense, bias),
    ensures
        plan.output.tensor.device == dense_plan.output.tensor.device,
        plan.output.tensor.dtype == dense_plan.output.tensor.dtype,
        plan.output.tensor.shape@ == dense_plan.output.tensor.shape@,
        plan.output.tensor.shape@ == seq![
            input.shape@[0],
            input.shape@[1],
            weight.info.shape@[1],
        ],
{
    vstd::arithmetic::div_mod::lemma_small_mod(weight.info.shape@[1] as nat, 0x1_0000_0000);
    assert(plan.output.tensor.shape@ =~= seq![
        input.shape@[0],
        input.shape@[1],
        weight.info.shape@[1],
    ]);
}

/// The leading columns are computed by the kernel for the weight, or cut from the output of the
/// general operation.
pub open spec fn prefix_planned(
    plan: Result<LinearPlan, Rejection>,
    input: TensorInfo,
    weight: QuantTensor,
    output_width: int,
) -> bool {
    let columns = low_word(output_width) as u32;
    match scheme_of(weight.info) {
        Some(scheme) => if !has_gemv(scheme) {
            plan == Ok::<LinearPlan, Rejection>(
                LinearPlan::GeneralPrefix {
                    batch: input.shape@[0],
                    sequence: input.shape@[1],
                    output_width: output_width as usize,
                },
            )
        } else {
            &&& fused(plan) matches Some(plan)
            &&& if q8_block(scheme) is Some {
                q8_gemv_planned(plan, input, weight, columns)
            } else {
                q4_gemv_planned(plan, input, weight, columns)
            }
        },
        None => fused(plan) matches Some(plan) && gemv_planned(
            plan,
            input,
            weight.info,
            columns,
        ),
    }
}

/// Leading columns are computed wherever the whole layer is, as long as they fill whole words of a
/// packed weight: the output has the columns asked for and is otherwise that of the whole layer.
pub proof fn lemma_prefix_outputs_agree(
    input: TensorInfo,
    weight: QuantTensor,
    output_width: usize,
    plan: Result<LinearPlan, Rejection>,
    whole: Plan,
)
    requires
        !linear_ranks_wrong(input, weight, None),
        0 < output_width < weight.info.shape@[1] <= u32::MAX,
        scheme_of(weight.info) matches Some(scheme) ==> if q8_block(scheme) is Some {
            output_width % 4 == 0
        } else {
            output_width % 8 == 0
        },
        linear_planned(Ok(LinearPlan::Fused(whole)), input, weight, None),
        prefix_planned(plan, input, weight, output_width as int),
    ensures
        plan matches Ok(LinearPlan::Fused(prefix)) && {
            let (p, w) = (prefix.output.tensor, whole.output.tensor);
            &&& p.device == w.device
            &&& p.dtype == w.dtype
            &&& p.shape@ == seq![input.shape@[0], input.shape@[1], output_width]
            &&& w.shape@ == seq![input.shape@[0], input.shape@[1], weight.info.shape@[1]]
        },
{
    let columns = weight.info.shape@[1];
    vstd::arithmetic::div_mod::lemma_small_mod(columns as nat, 0x1_0000_0000);
    vstd::arithmetic::div_mod::lemma_small_mod(output_width as nat, 0x1_0000_0000);
    let wide = product_shape(input.shape@, columns as int);
    let narrow = product_shape(input.shape@, output_width as int);
    lemma_narrower_allocatable(wide, output_width, input.dtype);
    assert(wide.update(2, output_width) =~= narrow);
    assert(narrow =~= seq![input.shape@[0], input.shape@[1], output_width]);
    assert(wide =~= seq![input.shape@[0], input.shape@[1], columns]);
}

/// Applies a linear layer without a bias and keeps its leading output columns only.
pub fn linear_prefix(input: &TensorInfo, weight: &QuantTensor, output_width: usize) -> (plan: Result<
    LinearPlan,
    Rejection,
>)
    ensures
        if linear_ranks_wrong(*input, *weight, None) {
            plan == Err::<LinearPlan, Rejection>(Rejection::WrongRank)
        } else if !(0 < output_width <= weight.info.shape@[1]) {
            plan == Err::<LinearPlan, Rejection>(Rejection::OutOfRange)
        } else if output_width == weight.info.shape@[1] {
            linear_planned(plan, *input, *weight, None)
        } else {
            prefix_planned(plan, *input, *weight, output_width as int)
        },
{
    if input.shape.len() != 3 || weight.info.shape.len() != 2 {
        return Err(Rejection::WrongRank);
    }
    let full_output_width: usize = weight.info.shape[1];
    if output_width == 0 || output_width > full_output_width {
        return Err(Rejection::OutOfRange);
    }
    if output_width == full_output_width {
        return linear(input, weight, None);
    }
    let columns: u32 = truncate(output_width);
    match &weight.info.dtype {
        DType::QFloat(scheme) => {
            if q8_gemv_block_size(scheme).is_some() {
                fused_route(CubeBackend::fused_q8_gemv(input, weight, columns))
            } else if q4_gemv_block_size(scheme).is_some() {
                fused_route(CubeBackend::fused_q4_gemv(input, weight, columns))
            } else {
                Ok(
                    LinearPlan::GeneralPrefix {
                        batch: input.shape[0],
                        sequence: input.shape[1],
                        output_width,
                    },
                )
            }
        },
        _ => fused_route(CubeBackend::fused_gemv(input, &weight.info, columns)),
    }
}

/// How rows of an embedding table are read.
#[derive(Clone, Debug, PartialEq, Eq)]
pub enum EmbeddingPlan {
    /// By a fused kernel.
    Fused(Plan),
    /// By the general gather operation.
    General,
    /// By cutting rows `start..end` out of a dense table.
    Slice {
        /// First row.
        start: usize,
        /// One past the last row.
        end: usize,
        /// Columns, all of which are kept.
        width: usize,
    },
    /// By products of every hidden row with rows `start..end` and with row `eos` of a dense table, side
    /// by side: hidden row `position` of batch `batch` gives row `batch * sequence + position`.
    Dense {
        /// First row of the range.
        start: usize,
        /// One past the last row of the range.
        end: usize,
        /// The row after the range.
        eos: usize,
        /// Columns of the table, all of which are kept.
        width: usize,
        /// Rows of the output, one per hidden row.
        rows: usize,
        /// Columns of the output, one per row of the range and one more.
        columns: usize,
    },
}

/// What the fused kernel's plan or refusal was, where the lookup is done by one.
pub open spec fn fused_lookup(plan: Result<EmbeddingPlan, Rejection>) -> Option<
    Result<Plan, Rejection>,
> {
    match plan {
        Ok(EmbeddingPlan::Fused(plan)) => Some(Ok(plan)),
        Ok(_) => None,
        Err(reason) => Some(Err(reason)),
    }
}

fn lookup_route(plan: Result<Plan, Rejection>) -> (route: Result<EmbeddingPlan, Rejection>)
    ensures
        fused_lookup(route) == Some(plan),
{
    match plan {
        Ok(plan) => Ok(EmbeddingPlan::Fused(plan)),
        Err(reason) => Err(reason),
    }
}

/// Gathers rows for indices of two dimensions, without expanding four-bit tables.
pub fn embedding(indices: &TensorInfo, weight: &QuantTensor) -> (plan: Result<
    EmbeddingPlan,
    Rejection,
>)
    ensures
        if indices.shape@.len() != 2 || weight.info.shape@.len() != 2 {
            plan == Err::<EmbeddingPlan, Rejection>(Rejection::WrongRank)
        } else if scheme_of(weight.info) matches Some(scheme) && q4_embedding(scheme) {
            fused_lookup(plan) matches Some(plan) && q4_embedding_planned(
                plan,
                *weight,
                *indices,
            )
        } else {
            plan == Ok::<EmbeddingPlan, Rejection>(EmbeddingPlan::General)
        },
{
    if indices.shape.len() != 2 || weight.info.shape.len() != 2 {
        return Err(Rejection::WrongRank);
    }
    match &weight.info.dtype {
        DType::QFloat(scheme) => {
            if is_q4_embedding_scheme(scheme) {
                lookup_route(CubeBackend::fused_q4_embedding(weight, indices))
            } else {
                Ok(EmbeddingPlan::General)
            }
        },
        _ => Ok(EmbeddingPlan::General),
    }
}

/// Reads one row as `[1, 1, hidden]`.
pub fn embedding_row(weight: &QuantTensor, row: usize) -> (plan: Result<EmbeddingPlan, Rejection>)
    ensures
        if weight.info.shape@.len() != 2 {
            plan == Err::<EmbeddingPlan, Rejection>(Rejection::WrongRank)
        } else {
            match scheme_of(weight.info) {
                None => if row == usize::MAX {
                    plan == Err::<EmbeddingPlan, Rejection>(Rejection::TooLarge)
                } else {
                    plan == Ok::<EmbeddingPlan, Rejection>(
                        EmbeddingPlan::Slice {
                            start: row,
                            end: (row + 1) as usize,
                            width: weight.info.shape@[1],
                        },
                    )
                },
                Some(scheme) => if !q4_embedding(scheme) {
                    plan == Err::<EmbeddingPlan, Rejection>(Rejection::UnsupportedScheme)
                } else {
                    fused_lookup(plan) matches Some(plan) && q4_embedding_row_planned(
                        plan,
                        *weight,
                        low_word(row as int) as u32,
                    )
                },
            }
        },
{
    if weight.info.shape.len() != 2 {
        return Err(Rejection::WrongRank);
    }
    match &weight.info.dtype {
        DType::QFloat(scheme) => {
            if !is_q4_embedding_scheme(scheme) {
                return Err(Rejection::UnsupportedScheme);
            }
            lookup_route(CubeBackend::fused_q4_embedding_row(weight, truncate(row)))
        },
        _ => {
            if row == usize::MAX {
                return Err(Rejection::TooLarge);
            }
            Ok(EmbeddingPlan::Slice { start: row, end: row + 1, width: weight.info.shape[1] })
        },
    }
}

/// Reading one row of a four-bit table is looking up that one index: both are planned for the same
/// tables, fill `[1, 1, hidden]` in single precision and read, for every column, the value of the
/// table in that row and column.
pub proof fn lemma_row_is_lookup(
    weight: QuantTensor,
    row: usize,
    indices: TensorInfo,
    row_plan: Result<Plan, Rejection>,
    lookup_plan: Result<Plan, Rejection>,
    parts: QuantParts,
    feature: int,
    row_entry: TableEntry,
    lookup_entry: TableEntry,
    words: Seq<u32>,
    scale_data: Seq<real>,
)
    requires
        weight.info.shape@.len() == 2,
        weight.parts == Some(parts),
        parts.values.dtype is U32,
        parts.scales.dtype is F32,
        row < weight.info.shape@[0],
        row <= u32::MAX,
        indices.device == weight.info.device,
        indices.shape@ == seq![1usize, 1],
        q4_embedding_row_planned(row_plan, weight, low_word(row as int) as u32),
        q4_embedding_planned(lookup_plan, weight, indices),
        0 <= feature < weight.info.shape@[1],
        entry_at(row_entry, row as int, feature, parts.values, parts.scales),
        entry_at(
            lookup_entry,
            row as int,
            feature % weight.info.shape@[1] as int,
            parts.values,
            parts.scales,
        ),
    ensures
        row_plan is Ok <==> lookup_plan is Ok,
        row_plan is Err ==> row_plan == lookup_plan,
        row_plan matches Ok(a) ==> lookup_plan matches Ok(b) ==> {
            let (p, q) = (a.output.tensor, b.output.tensor);
            &&& p.device == q.device
            &&& p.dtype == q.dtype && p.dtype == DType::F32
            &&& p.shape@ == q.shape@ && p.shape@ == seq![1usize, 1, weight.info.shape@[1]]
            &&& a.launch == b.launch
        },
        row_entry == lookup_entry,
        entry_value(row_entry, words, scale_data) == table_value(
            words,
            scale_data,
            row as int,
            feature,
            parts.values,
            parts.scales,
        ),
{
    let columns = weight.info.shape@[1];
    vstd::arithmetic::div_mod::lemma_small_mod(row as nat, 0x1_0000_0000);
    vstd::arithmetic::div_mod::lemma_small_mod(feature as nat, columns as nat);
    assert(gathered_shape(indices.shape@, columns) =~= seq![1usize, 1, columns]);
    lemma_row_count(columns);
}

// One row has as many elements as columns.
proof fn lemma_row_count(columns: usize)
    ensures
        product(seq![1usize, 1, columns]) == columns,
{
    let shape = seq![1usize, 1, columns];
    let (pair, single) = (shape.drop_last(), shape.drop_last().drop_last());
    assert(single.drop_last() =~= Seq::<usize>::empty());
    assert(product(single.drop_last()) == 1);
    assert(product(single) == 1 * single.last() as nat);
    assert(product(pair) == 1 * pair.last() as nat);
    assert(product(shape) == 1 * shape.last() as nat);
}

/// Projects hidden rows onto a range of rows of the table and one more row.
pub fn embedding_projection(
    input: &TensorInfo,
    weight: &QuantTensor,
    semantic_start: usize,
    semantic_rows: usize,
    eos_row: usize,
) -> (plan: Result<EmbeddingPlan, Rejection>)
    ensures
        if input.shape@.len() != 3 || weight.info.shape@.len() != 2 {
            plan == Err::<EmbeddingPlan, Rejection>(Rejection::WrongRank)
        } else {
            match scheme_of(weight.info) {
                None => if semantic_start + semantic_rows > usize::MAX || eos_row == usize::MAX
                    || semantic_rows == usize::MAX || input.shape@[0] * input.shape@[1]
                    > usize::MAX {
                    plan == Err::<EmbeddingPlan, Rejection>(Rejection::TooLarge)
                } else {
                    plan == Ok::<EmbeddingPlan, Rejection>(
                        EmbeddingPlan::Dense {
                            start: semantic_start,
                            end: (semantic_start + semantic_rows) as usize,
                            eos: eos_row,
                            width: weight.info.shape@[1],
                            rows: (input.shape@[0] * input.shape@[1]) as usize,
                            columns: (semantic_rows + 1) as usize,
                        },
                    )
                },
                Some(scheme) => if !q4_embedding(scheme) {
                    plan == Err::<EmbeddingPlan, Rejection>(Rejection::UnsupportedScheme)
                } else {
                    fused_lookup(plan) matches Some(plan)
                        && q4_embedding_projection_planned(
                        plan,
                        *input,
                        *weight,
                        low_word(semantic_start as int) as u32,
                        low_word(semantic_rows as int) as u32,
                        low_word(eos_row as int) as u32,
                    )
                },
            }
        },
{
    if input.shape.len() != 3 || weight.info.shape.len() != 2 {
        return Err(Rejection::WrongRank);
    }
    match &weight.info.dtype {
        DType::QFloat(scheme) => {
            if !is_q4_embedding_scheme(scheme) {
                return Err(Rejection::UnsupportedScheme);
            }
            lookup_route(
                CubeBackend::fused_q4_embedding_projection(
                    input,
                    weight,
                    truncate(semantic_start),
                    truncate(semantic_rows),
                    truncate(eos_row),
                ),
            )
        },
        _ => {
            if eos_row == usize::MAX || semantic_rows == usize::MAX {
                return Err(Rejection::TooLarge);
            }
            let end = semantic_start.checked_add(semantic_rows);
            let rows = input.shape[0].checked_mul(input.shape[1]);
            match (end, rows) {
                (Some(end), Some(rows)) => Ok(
                    EmbeddingPlan::Dense {
                        start: semantic_start,
                        end,
                        eos: eos_row,
                        width: weight.info.shape[1],
                        rows,
                        columns: semantic_rows + 1,
                    },
                ),
                _ => Err(Rejection::TooLarge),
            }
        },
    }
}

/// Samples one token; at most as many candidates as there are logits are ranked.
pub fn sample_topk(
    logits: &TensorInfo,
    random_scores: &TensorInfo,
    random_cursor: &TensorInfo,
    temperature: Real,
    top_p: Real,
    top_k: usize,
) -> (plan: Result<Plan, Rejection>)
    ensures
        if logits.shape@.len() != 2 || random_scores.shape@.len() != 1 || random_cursor.shape@.len()
            != 1 {
            plan == Err::<Plan, Rejection>(Rejection::WrongRank)
        } else if !(0 < temperature.double < DOUBLE_INFINITY_BITS) || !(0 < top_p.double
            <= DOUBLE_ONE_BITS) || top_k == 0 {
            plan == Err::<Plan, Rejection>(Rejection::BadParameter)
        } else {
            let limit = if top_k < logits.shape@[1] {
                top_k
            } else {
                logits.shape@[1]
            };
            sample_topk_planned(
                plan,
                *logits,
                *random_scores,
                *random_cursor,
                temperature.single,
                top_p.single,
                low_word(limit as int) as u32,
            )
        },
{
    if logits.shape.len() != 2 || random_scores.shape.len() != 1 || random_cursor.shape.len() != 1 {
        return Err(Rejection::WrongRank);
    }
    if !is_positive_finite_double(temperature.double) || !is_positive_finite_double(top_p.double)
        || top_p.double > DOUBLE_ONE_BITS || top_k == 0 {
        return Err(Rejection::BadParameter);
    }
    let width: usize = logits.shape[1];
    let limit: usize = if top_k < width {
        top_k
    } else {
        width
    };
    CubeBackend::fused_sample_topk(
        logits,
        random_scores,
        random_cursor,
        temperature.single,
        top_p.single,
        truncate(limit),
    )
}

} // verus!
