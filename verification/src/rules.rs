//! What the fused operations accept, and what they plan for operands that they accept.

use vstd::prelude::*;

use crate::bits::{INFINITY_BITS, ONE_BITS};
use crate::plan::{
    first_of, parts_rejection, planned, reason_if, scheme_of, AttentionPlan, Kernel, Plan,
};
use crate::ranking::{capacity_for, cube_threads, MAX_CAPACITY};
use crate::reject::Rejection;
use crate::scheme::{q4_block, q4_embedding, q8_block, same_dtype, DType};
use crate::shape::{ceil_div, low_word, product};
use crate::tensor::{allocatable, elemwise, grouped, Launch, QuantTensor, TensorInfo};

verus! {

/// Features of an attention head.
pub const HEAD_DIM: usize = 64;

/// Context length from which on attention is computed in shards.
pub const LONG_CONTEXT: usize = 128;

/// Shards of a long context.
pub const SHARDS: usize = 8;

/// Numbers that a shard hands to the merge: its maximum, its sum and its features.
pub const SHARD_WIDTH: usize = 66;

/// Why two operands cannot be combined.
pub open spec fn pair_rejection(a: TensorInfo, b: TensorInfo) -> Option<Rejection> {
    first_of(
        reason_if(a.device != b.device, Rejection::DeviceMismatch),
        reason_if(!same_dtype(a.dtype, b.dtype), Rejection::DTypeMismatch),
    )
}

/// Why two operands cannot be combined with a first one: devices are compared before types.
pub open spec fn triple_rejection(a: TensorInfo, b: TensorInfo, c: TensorInfo) -> Option<Rejection> {
    first_of(
        reason_if(a.device != b.device || a.device != c.device, Rejection::DeviceMismatch),
        reason_if(
            !same_dtype(a.dtype, b.dtype) || !same_dtype(a.dtype, c.dtype),
            Rejection::DTypeMismatch,
        ),
    )
}

/// Why rows are not normalized.
pub open spec fn rms_norm_rejection(input: TensorInfo, gamma: TensorInfo) -> Option<Rejection> {
    let shape = input.shape@;
    first_of(
        pair_rejection(input, gamma),
        if shape.len() == 0 {
            Some(Rejection::WrongRank)
        } else if product(gamma.shape@) != shape.last() {
            Some(Rejection::ShapeMismatch)
        } else if shape.last() == 0 {
            Some(Rejection::EmptyDimension)
        } else {
            reason_if(!allocatable(shape, input.dtype), Rejection::TooLarge)
        },
    )
}

/// Why the elementwise product is refused.
pub open spec fn silu_mul_rejection(input: TensorInfo, gate: TensorInfo) -> Option<Rejection> {
    first_of(
        pair_rejection(input, gate),
        first_of(
            reason_if(input.shape@ != gate.shape@, Rejection::ShapeMismatch),
            reason_if(!allocatable(input.shape@, input.dtype), Rejection::TooLarge),
        ),
    )
}

/// Why rotary embeddings are refused.
pub open spec fn rope_rejection(input: TensorInfo, frequencies: TensorInfo) -> Option<Rejection> {
    first_of(
        pair_rejection(input, frequencies),
        first_of(
            reason_if(
                input.shape@.len() != 4 || frequencies.shape@.len() != 3,
                Rejection::WrongRank,
            ),
            reason_if(!allocatable(input.shape@, input.dtype), Rejection::TooLarge),
        ),
    )
}

/// Shape of the intermediate results of a long context.
pub open spec fn partial_shape(query: Seq<usize>) -> Seq<usize> {
    seq![query[0], query[1], SHARDS, SHARD_WIDTH]
}

/// Why attention is refused.
pub open spec fn attention_rejection(
    query: TensorInfo,
    key: TensorInfo,
    value: TensorInfo,
) -> Option<Rejection> {
    let (q, k, v) = (query.shape@, key.shape@, value.shape@);
    first_of(
        triple_rejection(query, key, value),
        if q.len() != 4 || k.len() != 4 || v.len() != 4 {
            Some(Rejection::WrongRank)
        } else if q[0] != k[0] || k != v || q[2] != 1 || q[3] != HEAD_DIM || k[3] != HEAD_DIM {
            Some(Rejection::ShapeMismatch)
        } else if k[2] == 0 || k[1] == 0 {
            Some(Rejection::EmptyDimension)
        } else if q[1] as int % k[1] as int != 0 {
            Some(Rejection::Misaligned)
        } else if !allocatable(q, query.dtype) {
            Some(Rejection::TooLarge)
        } else {
            reason_if(
                k[2] >= LONG_CONTEXT && !allocatable(partial_shape(q), DType::F32),
                Rejection::TooLarge,
            )
        },
    )
}

/// `result` is the reason for a refusal, where there is one, and else the kernels for this context.
pub open spec fn attention_planned(
    result: Result<AttentionPlan, Rejection>,
    query: TensorInfo,
    key: TensorInfo,
    value: TensorInfo,
) -> bool {
    let rejection = attention_rejection(query, key, value);
    let q = query.shape@;
    let heads = q[0] * q[1];
    match result {
        Err(reason) => rejection == Some(reason),
        Ok(AttentionPlan::Short(plan)) => key.shape@[2] < LONG_CONTEXT && planned(
            Ok(plan),
            rejection,
            Kernel::AttentionShort,
            grouped(heads),
            query.device,
            query.dtype,
            q,
        ),
        Ok(AttentionPlan::Long { partial, merge }) => {
            &&& key.shape@[2] >= LONG_CONTEXT
            &&& planned(
                Ok(partial),
                rejection,
                Kernel::AttentionPartial,
                grouped(heads * SHARDS),
                query.device,
                DType::F32,
                partial_shape(q),
            )
            &&& planned(
                Ok(merge),
                rejection,
                Kernel::AttentionMerge,
                grouped(heads),
                query.device,
                query.dtype,
                q,
            )
        },
    }
}

/// Shape of the product of input rows with `output_width` columns of a weight.
pub open spec fn product_shape(input: Seq<usize>, output_width: int) -> Seq<usize> {
    input.update(2, output_width as usize)
}

/// Why the product of an input with leading columns of a weight has no output.
pub open spec fn prefix_rejection(
    input: TensorInfo,
    weight: TensorInfo,
    output_width: int,
) -> Option<Rejection> {
    let (i, w) = (input.shape@, weight.shape@);
    if i.len() != 3 || w.len() != 2 {
        Some(Rejection::WrongRank)
    } else if w[0] != i[2] {
        Some(Rejection::ShapeMismatch)
    } else if !(0 < output_width <= w[1]) {
        Some(Rejection::OutOfRange)
    } else {
        reason_if(!allocatable(product_shape(i, output_width), input.dtype), Rejection::TooLarge)
    }
}

/// Why a matrix-vector product is refused.
pub open spec fn gemv_rejection(
    input: TensorInfo,
    weight: TensorInfo,
    output_width: u32,
) -> Option<Rejection> {
    first_of(
        pair_rejection(input, weight),
        prefix_rejection(input, weight, output_width as int),
    )
}

/// Why a matrix-vector product with a bias is refused.
pub open spec fn gemv_bias_rejection(
    input: TensorInfo,
    weight: TensorInfo,
    bias: TensorInfo,
) -> Option<Rejection> {
    first_of(
        triple_rejection(input, weight, bias),
        first_of(
            prefix_rejection(input, weight, weight.shape@[1] as int),
            reason_if(product(bias.shape@) != weight.shape@[1], Rejection::ShapeMismatch),
        ),
    )
}

/// Why the rows of an input that each meet `input_width` rows of a weight are not counted.
pub open spec fn rows_rejection(input: TensorInfo, input_width: int) -> Option<Rejection> {
    first_of(
        reason_if(input_width == 0, Rejection::EmptyDimension),
        reason_if(product(input.shape@) > usize::MAX, Rejection::TooLarge),
    )
}

/// Why the eight-bit parts of a weight do not allow a product: rows are packed four columns to a
/// word and have one scale per `block` columns.
pub open spec fn q8_parts_rejection(weight: QuantTensor, block: int) -> Option<Rejection> {
    let (rows, columns) = (weight.info.shape@[0] as int, weight.info.shape@[1] as int);
    parts_rejection(weight, true, (rows, columns / 4), (rows, ceil_div(columns, block)))
}

/// Why a matrix-vector product with eight-bit weights is refused.
pub open spec fn q8_gemv_rejection(
    input: TensorInfo,
    weight: QuantTensor,
    output_width: u32,
) -> Option<Rejection> {
    first_of(
        reason_if(input.device != weight.info.device, Rejection::DeviceMismatch),
        match scheme_of(weight.info) {
            None => Some(Rejection::NotQuantized),
            Some(scheme) => match q8_block(scheme) {
                None => Some(Rejection::UnsupportedScheme),
                Some(block) => first_of(
                    prefix_rejection(input, weight.info, output_width as int),
                    first_of(
                        reason_if(output_width % 4 != 0, Rejection::Misaligned),
                        first_of(
                            q8_parts_rejection(weight, block as int),
                            rows_rejection(input, weight.info.shape@[0] as int),
                        ),
                    ),
                ),
            },
        },
    )
}

/// Why a matrix-vector product with eight-bit weights and a bias is refused.
pub open spec fn q8_gemv_bias_rejection(
    input: TensorInfo,
    weight: QuantTensor,
    bias: TensorInfo,
) -> Option<Rejection> {
    let columns = weight.info.shape@[1];
    first_of(
        quant_bias_rejection(input, weight, bias),
        match scheme_of(weight.info) {
            None => Some(Rejection::NotQuantized),
            Some(scheme) => match q8_block(scheme) {
                None => Some(Rejection::UnsupportedScheme),
                Some(block) => first_of(
                    prefix_rejection(input, weight.info, columns as int),
                    first_of(
                        reason_if(columns % 4 != 0, Rejection::Misaligned),
                        first_of(
                            reason_if(product(bias.shape@) != columns, Rejection::ShapeMismatch),
                            first_of(
                                q8_parts_rejection(weight, block as int),
                                rows_rejection(input, weight.info.shape@[0] as int),
                            ),
                        ),
                    ),
                ),
            },
        },
    )
}

/// Why an input, a quantized weight and a bias do not go together.
pub open spec fn quant_bias_rejection(
    input: TensorInfo,
    weight: QuantTensor,
    bias: TensorInfo,
) -> Option<Rejection> {
    first_of(
        reason_if(
            input.device != weight.info.device || input.device != bias.device,
            Rejection::DeviceMismatch,
        ),
        reason_if(!same_dtype(input.dtype, bias.dtype), Rejection::DTypeMismatch),
    )
}

/// Why the four-bit parts of a weight do not allow a product: rows are packed eight columns to a
/// word, and columns have one scale per `block` rows.
pub open spec fn q4_parts_rejection(weight: QuantTensor, block: int) -> Option<Rejection> {
    let (rows, columns) = (weight.info.shape@[0] as int, weight.info.shape@[1] as int);
    parts_rejection(weight, true, (rows, columns / 8), (rows / block, columns))
}

/// Why a matrix-vector product with four-bit weights is refused.
pub open spec fn q4_gemv_rejection(
    input: TensorInfo,
    weight: QuantTensor,
    output_width: u32,
) -> Option<Rejection> {
    let rows = weight.info.shape@[0] as int;
    first_of(
        reason_if(input.device != weight.info.device, Rejection::DeviceMismatch),
        match scheme_of(weight.info) {
            None => Some(Rejection::NotQuantized),
            Some(scheme) => match q4_block(scheme) {
                None => Some(Rejection::UnsupportedScheme),
                Some(block) => first_of(
                    prefix_rejection(input, weight.info, output_width as int),
                    first_of(
                        reason_if(
                            rows % block as int != 0 || output_width % 8 != 0,
                            Rejection::Misaligned,
                        ),
                        first_of(
                            q4_parts_rejection(weight, block as int),
                            rows_rejection(input, rows),
                        ),
                    ),
                ),
            },
        },
    )
}

/// Why a matrix-vector product with four-bit weights and a bias is refused.
pub open spec fn q4_gemv_bias_rejection(
    input: TensorInfo,
    weight: QuantTensor,
    bias: TensorInfo,
) -> Option<Rejection> {
    let (rows, columns) = (weight.info.shape@[0] as int, weight.info.shape@[1]);
    first_of(
        quant_bias_rejection(input, weight, bias),
        match scheme_of(weight.info) {
            None => Some(Rejection::NotQuantized),
            Some(scheme) => match q4_block(scheme) {
                None => Some(Rejection::UnsupportedScheme),
                Some(block) => first_of(
                    prefix_rejection(input, weight.info, columns as int),
                    first_of(
                        reason_if(
                            rows % block as int != 0 || columns % 8 != 0,
                            Rejection::Misaligned,
                        ),
                        first_of(
                            reason_if(product(bias.shape@) != columns, Rejection::ShapeMismatch),
                            first_of(
                                q4_parts_rejection(weight, block as int),
                                rows_rejection(input, rows),
                            ),
                        ),
                    ),
                ),
            },
        },
    )
}

/// Why the parts of a four-bit table cannot be read.
pub open spec fn table_parts_rejection(table: QuantTensor, typed: bool) -> Option<Rejection> {
    let (rows, columns) = (table.info.shape@[0] as int, table.info.shape@[1] as int);
    parts_rejection(table, typed, (rows, columns / 8), (rows, columns / 32))
}

/// Why a tensor is not a four-bit table.
pub open spec fn table_rejection(table: TensorInfo) -> Option<Rejection> {
    match scheme_of(table) {
        None => Some(Rejection::NotQuantized),
        Some(scheme) => reason_if(!q4_embedding(scheme), Rejection::UnsupportedScheme),
    }
}

/// Shape of gathered rows.
pub open spec fn gathered_shape(indices: Seq<usize>, columns: usize) -> Seq<usize> {
    seq![indices[0], indices[1], columns]
}

/// Why rows of a four-bit table are not gathered.
pub open spec fn q4_embedding_rejection(table: QuantTensor, indices: TensorInfo) -> Option<
    Rejection,
> {
    let (w, i) = (table.info.shape@, indices.shape@);
    first_of(
        reason_if(table.info.device != indices.device, Rejection::DeviceMismatch),
        first_of(
            table_rejection(table.info),
            if w.len() != 2 || i.len() != 2 {
                Some(Rejection::WrongRank)
            } else if w[1] % 32 != 0 {
                Some(Rejection::Misaligned)
            } else {
                first_of(
                    table_parts_rejection(table, true),
                    reason_if(
                        !allocatable(gathered_shape(i, w[1]), DType::F32),
                        Rejection::TooLarge,
                    ),
                )
            },
        ),
    )
}

/// Why one row of a four-bit table is not read.
pub open spec fn q4_embedding_row_rejection(table: QuantTensor, row: u32) -> Option<Rejection> {
    let w = table.info.shape@;
    first_of(
        table_rejection(table.info),
        if w.len() < 2 {
            Some(Rejection::WrongRank)
        } else if row >= w[0] {
            Some(Rejection::OutOfRange)
        } else if w[1] % 32 != 0 {
            Some(Rejection::Misaligned)
        } else {
            first_of(
                table_parts_rejection(table, false),
                reason_if(
                    !allocatable(seq![1, 1, w[1]], DType::F32),
                    Rejection::TooLarge,
                ),
            )
        },
    )
}

/// Shape of the products of input rows with a range of rows and one more.
pub open spec fn projection_shape(input: Seq<usize>, columns: int, semantic_rows: u32) -> Seq<usize> {
    seq![(product(input) as int / columns) as usize, (semantic_rows + 1) as usize]
}

/// Why an input is not projected onto a four-bit table.
pub open spec fn q4_projection_rejection(
    input: TensorInfo,
    table: QuantTensor,
    semantic_start: u32,
    semantic_rows: u32,
    eos_row: u32,
) -> Option<Rejection> {
    let (w, i) = (table.info.shape@, input.shape@);
    first_of(
        reason_if(input.device != table.info.device, Rejection::DeviceMismatch),
        first_of(
            table_rejection(table.info),
            if w.len() < 2 || i.len() != 3 {
                Some(Rejection::WrongRank)
            } else if i[2] != w[1] {
                Some(Rejection::ShapeMismatch)
            } else if semantic_start + semantic_rows > w[0] || eos_row >= w[0] {
                Some(Rejection::OutOfRange)
            } else {
                first_of(
                    table_parts_rejection(table, false),
                    first_of(
                        rows_rejection(input, w[1] as int),
                        reason_if(
                            semantic_rows + 1 > usize::MAX || !allocatable(
                                projection_shape(i, w[1] as int, semantic_rows),
                                input.dtype,
                            ),
                            Rejection::TooLarge,
                        ),
                    ),
                )
            },
        ),
    )
}

/// Why no token is sampled. Temperature and probability limit are single-precision patterns.
pub open spec fn sample_rejection(
    logits: TensorInfo,
    random_scores: TensorInfo,
    random_cursor: TensorInfo,
    temperature: u32,
    top_p: u32,
    top_k: u32,
) -> Option<Rejection> {
    let l = logits.shape@;
    if logits.device != random_scores.device || logits.device != random_cursor.device {
        Some(Rejection::DeviceMismatch)
    } else if !(logits.dtype is F32) {
        Some(Rejection::WrongDType)
    } else if !same_dtype(random_scores.dtype, logits.dtype) {
        Some(Rejection::DTypeMismatch)
    } else if l.len() != 2 {
        Some(Rejection::WrongRank)
    } else if l[0] != 1 {
        Some(Rejection::ShapeMismatch)
    } else if random_scores.shape@.len() != 1 {
        Some(Rejection::WrongRank)
    } else if product(random_cursor.shape@) != 1 {
        Some(Rejection::ShapeMismatch)
    } else if !(0 < temperature < INFINITY_BITS) || !(0 < top_p <= ONE_BITS) {
        Some(Rejection::BadParameter)
    } else if !(0 < top_k <= l[1]) {
        Some(Rejection::OutOfRange)
    } else {
        reason_if(l[1] > MAX_CAPACITY, Rejection::TooLarge)
    }
}

/// `plan` is what `fused_rms_norm` answers.
pub open spec fn rms_norm_planned(
    plan: Result<Plan, Rejection>,
    input: TensorInfo,
    gamma: TensorInfo,
    epsilon: u32,
) -> bool {
    planned(
        plan,
        rms_norm_rejection(input, gamma),
        Kernel::RmsNorm { epsilon },
        grouped(product(input.shape@) as int / input.shape@.last() as int),
        input.device,
        input.dtype,
        input.shape@,
    )
}

/// `plan` is what `fused_silu_mul` answers.
pub open spec fn silu_mul_planned(
    plan: Result<Plan, Rejection>,
    input: TensorInfo,
    gate: TensorInfo,
) -> bool {
    planned(
        plan,
        silu_mul_rejection(input, gate),
        Kernel::SiluMul,
        elemwise(product(input.shape@) as int),
        input.device,
        input.dtype,
        input.shape@,
    )
}

/// `plan` is what `fused_rope` answers.
pub open spec fn rope_planned(
    plan: Result<Plan, Rejection>,
    input: TensorInfo,
    frequencies: TensorInfo,
    sequence_dim: u32,
) -> bool {
    planned(
        plan,
        rope_rejection(input, frequencies),
        Kernel::Rope { sequence_dim },
        elemwise(product(input.shape@) as int),
        input.device,
        input.dtype,
        input.shape@,
    )
}

/// `plan` is what `fused_gemv` answers.
pub open spec fn gemv_planned(
    plan: Result<Plan, Rejection>,
    input: TensorInfo,
    weight: TensorInfo,
    output_width: u32,
) -> bool {
    planned(
        plan,
        gemv_rejection(input, weight, output_width),
        Kernel::Gemv { output_width },
        grouped(product(product_shape(input.shape@, output_width as int)) as int),
        input.device,
        input.dtype,
        product_shape(input.shape@, output_width as int),
    )
}

/// `plan` is what `fused_gemv_bias` answers.
pub open spec fn gemv_bias_planned(
    plan: Result<Plan, Rejection>,
    input: TensorInfo,
    weight: TensorInfo,
    bias: TensorInfo,
) -> bool {
    planned(
        plan,
        gemv_bias_rejection(input, weight, bias),
        Kernel::GemvBias,
        grouped(product(product_shape(input.shape@, weight.shape@[1] as int)) as int),
        input.device,
        input.dtype,
        product_shape(input.shape@, weight.shape@[1] as int),
    )
}

/// `plan` is what `fused_q8_gemv` answers.
pub open spec fn q8_gemv_planned(
    plan: Result<Plan, Rejection>,
    input: TensorInfo,
    weight: QuantTensor,
    output_width: u32,
) -> bool {
    planned(
        plan,
        q8_gemv_rejection(input, weight, output_width),
        Kernel::Q8Gemv { output_width, block_size: q8_scale_width(weight.info) },
        grouped(word_products(input, weight.info, output_width as int, 4)),
        input.device,
        input.dtype,
        product_shape(input.shape@, output_width as int),
    )
}

/// `plan` is what `fused_q8_gemv_bias` answers.
pub open spec fn q8_gemv_bias_planned(
    plan: Result<Plan, Rejection>,
    input: TensorInfo,
    weight: QuantTensor,
    bias: TensorInfo,
) -> bool {
    planned(
        plan,
        q8_gemv_bias_rejection(input, weight, bias),
        Kernel::Q8GemvBias {
            output_width: low_word(weight.info.shape@[1] as int) as u32,
            block_size: q8_scale_width(weight.info),
        },
        grouped(word_products(input, weight.info, weight.info.shape@[1] as int, 4)),
        input.device,
        input.dtype,
        product_shape(input.shape@, weight.info.shape@[1] as int),
    )
}

/// `plan` is what `fused_q4_gemv` answers.
pub open spec fn q4_gemv_planned(
    plan: Result<Plan, Rejection>,
    input: TensorInfo,
    weight: QuantTensor,
    output_width: u32,
) -> bool {
    planned(
        plan,
        q4_gemv_rejection(input, weight, output_width),
        Kernel::Q4Gemv { output_width, block_size: q4_scale_height(weight.info) },
        grouped(word_products(input, weight.info, output_width as int, 8)),
        input.device,
        input.dtype,
        product_shape(input.shape@, output_width as int),
    )
}

/// `plan` is what `fused_q4_gemv_bias` answers.
pub open spec fn q4_gemv_bias_planned(
    plan: Result<Plan, Rejection>,
    input: TensorInfo,
    weight: QuantTensor,
    bias: TensorInfo,
) -> bool {
    planned(
        plan,
        q4_gemv_bias_rejection(input, weight, bias),
        Kernel::Q4GemvBias {
            output_width: low_word(weight.info.shape@[1] as int) as u32,
            block_size: q4_scale_height(weight.info),
        },
        grouped(word_products(input, weight.info, weight.info.shape@[1] as int, 8)),
        input.device,
        input.dtype,
        product_shape(input.shape@, weight.info.shape@[1] as int),
    )
}

/// `plan` is what `fused_q4_embedding` answers.
pub open spec fn q4_embedding_planned(
    plan: Result<Plan, Rejection>,
    weight: QuantTensor,
    indices: TensorInfo,
) -> bool {
    planned(
        plan,
        q4_embedding_rejection(weight, indices),
        Kernel::Q4Embedding {
            hidden_width: low_word(weight.info.shape@[1] as int) as u32,
        },
        elemwise(
            product(gathered_shape(indices.shape@, weight.info.shape@[1])) as int,
        ),
        weight.info.device,
        DType::F32,
        gathered_shape(indices.shape@, weight.info.shape@[1]),
    )
}

/// `plan` is what `fused_q4_embedding_row` answers.
pub open spec fn q4_embedding_row_planned(
    plan: Result<Plan, Rejection>,
    weight: QuantTensor,
    row: u32,
) -> bool {
    planned(
        plan,
        q4_embedding_row_rejection(weight, row),
        Kernel::Q4EmbeddingRow { row },
        elemwise(weight.info.shape@[1] as int),
        weight.info.device,
        DType::F32,
        seq![1, 1, weight.info.shape@[1]],
    )
}

/// `plan` is what `fused_q4_embedding_projection` answers.
pub open spec fn q4_embedding_projection_planned(
    plan: Result<Plan, Rejection>,
    input: TensorInfo,
    weight: QuantTensor,
    semantic_start: u32,
    semantic_rows: u32,
    eos_row: u32,
) -> bool {
    planned(
        plan,
        q4_projection_rejection(input, weight, semantic_start, semantic_rows, eos_row),
        Kernel::Q4EmbeddingProjection { semantic_start, semantic_rows, eos_row },
        grouped(
            product(input.shape@) as int / weight.info.shape@[1] as int * (semantic_rows
                + 1),
        ),
        input.device,
        input.dtype,
        projection_shape(input.shape@, weight.info.shape@[1] as int, semantic_rows),
    )
}

/// `plan` is what `fused_sample_topk` answers.
pub open spec fn sample_topk_planned(
    plan: Result<Plan, Rejection>,
    logits: TensorInfo,
    random_scores: TensorInfo,
    random_cursor: TensorInfo,
    temperature: u32,
    top_p: u32,
    top_k: u32,
) -> bool {
    let capacity = capacity_for(logits.shape@[1] as int);
    planned(
        plan,
        sample_rejection(logits, random_scores, random_cursor, temperature, top_p, top_k),
        Kernel::SampleTopk { temperature, top_p, top_k, sort_capacity: capacity as u32 },
        (Launch { cubes: 1, threads: cube_threads(capacity) as u32 }),
        logits.device,
        random_cursor.dtype,
        seq![2usize],
    )
}

/// Columns per scale of an eight-bit weight.
pub open spec fn q8_scale_width(weight: TensorInfo) -> u32 {
    match scheme_of(weight) {
        Some(scheme) => match q8_block(scheme) {
            Some(block) => block as u32,
            None => 0,
        },
        None => 0,
    }
}

/// Rows per scale of a four-bit weight.
pub open spec fn q4_scale_height(weight: TensorInfo) -> u32 {
    match scheme_of(weight) {
        Some(scheme) => match q4_block(scheme) {
            Some(block) => block as u32,
            None => 0,
        },
        None => 0,
    }
}

/// Number of words, each of `per_word` columns, that the products of all input rows go through.
pub open spec fn word_products(
    input: TensorInfo,
    weight: TensorInfo,
    output_width: int,
    per_word: int,
) -> int {
    product(input.shape@) as int / weight.shape@[0] as int * output_width / per_word
}

} // verus!
