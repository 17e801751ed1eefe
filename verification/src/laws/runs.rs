//! Every operation answers for all operands, and every thread of a planned launch can be run on them.

use vstd::prelude::*;

use crate::accepted::{
    are_readable, lemma_attention_accepted, lemma_q4_embedding_accepted,
    lemma_q4_embedding_row_accepted, lemma_q4_gemv_accepted, lemma_q4_gemv_bias_accepted,
    lemma_q4_projection_accepted, lemma_q8_gemv_accepted, lemma_q8_gemv_bias_accepted,
};
use crate::attention::{attention_merge_unit, attention_partial_unit, attention_short_unit};
use crate::backend::{CubeBackend, MetalTransformerBackend};
use crate::calibration::{compute_q_params, compute_range, Calibration};
use crate::dequantize::{dequantize, dequantize_q4_k_block_unit, ExpandUnit};
use crate::elementwise::{element_unit, rms_norm_unit, rope_unit, RopeUnit};
use crate::embedding::{
    gathered_position, q4_embedding_projection_unit, q4_embedding_row_unit, q4_embedding_unit,
    TableEntry,
};
use crate::gemv::{gemv_bias_unit, gemv_unit, q4_gemv_unit, q8_gemv_unit, word_outputs};
use crate::laws::conversion::lemma_dequantize;
use crate::laws::counts::{lemma_created_is_counted, lemma_elements_of_three};
use crate::laws::linear::{lemma_linear, q4_arguments, q8_arguments, rows_of};
use crate::ops::{
    apply_rope, embedding, embedding_projection, embedding_row, grouped_query_attention_decode,
    linear, linear_prefix, rms_norm, sample_topk, silu_mul, EmbeddingPlan, LinearPlan, Real,
};
use crate::plan::{AttentionPlan, Kernel, Plan};
use crate::quantize::{quantize, quantize_q4_k_block_unit};
use crate::reject::Rejection;
use crate::scheme::{DType, QuantScheme};
use crate::shape::product;
use crate::tensor::{QuantParts, QuantTensor, TensorInfo};

verus! {

/// The operations answer whatever the operands are.
pub proof fn lemma_operations_answer(
    a: TensorInfo,
    b: TensorInfo,
    c: TensorInfo,
    bias: Option<&TensorInfo>,
    weight: QuantTensor,
    scheme: QuantScheme,
    dtype: DType,
    x: Real,
    y: Real,
    i: usize,
    j: usize,
    k: usize,
    shape: Vec<usize>,
    calibration: Calibration,
    low: Vec<u32>,
    high: Vec<u32>,
)
    ensures
        call_requires(rms_norm, (&a, &b, x)),
        call_requires(silu_mul, (&a, &b)),
        call_requires(apply_rope, (&a, &b, i)),
        call_requires(grouped_query_attention_decode, (&a, &b, &c)),
        call_requires(linear, (&a, &weight, bias)),
        call_requires(linear_prefix, (&a, &weight, i)),
        call_requires(embedding, (&a, &weight)),
        call_requires(embedding_row, (&weight, i)),
        call_requires(embedding_projection, (&a, &weight, i, j, k)),
        call_requires(sample_topk, (&a, &b, &c, x, y, i)),
        call_requires(quantize, (&a, &scheme, &b)),
        call_requires(dequantize, (&weight, &dtype)),
        call_requires(compute_range, (&scheme, &shape, calibration)),
        call_requires(compute_q_params, (&scheme, &low, &high)),
{
}

/// The fused operations answer whatever the operands are.
pub proof fn lemma_fused_operations_answer(
    a: TensorInfo,
    b: TensorInfo,
    c: TensorInfo,
    weight: QuantTensor,
    i: u32,
    j: u32,
    k: u32,
)
    ensures
        call_requires(CubeBackend::fused_rms_norm, (&a, &b, i)),
        call_requires(CubeBackend::fused_silu_mul, (&a, &b)),
        call_requires(CubeBackend::fused_rope, (&a, &b, i)),
        call_requires(CubeBackend::fused_grouped_query_attention_decode, (&a, &b, &c)),
        call_requires(CubeBackend::fused_gemv, (&a, &b, i)),
        call_requires(CubeBackend::fused_gemv_bias, (&a, &b, &c)),
        call_requires(CubeBackend::fused_q8_gemv, (&a, &weight, i)),
        call_requires(CubeBackend::fused_q8_gemv_bias, (&a, &weight, &c)),
        call_requires(CubeBackend::fused_q4_gemv, (&a, &weight, i)),
        call_requires(CubeBackend::fused_q4_gemv_bias, (&a, &weight, &c)),
        call_requires(CubeBackend::fused_q4_embedding, (&weight, &a)),
        call_requires(CubeBackend::fused_q4_embedding_row, (&weight, i)),
        call_requires(CubeBackend::fused_q4_embedding_projection, (&a, &weight, i, j, k)),
        call_requires(CubeBackend::fused_sample_topk, (&a, &b, &c, i, j, k)),
{
}

/// Every lane of a planned normalization can be run, and every thread can look for its element.
pub proof fn lemma_normalization_runs(
    input: TensorInfo,
    gamma: TensorInfo,
    epsilon: Real,
    plan: Plan,
    rows: usize,
    row: usize,
    lane: usize,
    cube: u32,
    thread: u32,
    threads: u32,
    len: usize,
)
    requires
        call_ensures(rms_norm, (&input, &gamma, epsilon), Ok::<Plan, Rejection>(plan)),
        rows * input.shape@[2] == product(input.shape@),
        row < rows,
        lane < 32,
    ensures
        call_requires(rms_norm_unit, (row, lane, rows, input.shape@[2])),
        call_requires(element_unit, (cube, thread, threads, len)),
{
    lemma_created_is_counted(input.shape@, input.dtype);
    assert(input.shape@.last() == input.shape@[2]);
}

/// Every thread of a planned rotation can be run, where features come in pairs and the frequencies
/// cover all positions and features.
pub proof fn lemma_rotation_runs(
    input: TensorInfo,
    frequencies: TensorInfo,
    sequence_dim: usize,
    plan: Plan,
    planned: u32,
    index: usize,
)
    requires
        call_ensures(
            apply_rope,
            (&input, &frequencies, sequence_dim),
            Ok::<Plan, Rejection>(plan),
        ),
        plan.kernel == (Kernel::Rope { sequence_dim: planned }),
        input.addressable(),
        input.shape@[3] % 2 == 0,
        frequencies.addressable(),
        frequencies.shape@[0] >= input.shape@[sequence_dim as int],
        frequencies.shape@[1] >= input.shape@[3],
        frequencies.shape@[2] >= 2,
    ensures
        call_requires(
            rope_unit,
            (index, product(input.shape@) as usize, &input, &frequencies, planned),
        ),
{
    lemma_created_is_counted(input.shape@, input.dtype);
}

/// Every lane of planned attention can be run.
pub proof fn lemma_attention_runs(
    query: TensorInfo,
    key: TensorInfo,
    value: TensorInfo,
    answer: AttentionPlan,
    cube: usize,
    lane: usize,
    output: TensorInfo,
    partials: TensorInfo,
)
    requires
        call_ensures(
            grouped_query_attention_decode,
            (&query, &key, &value),
            Ok::<AttentionPlan, Rejection>(answer),
        ),
        query.addressable(),
        key.addressable(),
        value.addressable(),
        lane < 32,
        output == (match answer {
            AttentionPlan::Short(plan) => plan.output.tensor,
            AttentionPlan::Long { partial, merge } => merge.output.tensor,
        }),
        answer matches AttentionPlan::Long { partial, merge } ==> partials == partial.output.tensor,
    ensures
        answer is Short && cube < query.shape@[0] * query.shape@[1] ==> call_requires(
            attention_short_unit,
            (cube, lane, &query, &key, &value, &output),
        ),
        answer is Long && cube < query.shape@[0] * query.shape@[1] * 8 ==> call_requires(
            attention_partial_unit,
            (cube, lane, &query, &key, &value, &partials),
        ),
        answer is Long && cube < query.shape@[0] * query.shape@[1] ==> call_requires(
            attention_merge_unit,
            (cube, lane, &partials, &output),
        ),
{
    lemma_attention_accepted(query, key, value, partials);
    lemma_created_is_counted(query.shape@, query.dtype);
    crate::accepted::lemma_row_major_addressable(output);
}

/// Every lane of a planned dense layer can be run, and with a bias where the weight can be counted.
pub proof fn lemma_dense_layer_runs(
    input: TensorInfo,
    weight: QuantTensor,
    bias: Option<&TensorInfo>,
    plan: Plan,
    rows: usize,
    group: usize,
    lane: usize,
)
    requires
        call_ensures(
            linear,
            (&input, &weight, bias),
            Ok::<LinearPlan, Rejection>(LinearPlan::Fused(plan)),
        ),
        !(weight.info.dtype is QFloat),
        weight.info.shape@[1] <= u32::MAX,
        weight.info.addressable(),
        rows == rows_of(input),
        product(input.shape@) <= usize::MAX,
        group < rows * weight.info.shape@[1],
        lane < 32,
    ensures
        call_requires(gemv_unit, (group, lane, rows, weight.info.shape@[1], &weight.info)),
        weight.info.shape@[0] * weight.info.shape@[1] <= usize::MAX ==> call_requires(
            gemv_bias_unit,
            (group, lane, rows, weight.info.shape@[0], weight.info.shape@[1]),
        ),
{
    lemma_linear(input, weight, bias, Ok(LinearPlan::Fused(plan)));
    lemma_elements_of_three(input.shape@);
}

/// Every lane of a planned packed layer can be run with the plan's own arguments, and every group
/// knows where to write.
pub proof fn lemma_packed_layer_runs(
    input: TensorInfo,
    weight: QuantTensor,
    bias: Option<&TensorInfo>,
    plan: Plan,
    parts: QuantParts,
    width: usize,
    block: usize,
    rows: usize,
    group: usize,
    lane: usize,
)
    requires
        call_ensures(
            linear,
            (&input, &weight, bias),
            Ok::<LinearPlan, Rejection>(LinearPlan::Fused(plan)),
        ),
        weight.info.shape@[1] <= u32::MAX,
        weight.parts == Some(parts),
        are_readable(parts),
        rows == rows_of(input),
        lane < 32,
    ensures
        q4_arguments(plan.kernel, bias is Some) == Some((width as int, block as int)) && group < rows
            * (width as int / 8) ==> call_requires(
            q4_gemv_unit,
            (
                group,
                lane,
                rows,
                weight.info.shape@[1],
                width,
                block,
                &parts.values,
                &parts.scales,
            ),
        ) && call_requires(word_outputs, (group, rows, width, 8)),
        q8_arguments(plan.kernel, bias is Some) == Some((width as int, block as int)) && group < rows
            * (width as int / 4) ==> call_requires(
            q8_gemv_unit,
            (
                group,
                lane,
                rows,
                weight.info.shape@[1],
                width,
                block,
                &parts.values,
                &parts.scales,
            ),
        ) && call_requires(word_outputs, (group, rows, width, 4)),
{
    lemma_linear(input, weight, bias, Ok(LinearPlan::Fused(plan)));
    let columns = weight.info.shape@[1];
    vstd::arithmetic::div_mod::lemma_small_mod(columns as nat, 0x1_0000_0000);
    let owned = match bias {
        Some(bias) => Some(*bias),
        None => None,
    };
    let fused = q4_arguments(plan.kernel, bias is Some) is Some || q8_arguments(
        plan.kernel,
        bias is Some,
    ) is Some;
    if fused {
        let shape = crate::rules::product_shape(input.shape@, columns as int);
        assert(shape =~= seq![input.shape@[0], input.shape@[1], columns]);
        lemma_elements_of_three(shape);
        lemma_created_is_counted(shape, input.dtype);
    }
    if q4_arguments(plan.kernel, bias is Some) is Some {
        match owned {
            Some(bias) => lemma_q4_gemv_bias_accepted(input, weight, bias),
            None => lemma_q4_gemv_accepted(input, weight, columns as u32),
        }
    }
    if q8_arguments(plan.kernel, bias is Some) is Some {
        match owned {
            Some(bias) => lemma_q8_gemv_bias_accepted(input, weight, bias),
            None => lemma_q8_gemv_accepted(input, weight, columns as u32),
        }
    }
}

/// Every thread of a planned lookup can be run with the plan's own argument, for indices within the
/// table.
pub proof fn lemma_lookup_runs(
    indices: TensorInfo,
    table: QuantTensor,
    plan: Plan,
    parts: QuantParts,
    width: u32,
    index: usize,
    len: usize,
    row: usize,
)
    requires
        call_ensures(
            embedding,
            (&indices, &table),
            Ok::<EmbeddingPlan, Rejection>(EmbeddingPlan::Fused(plan)),
        ),
        table.info.shape@[1] <= u32::MAX,
        table.parts == Some(parts),
        are_readable(parts),
        plan.kernel == (Kernel::Q4Embedding { hidden_width: width }),
        row < table.info.shape@[0],
        len == product(plan.output.tensor.shape@),
    ensures
        call_requires(
            q4_embedding_unit,
            (index, len, row, width as usize, &parts.values, &parts.scales),
        ),
{
    vstd::arithmetic::div_mod::lemma_small_mod(table.info.shape@[1] as nat, 0x1_0000_0000);
    lemma_q4_embedding_accepted(table, indices);
    if table.info.shape@[1] == 0 {
        crate::shape::lemma_product_zero(plan.output.tensor.shape@, 2);
    }
}

/// Every thread that reads a planned row can be run with the plan's own argument.
pub proof fn lemma_row_runs(
    table: QuantTensor,
    row: usize,
    plan: Plan,
    parts: QuantParts,
    planned: u32,
    column: usize,
)
    requires
        call_ensures(
            embedding_row,
            (&table, row),
            Ok::<EmbeddingPlan, Rejection>(EmbeddingPlan::Fused(plan)),
        ),
        table.parts == Some(parts),
        are_readable(parts),
        plan.kernel == (Kernel::Q4EmbeddingRow { row: planned }),
    ensures
        call_requires(
            q4_embedding_row_unit,
            (column, planned as usize, table.info.shape@[1], &parts.values, &parts.scales),
        ),
{
    lemma_q4_embedding_row_accepted(table, planned);
}

/// Every lane of a planned projection can be run with the plan's own arguments, onto a table whose rows
/// are whole blocks.
pub proof fn lemma_projection_runs(
    input: TensorInfo,
    table: QuantTensor,
    first: usize,
    count: usize,
    last: usize,
    plan: Plan,
    parts: QuantParts,
    start: u32,
    rows: u32,
    eos: u32,
    inputs: usize,
    index: usize,
    lane: usize,
)
    requires
        call_ensures(
            embedding_projection,
            (&input, &table, first, count, last),
            Ok::<EmbeddingPlan, Rejection>(EmbeddingPlan::Fused(plan)),
        ),
        table.parts == Some(parts),
        are_readable(parts),
        table.info.shape@[1] % 32 == 0,
        plan.kernel == (Kernel::Q4EmbeddingProjection {
            semantic_start: start,
            semantic_rows: rows,
            eos_row: eos,
        }),
        inputs == rows_of(input),
        rows < usize::MAX,
        index < inputs * (rows + 1),
        lane < 32,
    ensures
        call_requires(
            q4_embedding_projection_unit,
            (
                index,
                lane,
                inputs,
                start as usize,
                rows as usize,
                eos as usize,
                &parts.values,
                &parts.scales,
            ),
        ),
{
    lemma_q4_projection_accepted(input, table, start, rows, eos);
}

/// Every thread of a planned expansion can be run with the plan's own arguments.
pub proof fn lemma_expansion_runs(
    tensor: QuantTensor,
    dtype: DType,
    output: crate::tensor::Allocation,
    launch: crate::tensor::Launch,
    rows: u32,
    columns: u32,
    block: u32,
    index: usize,
)
    requires
        call_ensures(
            dequantize,
            (&tensor, &dtype),
            Ok::<crate::dequantize::DequantizePlan, Rejection>(
                crate::dequantize::DequantizePlan::Q4KBlock {
                    output,
                    launch,
                    input_width: rows,
                    output_width: columns,
                    block_size: block,
                },
            ),
        ),
        tensor.info.shape@.len() <= usize::MAX,
        ({
            let shape = tensor.info.shape@;
            shape[shape.len() - 2] <= u32::MAX && shape[shape.len() - 1] <= u32::MAX
        }),
    ensures
        call_requires(
            dequantize_q4_k_block_unit,
            (
                index,
                product(tensor.info.shape@) as usize,
                rows as usize,
                columns as usize,
                block as usize,
            ),
        ),
{
    lemma_dequantize(
        tensor,
        dtype,
        Ok(
            crate::dequantize::DequantizePlan::Q4KBlock {
                output,
                launch,
                input_width: rows,
                output_width: columns,
                block_size: block,
            },
        ),
    );
    let shape = tensor.info.shape@;
    lemma_created_is_counted(shape, dtype);
    if rows == 0 {
        crate::shape::lemma_product_zero(shape, shape.len() - 2);
    }
    if columns == 0 {
        crate::shape::lemma_product_zero(shape, shape.len() - 1);
    }
}

/// Every thread that packs a word of a weight can be run, with scales for every block and with words
/// and scales of their own to write.
pub proof fn lemma_packing_runs(
    tensor: TensorInfo,
    scale: TensorInfo,
    values_out: TensorInfo,
    scales_out: TensorInfo,
    block: usize,
    index: usize,
    count: usize,
)
    requires
        tensor.addressable(),
        tensor.shape@.len() == 2,
        tensor.shape@[1] % 8 == 0,
        0 < block,
        tensor.shape@[0] as int % block as int == 0,
        count == tensor.shape@[0] * (tensor.shape@[1] as int / 8),
        scale.addressable() && scale.shape@.len() == 2,
        scale.shape@[0] == tensor.shape@[0] as int / block as int,
        scale.shape@[1] == tensor.shape@[1],
        values_out.addressable() && values_out.shape@.len() == 2,
        values_out.shape@[0] == tensor.shape@[0],
        values_out.shape@[1] == tensor.shape@[1] as int / 8,
        scales_out.addressable() && scales_out.shape@ == scale.shape@,
    ensures
        call_requires(
            quantize_q4_k_block_unit,
            (
                index,
                count,
                tensor.shape@[0],
                tensor.shape@[1],
                &tensor,
                &scale,
                &values_out,
                &scales_out,
                block,
            ),
        ),
{
}

/// Threads past the last element, and none before, find nothing to do.
pub proof fn lemma_nothing_past_the_end(
    index: usize,
    len: usize,
    width: usize,
    rows: usize,
    block: usize,
    row: usize,
    input: TensorInfo,
    frequencies: TensorInfo,
    sequence_dim: u32,
    values: TensorInfo,
    scales: TensorInfo,
    rotated: Option<RopeUnit>,
    position: Option<(usize, usize)>,
    found: Option<TableEntry>,
    column: Option<TableEntry>,
    expanded: Option<ExpandUnit>,
)
    requires
        call_ensures(rope_unit, (index, len, &input, &frequencies, sequence_dim), rotated),
        call_ensures(gathered_position, (index, len, width), position),
        call_ensures(q4_embedding_unit, (index, len, row, width, &values, &scales), found),
        call_ensures(q4_embedding_row_unit, (index, row, width, &values, &scales), column),
        call_ensures(dequantize_q4_k_block_unit, (index, len, rows, width, block), expanded),
    ensures
        rotated is Some <==> index < len,
        position is Some <==> index < len,
        found is Some <==> index < len,
        column is Some <==> index < width,
        expanded is Some <==> index < len,
{
}

} // verus!
