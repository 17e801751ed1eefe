//! Fused transformer operations: checks of the operands and plans of the kernels.

use vstd::prelude::*;

use crate::bits::{is_positive_finite, ONE_BITS};
use crate::plan::{check_parts, plan_kernel, AttentionPlan, Kernel, Plan};
use crate::ranking::{sort_capacity, MAX_THREADS};
use crate::reject::Rejection;
use crate::rules::{
    attention_planned, gathered_shape, gemv_bias_planned, gemv_planned, pair_rejection,
    partial_shape, prefix_rejection, product_shape, projection_shape, q4_embedding_planned,
    q4_embedding_projection_planned, q4_embedding_row_planned, q4_gemv_bias_planned,
    q4_gemv_planned, q8_gemv_bias_planned, q8_gemv_planned, rms_norm_planned, rope_planned,
    rows_rejection, sample_topk_planned, silu_mul_planned, table_rejection, triple_rejection,
    HEAD_DIM, LONG_CONTEXT, SHARDS, SHARD_WIDTH,
};
use crate::scheme::{
    dtypes_equal, is_q4_embedding_scheme, q4_gemv_block_size, q8_gemv_block_size, DType,
};
use crate::shape::{copied, div_ceil, lemma_pair, num_elements, product, truncate};
use crate::tensor::{
    allocate, countable, elemwise_launch, grouped_launch, same_dims, Allocation, Launch,
    QuantTensor, TensorInfo,
};

verus! {

fn check_pair(a: &TensorInfo, b: &TensorInfo) -> (rejection: Option<Rejection>)
    ensures
        rejection == pair_rejection(*a, *b),
{
    if a.device != b.device {
        Some(Rejection::DeviceMismatch)
    } else if !dtypes_equal(&a.dtype, &b.dtype) {
        Some(Rejection::DTypeMismatch)
    } else {
        None
    }
}

fn check_triple(a: &TensorInfo, b: &TensorInfo, c: &TensorInfo) -> (rejection: Option<Rejection>)
    ensures
        rejection == triple_rejection(*a, *b, *c),
{
    if a.device != b.device || a.device != c.device {
        Some(Rejection::DeviceMismatch)
    } else if !dtypes_equal(&a.dtype, &b.dtype) || !dtypes_equal(&a.dtype, &c.dtype) {
        Some(Rejection::DTypeMismatch)
    } else {
        None
    }
}

// Number of elements of a tensor that can be created.
fn element_count(shape: &Vec<usize>) -> (count: Option<usize>)
    ensures
        match count {
            Some(n) => n == product(shape@),
            None => product(shape@) > usize::MAX && !countable(shape@),
        },
{
    let count = num_elements(shape);
    proof {
        if count is None {
            assert(shape@.skip(0) =~= shape@);
            assert(!(product(shape@.skip(0)) <= usize::MAX));
        }
    }
    count
}

/// Transformer operations that collapse common inference-only operator chains into one kernel.
pub trait MetalTransformerBackend {
    /// RMS normalization over the last dimension, one SIMD group per row.
    fn fused_rms_norm(input: &TensorInfo, gamma: &TensorInfo, epsilon: u32) -> (plan: Result<
        Plan,
        Rejection,
    >)
        ensures
            rms_norm_planned(plan, *input, *gamma, epsilon),
    ;

    /// `silu(input) * gate`, one thread per element.
    fn fused_silu_mul(input: &TensorInfo, gate: &TensorInfo) -> (plan: Result<Plan, Rejection>)
        ensures
            silu_mul_planned(plan, *input, *gate),
    ;

    /// Rotary position embeddings of a tensor of four dimensions, one thread per element.
    fn fused_rope(input: &TensorInfo, frequencies: &TensorInfo, sequence_dim: u32) -> (plan: Result<
        Plan,
        Rejection,
    >)
        ensures
            rope_planned(plan, *input, *frequencies, sequence_dim),
    ;

    /// Single-token grouped-query attention that reads key and value heads where they are.
    fn fused_grouped_query_attention_decode(
        query: &TensorInfo,
        key: &TensorInfo,
        value: &TensorInfo,
    ) -> (plan: Result<AttentionPlan, Rejection>)
        ensures
            attention_planned(plan, *query, *key, *value),
    ;

    /// Product with the leading columns of a row-major `[input, output]` weight, one SIMD group per
    /// output element.
    fn fused_gemv(input: &TensorInfo, weight: &TensorInfo, output_width: u32) -> (plan: Result<
        Plan,
        Rejection,
    >)
        ensures
            gemv_planned(plan, *input, *weight, output_width),
    ;

    /// Product with a weight, plus a bias.
    fn fused_gemv_bias(input: &TensorInfo, weight: &TensorInfo, bias: &TensorInfo) -> (plan: Result<
        Plan,
        Rejection,
    >)
        ensures
            gemv_bias_planned(plan, *input, *weight, *bias),
    ;

    /// Product with the leading columns of a packed eight-bit weight, one SIMD group per word.
    fn fused_q8_gemv(input: &TensorInfo, weight: &QuantTensor, output_width: u32) -> (plan: Result<
        Plan,
        Rejection,
    >)
        ensures
            q8_gemv_planned(plan, *input, *weight, output_width),
    ;

    /// Product with a packed eight-bit weight, plus a bias.
    fn fused_q8_gemv_bias(input: &TensorInfo, weight: &QuantTensor, bias: &TensorInfo) -> (plan:
        Result<Plan, Rejection>)
        ensures
            q8_gemv_bias_planned(plan, *input, *weight, *bias),
    ;

    /// Product with the leading columns of a packed four-bit weight, one SIMD group per word.
    fn fused_q4_gemv(input: &TensorInfo, weight: &QuantTensor, output_width: u32) -> (plan: Result<
        Plan,
        Rejection,
    >)
        ensures
            q4_gemv_planned(plan, *input, *weight, output_width),
    ;

    /// Product with a packed four-bit weight, plus a bias.
    fn fused_q4_gemv_bias(input: &TensorInfo, weight: &QuantTensor, bias: &TensorInfo) -> (plan:
        Result<Plan, Rejection>)
        ensures
            q4_gemv_bias_planned(plan, *input, *weight, *bias),
    ;

    /// Rows of a packed four-bit table, one thread per element.
    fn fused_q4_embedding(weight: &QuantTensor, indices: &TensorInfo) -> (plan: Result<
        Plan,
        Rejection,
    >)
        ensures
            q4_embedding_planned(plan, *weight, *indices),
    ;

    /// One row of a packed four-bit table, one thread per element.
    fn fused_q4_embedding_row(weight: &QuantTensor, row: u32) -> (plan: Result<Plan, Rejection>)
        ensures
            q4_embedding_row_planned(plan, *weight, row),
    ;

    /// Products of input rows with a range of rows of a packed four-bit table and with one more
    /// row, one SIMD group per product.
    fn fused_q4_embedding_projection(
        input: &TensorInfo,
        weight: &QuantTensor,
        semantic_start: u32,
        semantic_rows: u32,
        eos_row: u32,
    ) -> (plan: Result<Plan, Rejection>)
        ensures
            q4_embedding_projection_planned(
                plan,
                *input,
                *weight,
                semantic_start,
                semantic_rows,
                eos_row,
            ),
    ;

    /// Samples one token in a single cube; the output is the token and the next random cursor.
    fn fused_sample_topk(
        logits: &TensorInfo,
        random_scores: &TensorInfo,
        random_cursor: &TensorInfo,
        temperature: u32,
        top_p: u32,
        top_k: u32,
    ) -> (plan: Result<Plan, Rejection>)
        ensures
            sample_topk_planned(
                plan,
                *logits,
                *random_scores,
                *random_cursor,
                temperature,
                top_p,
                top_k,
            ),
    ;
}

/// Plans of the fused operations for devices that run `cubecl` kernels.
#[derive(Clone, Copy, Debug, PartialEq, Eq, Structural)]
pub struct CubeBackend;

/// Prepares the product of input rows with leading columns of a weight.
pub fn gemv_prefix_output(input: &TensorInfo, weight: &TensorInfo, output_width: usize) -> (result:
    Result<Allocation, Rejection>)
    ensures
        match result {
            Err(reason) => prefix_rejection(*input, *weight, output_width as int) == Some(reason),
            Ok(output) => prefix_rejection(*input, *weight, output_width as int) is None
                && output.is_for(
                input.device,
                input.dtype,
                product_shape(input.shape@, output_width as int),
            ) && product(product_shape(input.shape@, output_width as int)) <= usize::MAX,
        },
{
    if input.shape.len() != 3 || weight.shape.len() != 2 {
        return Err(Rejection::WrongRank);
    }
    if weight.shape[0] != input.shape[2] {
        return Err(Rejection::ShapeMismatch);
    }
    if output_width == 0 || output_width > weight.shape[1] {
        return Err(Rejection::OutOfRange);
    }
    let mut dims = copied(&input.shape);
    dims.set(2, output_width);
    assert(dims@ =~= product_shape(input.shape@, output_width as int));
    proof {
        let shape = product_shape(input.shape@, output_width as int);
        if countable(shape) {
            assert(shape.skip(0) =~= shape);
            assert(product(shape.skip(0)) <= usize::MAX);
        }
    }
    match allocate(input.device, &input.dtype, dims) {
        Some(output) => Ok(output),
        None => Err(Rejection::TooLarge),
    }
}

/// Prepares the product of input rows with a weight.
pub fn gemv_output(input: &TensorInfo, weight: &TensorInfo) -> (result: Result<
    Allocation,
    Rejection,
>)
    ensures
        match result {
            Err(reason) => if weight.shape@.len() < 2 {
                reason == Rejection::WrongRank
            } else {
                prefix_rejection(*input, *weight, weight.shape@[1] as int) == Some(reason)
            },
            Ok(output) => {
                let shape = product_shape(input.shape@, weight.shape@[1] as int);
                weight.shape@.len() >= 2 && prefix_rejection(
                    *input,
                    *weight,
                    weight.shape@[1] as int,
                ) is None && output.is_for(input.device, input.dtype, shape) && product(shape)
                    <= usize::MAX
            },
        },
{
    if weight.shape.len() < 2 {
        return Err(Rejection::WrongRank);
    }
    gemv_prefix_output(input, weight, weight.shape[1])
}

// Number of rows of an input of three dimensions whose rows are `input_width` long, times the
// width of the product.
fn row_products(input: &TensorInfo, input_width: usize, output_width: usize) -> (count: Result<
    usize,
    Rejection,
>)
    requires
        input.shape@.len() == 3,
        input.shape@[2] == input_width,
        product(product_shape(input.shape@, output_width as int)) <= usize::MAX,
    ensures
        match count {
            Err(reason) => rows_rejection(*input, input_width as int) == Some(reason),
            Ok(count) => rows_rejection(*input, input_width as int) is None && count == product(
                input.shape@,
            ) as int / input_width as int * output_width,
        },
{
    if input_width == 0 {
        return Err(Rejection::EmptyDimension);
    }
    match num_elements(&input.shape) {
        None => Err(Rejection::TooLarge),
        Some(count) => {
            let rows: usize = count / input_width;
            proof {
                let shape = product_shape(input.shape@, output_width as int);
                assert(shape.drop_last() =~= input.shape@.drop_last());
                let outer = product(input.shape@.drop_last()) as int;
                assert(product(input.shape@) == outer * input_width);
                lemma_pair(outer, input_width as int, 0);
                assert(rows == outer);
                assert(product(shape) == outer * output_width);
            }
            Ok(rows * output_width)
        },
    }
}

impl MetalTransformerBackend for CubeBackend {
    fn fused_rms_norm(input: &TensorInfo, gamma: &TensorInfo, epsilon: u32) -> (plan: Result<
        Plan,
        Rejection,
    >) {
        match check_pair(input, gamma) {
            Some(reason) => {
                return Err(reason);
            },
            None => {},
        }
        let rank: usize = input.shape.len();
        if rank == 0 {
            return Err(Rejection::WrongRank);
        }
        let width: usize = input.shape[rank - 1];
        match num_elements(&gamma.shape) {
            Some(count) if count == width => {},
            _ => {
                return Err(Rejection::ShapeMismatch);
            },
        }
        if width == 0 {
            return Err(Rejection::EmptyDimension);
        }
        match element_count(&input.shape) {
            Some(count) => plan_kernel(
                Kernel::RmsNorm { epsilon },
                grouped_launch(count / width),
                input.device,
                &input.dtype,
                copied(&input.shape),
            ),
            None => Err(Rejection::TooLarge),
        }
    }

    fn fused_silu_mul(input: &TensorInfo, gate: &TensorInfo) -> (plan: Result<Plan, Rejection>) {
        match check_pair(input, gate) {
            Some(reason) => {
                return Err(reason);
            },
            None => {},
        }
        if !same_dims(&input.shape, &gate.shape) {
            return Err(Rejection::ShapeMismatch);
        }
        match element_count(&input.shape) {
            Some(count) => plan_kernel(
                Kernel::SiluMul,
                elemwise_launch(count),
                input.device,
                &input.dtype,
                copied(&input.shape),
            ),
            None => Err(Rejection::TooLarge),
        }
    }

    fn fused_rope(input: &TensorInfo, frequencies: &TensorInfo, sequence_dim: u32) -> (plan: Result<
        Plan,
        Rejection,
    >) {
        match check_pair(input, frequencies) {
            Some(reason) => {
                return Err(reason);
            },
            None => {},
        }
        if input.shape.len() != 4 || frequencies.shape.len() != 3 {
            return Err(Rejection::WrongRank);
        }
        match element_count(&input.shape) {
            Some(count) => plan_kernel(
                Kernel::Rope { sequence_dim },
                elemwise_launch(count),
                input.device,
                &input.dtype,
                copied(&input.shape),
            ),
            None => Err(Rejection::TooLarge),
        }
    }

    fn fused_grouped_query_attention_decode(
        query: &TensorInfo,
        key: &TensorInfo,
        value: &TensorInfo,
    ) -> (plan: Result<AttentionPlan, Rejection>) {
        match check_triple(query, key, value) {
            Some(reason) => {
                return Err(reason);
            },
            None => {},
        }
        if query.shape.len() != 4 || key.shape.len() != 4 || value.shape.len() != 4 {
            return Err(Rejection::WrongRank);
        }
        if query.shape[0] != key.shape[0] || !same_dims(&key.shape, &value.shape) || query.shape[2]
            != 1 || query.shape[3] != HEAD_DIM || key.shape[3] != HEAD_DIM {
            return Err(Rejection::ShapeMismatch);
        }
        if key.shape[2] == 0 || key.shape[1] == 0 {
            return Err(Rejection::EmptyDimension);
        }
        if query.shape[1] % key.shape[1] != 0 {
            return Err(Rejection::Misaligned);
        }
        let output = match allocate(query.device, &query.dtype, copied(&query.shape)) {
            Some(output) => output,
            None => {
                return Err(Rejection::TooLarge);
            },
        };
        let (batches, heads) = (query.shape[0], query.shape[1]);
        proof {
            lemma_head_count(query.shape@);
        }
        let cubes: usize = batches * heads;
        if key.shape[2] < LONG_CONTEXT {
            return Ok(
                AttentionPlan::Short(
                    Plan { kernel: Kernel::AttentionShort, launch: grouped_launch(cubes), output },
                ),
            );
        }
        let partial_dims = vec![batches, heads, SHARDS, SHARD_WIDTH];
        assert(partial_dims@ =~= partial_shape(query.shape@));
        let partials = match allocate(query.device, &DType::F32, partial_dims) {
            Some(partials) => partials,
            None => {
                return Err(Rejection::TooLarge);
            },
        };
        proof {
            lemma_partial_count(query.shape@);
        }
        Ok(
            AttentionPlan::Long {
                partial: Plan {
                    kernel: Kernel::AttentionPartial,
                    launch: grouped_launch(cubes * SHARDS),
                    output: partials,
                },
                merge: Plan { kernel: Kernel::AttentionMerge, launch: grouped_launch(cubes), output },
            },
        )
    }

    fn fused_gemv(input: &TensorInfo, weight: &TensorInfo, output_width: u32) -> (plan: Result<
        Plan,
        Rejection,
    >) {
        match check_pair(input, weight) {
            Some(reason) => {
                return Err(reason);
            },
            None => {},
        }
        match gemv_prefix_output(input, weight, output_width as usize) {
            Err(reason) => Err(reason),
            Ok(output) => match num_elements(&output.tensor.shape) {
                Some(count) => Ok(
                    Plan {
                        kernel: Kernel::Gemv { output_width },
                        launch: grouped_launch(count),
                        output,
                    },
                ),
                None => Err(Rejection::TooLarge),
            },
        }
    }

    fn fused_gemv_bias(input: &TensorInfo, weight: &TensorInfo, bias: &TensorInfo) -> (plan: Result<
        Plan,
        Rejection,
    >) {
        match check_triple(input, weight, bias) {
            Some(reason) => {
                return Err(reason);
            },
            None => {},
        }
        match gemv_output(input, weight) {
            Err(reason) => Err(reason),
            Ok(output) => {
                match num_elements(&bias.shape) {
                    Some(count) if count == weight.shape[1] => {},
                    _ => {
                        return Err(Rejection::ShapeMismatch);
                    },
                }
                match num_elements(&output.tensor.shape) {
                    Some(count) => Ok(
                        Plan { kernel: Kernel::GemvBias, launch: grouped_launch(count), output },
                    ),
                    None => Err(Rejection::TooLarge),
                }
            },
        }
    }

    fn fused_q8_gemv(input: &TensorInfo, weight: &QuantTensor, output_width: u32) -> (plan: Result<
        Plan,
        Rejection,
    >) {
        if input.device != weight.info.device {
            return Err(Rejection::DeviceMismatch);
        }
        let block_size: usize = match &weight.info.dtype {
            DType::QFloat(scheme) => match q8_gemv_block_size(scheme) {
                Some(block_size) => block_size,
                None => {
                    return Err(Rejection::UnsupportedScheme);
                },
            },
            _ => {
                return Err(Rejection::NotQuantized);
            },
        };
        let output = match gemv_prefix_output(input, &weight.info, output_width as usize) {
            Ok(output) => output,
            Err(reason) => {
                return Err(reason);
            },
        };
        if output_width % 4 != 0 {
            return Err(Rejection::Misaligned);
        }
        let input_width: usize = weight.info.shape[0];
        let full_output_width: usize = weight.info.shape[1];
        match check_parts(
            weight,
            true,
            (input_width, full_output_width / 4),
            (input_width, div_ceil(full_output_width, block_size)),
        ) {
            Some(reason) => {
                return Err(reason);
            },
            None => {},
        }
        match row_products(input, input_width, output_width as usize) {
            Err(reason) => Err(reason),
            Ok(count) => Ok(
                Plan {
                    kernel: Kernel::Q8Gemv { output_width, block_size: block_size as u32 },
                    launch: grouped_launch(count / 4),
                    output,
                },
            ),
        }
    }

    fn fused_q8_gemv_bias(input: &TensorInfo, weight: &QuantTensor, bias: &TensorInfo) -> (plan:
        Result<Plan, Rejection>) {
        if input.device != weight.info.device || input.device != bias.device {
            return Err(Rejection::DeviceMismatch);
        }
        if !dtypes_equal(&input.dtype, &bias.dtype) {
            return Err(Rejection::DTypeMismatch);
        }
        let block_size: usize = match &weight.info.dtype {
            DType::QFloat(scheme) => match q8_gemv_block_size(scheme) {
                Some(block_size) => block_size,
                None => {
                    return Err(Rejection::UnsupportedScheme);
                },
            },
            _ => {
                return Err(Rejection::NotQuantized);
            },
        };
        let output = match gemv_output(input, &weight.info) {
            Ok(output) => output,
            Err(reason) => {
                return Err(reason);
            },
        };
        let input_width: usize = weight.info.shape[0];
        let output_width: usize = weight.info.shape[1];
        if output_width % 4 != 0 {
            return Err(Rejection::Misaligned);
        }
        match num_elements(&bias.shape) {
            Some(count) if count == output_width => {},
            _ => {
                return Err(Rejection::ShapeMismatch);
            },
        }
        match check_parts(
            weight,
            true,
            (input_width, output_width / 4),
            (input_width, div_ceil(output_width, block_size)),
        ) {
            Some(reason) => {
                return Err(reason);
            },
            None => {},
        }
        match row_products(input, input_width, output_width) {
            Err(reason) => Err(reason),
            Ok(count) => Ok(
                Plan {
                    kernel: Kernel::Q8GemvBias {
                        output_width: truncate(output_width),
                        block_size: block_size as u32,
                    },
                    launch: grouped_launch(count / 4),
                    output,
                },
            ),
        }
    }

    fn fused_q4_gemv(input: &TensorInfo, weight: &QuantTensor, output_width: u32) -> (plan: Result<
        Plan,
        Rejection,
    >) {
        if input.device != weight.info.device {
            return Err(Rejection::DeviceMismatch);
        }
        let block_size: usize = match &weight.info.dtype {
            DType::QFloat(scheme) => match q4_gemv_block_size(scheme) {
                Some(block_size) => block_size,
                None => {
                    return Err(Rejection::UnsupportedScheme);
                },
            },
            _ => {
                return Err(Rejection::NotQuantized);
            },
        };
        let output = match gemv_prefix_output(input, &weight.info, output_width as usize) {
            Ok(output) => output,
            Err(reason) => {
                return Err(reason);
            },
        };
        let input_width: usize = weight.info.shape[0];
        let full_output_width: usize = weight.info.shape[1];
        if input_width % block_size != 0 || output_width % 8 != 0 {
            return Err(Rejection::Misaligned);
        }
        match check_parts(
            weight,
            true,
            (input_width, full_output_width / 8),
            (input_width / block_size, full_output_width),
        ) {
            Some(reason) => {
                return Err(reason);
            },
            None => {},
        }
        match row_products(input, input_width, output_width as usize) {
            Err(reason) => Err(reason),
            Ok(count) => Ok(
                Plan {
                    kernel: Kernel::Q4Gemv { output_width, block_size: block_size as u32 },
                    launch: grouped_launch(count / 8),
                    output,
                },
            ),
        }
    }

    fn fused_q4_gemv_bias(input: &TensorInfo, weight: &QuantTensor, bias: &TensorInfo) -> (plan:
        Result<Plan, Rejection>) {
        if input.device != weight.info.device || input.device != bias.device {
            return Err(Rejection::DeviceMismatch);
        }
        if !dtypes_equal(&input.dtype, &bias.dtype) {
            return Err(Rejection::DTypeMismatch);
        }
        let block_size: usize = match &weight.info.dtype {
            DType::QFloat(scheme) => match q4_gemv_block_size(scheme) {
                Some(block_size) => block_size,
                None => {
                    return Err(Rejection::UnsupportedScheme);
                },
            },
            _ => {
                return Err(Rejection::NotQuantized);
            },
        };
        let output = match gemv_output(input, &weight.info) {
            Ok(output) => output,
            Err(reason) => {
                return Err(reason);
            },
        };
        let input_width: usize = weight.info.shape[0];
        let output_width: usize = weight.info.shape[1];
        if input_width % block_size != 0 || output_width % 8 != 0 {
            return Err(Rejection::Misaligned);
        }
        match num_elements(&bias.shape) {
            Some(count) if count == output_width => {},
            _ => {
                return Err(Rejection::ShapeMismatch);
            },
        }
        match check_parts(
            weight,
            true,
            (input_width, output_width / 8),
            (input_width / block_size, output_width),
        ) {
            Some(reason) => {
                return Err(reason);
            },
            None => {},
        }
        match row_products(input, input_width, output_width) {
            Err(reason) => Err(reason),
            Ok(count) => Ok(
                Plan {
                    kernel: Kernel::Q4GemvBias {
                        output_width: truncate(output_width),
                        block_size: block_size as u32,
                    },
                    launch: grouped_launch(count / 8),
                    output,
                },
            ),
        }
    }

    fn fused_q4_embedding(weight: &QuantTensor, indices: &TensorInfo) -> (plan: Result<
        Plan,
        Rejection,
    >) {
        if weight.info.device != indices.device {
            return Err(Rejection::DeviceMismatch);
        }
        match check_table(&weight.info) {
            Some(reason) => {
                return Err(reason);
            },
            None => {},
        }
        if weight.info.shape.len() != 2 || indices.shape.len() != 2 {
            return Err(Rejection::WrongRank);
        }
        let rows: usize = weight.info.shape[0];
        let hidden_width: usize = weight.info.shape[1];
        if hidden_width % 32 != 0 {
            return Err(Rejection::Misaligned);
        }
        match check_parts(weight, true, (rows, hidden_width / 8), (rows, hidden_width / 32)) {
            Some(reason) => {
                return Err(reason);
            },
            None => {},
        }
        let dims = vec![indices.shape[0], indices.shape[1], hidden_width];
        assert(dims@ =~= gathered_shape(indices.shape@, hidden_width));
        match element_count(&dims) {
            Some(count) => plan_kernel(
                Kernel::Q4Embedding { hidden_width: truncate(hidden_width) },
                elemwise_launch(count),
                weight.info.device,
                &DType::F32,
                dims,
            ),
            None => Err(Rejection::TooLarge),
        }
    }

    fn fused_q4_embedding_row(weight: &QuantTensor, row: u32) -> (plan: Result<Plan, Rejection>) {
        match check_table(&weight.info) {
            Some(reason) => {
                return Err(reason);
            },
            None => {},
        }
        if weight.info.shape.len() < 2 {
            return Err(Rejection::WrongRank);
        }
        let rows: usize = weight.info.shape[0];
        let hidden_width: usize = weight.info.shape[1];
        if row as usize >= rows {
            return Err(Rejection::OutOfRange);
        }
        if hidden_width % 32 != 0 {
            return Err(Rejection::Misaligned);
        }
        match check_parts(weight, false, (rows, hidden_width / 8), (rows, hidden_width / 32)) {
            Some(reason) => {
                return Err(reason);
            },
            None => {},
        }
        let dims: Vec<usize> = vec![1, 1, hidden_width];
        assert(dims@ =~= seq![1, 1, hidden_width]);
        plan_kernel(
            Kernel::Q4EmbeddingRow { row },
            elemwise_launch(hidden_width),
            weight.info.device,
            &DType::F32,
            dims,
        )
    }

    fn fused_q4_embedding_projection(
        input: &TensorInfo,
        weight: &QuantTensor,
        semantic_start: u32,
        semantic_rows: u32,
        eos_row: u32,
    ) -> (plan: Result<Plan, Rejection>) {
        if input.device != weight.info.device {
            return Err(Rejection::DeviceMismatch);
        }
        match check_table(&weight.info) {
            Some(reason) => {
                return Err(reason);
            },
            None => {},
        }
        if weight.info.shape.len() < 2 || input.shape.len() != 3 {
            return Err(Rejection::WrongRank);
        }
        let table_rows: usize = weight.info.shape[0];
        let hidden_width: usize = weight.info.shape[1];
        if input.shape[2] != hidden_width {
            return Err(Rejection::ShapeMismatch);
        }
        let semantic_end: u64 = semantic_start as u64 + semantic_rows as u64;
        if semantic_end > table_rows as u64 || eos_row as usize >= table_rows {
            return Err(Rejection::OutOfRange);
        }
        match check_parts(
            weight,
            false,
            (table_rows, hidden_width / 8),
            (table_rows, hidden_width / 32),
        ) {
            Some(reason) => {
                return Err(reason);
            },
            None => {},
        }
        if hidden_width == 0 {
            return Err(Rejection::EmptyDimension);
        }
        let input_rows: usize = match num_elements(&input.shape) {
            Some(count) => count / hidden_width,
            None => {
                return Err(Rejection::TooLarge);
            },
        };
        if semantic_rows as usize == usize::MAX {
            return Err(Rejection::TooLarge);
        }
        let output_width: usize = semantic_rows as usize + 1;
        let dims = vec![input_rows, output_width];
        assert(dims@ =~= projection_shape(input.shape@, hidden_width as int, semantic_rows));
        match element_count(&dims) {
            Some(count) => {
                proof {
                    lemma_pair_product(dims@);
                }
                plan_kernel(
                    Kernel::Q4EmbeddingProjection { semantic_start, semantic_rows, eos_row },
                    grouped_launch(count),
                    input.device,
                    &input.dtype,
                    dims,
                )
            },
            None => Err(Rejection::TooLarge),
        }
    }

    fn fused_sample_topk(
        logits: &TensorInfo,
        random_scores: &TensorInfo,
        random_cursor: &TensorInfo,
        temperature: u32,
        top_p: u32,
        top_k: u32,
    ) -> (plan: Result<Plan, Rejection>) {
        if logits.device != random_scores.device || logits.device != random_cursor.device {
            return Err(Rejection::DeviceMismatch);
        }
        if !matches!(logits.dtype, DType::F32) {
            return Err(Rejection::WrongDType);
        }
        if !dtypes_equal(&random_scores.dtype, &logits.dtype) {
            return Err(Rejection::DTypeMismatch);
        }
        if logits.shape.len() != 2 {
            return Err(Rejection::WrongRank);
        }
        if logits.shape[0] != 1 {
            return Err(Rejection::ShapeMismatch);
        }
        if random_scores.shape.len() != 1 {
            return Err(Rejection::WrongRank);
        }
        match num_elements(&random_cursor.shape) {
            Some(1) => {},
            _ => {
                return Err(Rejection::ShapeMismatch);
            },
        }
        if !is_positive_finite(temperature) || !is_positive_finite(top_p) || top_p > ONE_BITS {
            return Err(Rejection::BadParameter);
        }
        let width: usize = logits.shape[1];
        if top_k == 0 || top_k as usize > width {
            return Err(Rejection::OutOfRange);
        }
        let capacity: usize = match sort_capacity(width) {
            Some(capacity) => capacity,
            None => {
                return Err(Rejection::TooLarge);
            },
        };
        let threads: usize = if capacity < MAX_THREADS {
            capacity
        } else {
            MAX_THREADS
        };
        let dims: Vec<usize> = vec![2];
        proof {
            assert(dims@ =~= seq![2usize]);
            lemma_two_elements();
        }
        plan_kernel(
            Kernel::SampleTopk { temperature, top_p, top_k, sort_capacity: capacity as u32 },
            Launch { cubes: 1, threads: threads as u32 },
            logits.device,
            &random_cursor.dtype,
            dims,
        )
    }
}

fn check_table(table: &TensorInfo) -> (rejection: Option<Rejection>)
    ensures
        rejection == table_rejection(*table),
{
    match &table.dtype {
        DType::QFloat(scheme) => if is_q4_embedding_scheme(scheme) {
            None
        } else {
            Some(Rejection::UnsupportedScheme)
        },
        _ => Some(Rejection::NotQuantized),
    }
}

proof fn lemma_head_count(query: Seq<usize>)
    requires
        query.len() == 4,
        query[2] == 1,
        query[3] == HEAD_DIM,
        countable(query),
    ensures
        query[0] * query[1] <= usize::MAX,
{
    assert(query.skip(0) =~= query);
    assert(product(query.skip(0)) <= usize::MAX);
    reveal_with_fuel(product, 5);
    let n = query[0] * query[1];
    assert(query.drop_last().drop_last().drop_last().drop_last() =~= Seq::<usize>::empty());
    assert(product(query) == n * 1 * 64) by {
        assert(1 * query[0] as nat * query[1] as nat * query[2] as nat * query[3] as nat == n * 1
            * 64) by (nonlinear_arith)
            requires
                query[2] == 1,
                query[3] == 64,
                n == query[0] * query[1],
        ;
    }
    assert(n >= 0) by (nonlinear_arith)
        requires
            n == query[0] * query[1],
    ;
}

proof fn lemma_partial_count(query: Seq<usize>)
    requires
        query.len() == 4,
        countable(partial_shape(query)),
    ensures
        query[0] * query[1] * SHARDS <= usize::MAX,
{
    let shape = partial_shape(query);
    assert(shape.skip(0) =~= shape);
    assert(product(shape.skip(0)) <= usize::MAX);
    reveal_with_fuel(product, 5);
    let n = query[0] * query[1];
    assert(shape.drop_last().drop_last().drop_last().drop_last() =~= Seq::<usize>::empty());
    assert(product(shape) == n * 8 * 66) by {
        assert(1 * query[0] as nat * query[1] as nat * 8 * 66 == n * 8 * 66) by (nonlinear_arith)
            requires
                n == query[0] * query[1],
        ;
    }
    assert(n >= 0) by (nonlinear_arith)
        requires
            n == query[0] * query[1],
    ;
}

proof fn lemma_pair_product(dims: Seq<usize>)
    requires
        dims.len() == 2,
    ensures
        product(dims) == dims[0] * dims[1],
{
    reveal_with_fuel(product, 3);
    assert(dims.drop_last().drop_last() =~= Seq::<usize>::empty());
    assert(1 * dims[0] as nat * dims[1] as nat == dims[0] * dims[1]) by (nonlinear_arith);
}

proof fn lemma_two_elements()
    ensures
        countable(seq![2usize]),
        product(seq![2usize]) == 2,
{
    let dims = seq![2usize];
    assert(dims.drop_last() =~= Seq::<usize>::empty());
    assert(product(dims) == 2) by {
        assert(product(dims.drop_last()) == 1);
    }
    assert forall|d: int| 0 <= d <= dims.len() implies product(#[trigger] dims.skip(d))
        <= usize::MAX by {
        if d == 0 {
            assert(dims.skip(0) =~= dims);
        } else {
            assert(dims.skip(1) =~= Seq::<usize>::empty());
        }
    }
}

} // verus!
