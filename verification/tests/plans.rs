use burn_metal::backend::{CubeBackend, MetalTransformerBackend};
use burn_metal::ops::{
    apply_rope, embedding, embedding_projection, embedding_row, grouped_query_attention_decode,
    linear, linear_prefix, rms_norm, sample_topk, silu_mul, EmbeddingPlan, LinearPlan, Real,
};
use burn_metal::plan::{AttentionPlan, Kernel, Plan};
use burn_metal::reject::Rejection;
use burn_metal::scheme::{
    DType, QuantLevel, QuantMode, QuantParam, QuantScheme, QuantStore, QuantValue,
};
use burn_metal::tensor::{elemwise_launch, Launch, QuantParts, QuantTensor, TensorInfo};
use burn_std::BlockSize;

fn number(x: f64) -> Real {
    Real { double: x.to_bits(), single: (x as f32).to_bits() }
}

fn strides(shape: &[usize]) -> Vec<usize> {
    (0..shape.len()).map(|d| shape[d + 1..].iter().product()).collect()
}

fn typed(dtype: DType, shape: &[usize]) -> TensorInfo {
    TensorInfo { device: 0, dtype, shape: shape.to_vec(), strides: strides(shape) }
}

fn tensor(shape: &[usize]) -> TensorInfo {
    typed(DType::F32, shape)
}

fn elsewhere(mut tensor: TensorInfo) -> TensorInfo {
    tensor.device = 1;
    tensor
}

fn dense(shape: &[usize]) -> QuantTensor {
    QuantTensor { info: tensor(shape), parts: None }
}

fn scheme(value: QuantValue, block: &[u8]) -> QuantScheme {
    QuantScheme {
        value,
        param: QuantParam::F32,
        store: QuantStore::PackedU32(0),
        level: QuantLevel::Block(BlockSize::new(block)),
        mode: QuantMode::Symmetric,
    }
}

fn quantized(scheme: QuantScheme, shape: &[usize], words: &[usize], scales: &[usize]) -> QuantTensor {
    QuantTensor {
        info: typed(DType::QFloat(scheme), shape),
        parts: Some(QuantParts {
            values: typed(DType::U32, words),
            scales: typed(DType::F32, scales),
        }),
    }
}

fn q4_weight(rows: usize, columns: usize, block: u8) -> QuantTensor {
    let scheme = scheme(QuantValue::Q4S, &[block, 1]);
    quantized(scheme, &[rows, columns], &[rows, columns / 8], &[rows / block as usize, columns])
}

fn q8_weight(rows: usize, columns: usize, block: u8) -> QuantTensor {
    let scheme = scheme(QuantValue::Q8S, &[block]);
    let scales = columns.div_ceil(block as usize);
    quantized(scheme, &[rows, columns], &[rows, columns / 4], &[rows, scales])
}

fn q4_table(rows: usize, columns: usize) -> QuantTensor {
    let scheme = scheme(QuantValue::Q4S, &[1, 32]);
    quantized(scheme, &[rows, columns], &[rows, columns / 8], &[rows, columns / 32])
}

fn fused(plan: Result<LinearPlan, Rejection>) -> Plan {
    match plan {
        Ok(LinearPlan::Fused(plan)) => plan,
        other => panic!("{other:?}"),
    }
}

fn looked_up(plan: Result<EmbeddingPlan, Rejection>) -> Plan {
    match plan {
        Ok(EmbeddingPlan::Fused(plan)) => plan,
        other => panic!("{other:?}"),
    }
}

#[test]
fn normalization_has_a_group_per_row() {
    let plan = rms_norm(&tensor(&[2, 3, 40]), &tensor(&[40]), number(1e-6)).unwrap();
    assert_eq!(plan.kernel, Kernel::RmsNorm { epsilon: 1e-6f32.to_bits() });
    assert_eq!(plan.launch, Launch { cubes: 6, threads: 32 });
    assert_eq!(plan.output.tensor, tensor(&[2, 3, 40]));
    assert_eq!(plan.output.bytes, 960);
}

#[test]
fn normalization_refuses() {
    let input = tensor(&[2, 3, 40]);
    let eps = number(1e-6);
    assert_eq!(rms_norm(&input, &elsewhere(tensor(&[40])), eps), Err(Rejection::DeviceMismatch));
    assert_eq!(rms_norm(&input, &typed(DType::F16, &[40]), eps), Err(Rejection::DTypeMismatch));
    assert_eq!(rms_norm(&input, &tensor(&[39]), eps), Err(Rejection::ShapeMismatch));
    assert_eq!(rms_norm(&tensor(&[2, 40]), &tensor(&[40]), eps), Err(Rejection::WrongRank));
    assert_eq!(rms_norm(&tensor(&[2, 3, 0]), &tensor(&[0]), eps), Err(Rejection::EmptyDimension));
    assert_eq!(
        CubeBackend::fused_rms_norm(&tensor(&[]), &tensor(&[1]), 0),
        Err(Rejection::WrongRank)
    );
    assert_eq!(
        CubeBackend::fused_rms_norm(&tensor(&[1 << 40, 1 << 40, 2]), &tensor(&[2]), 0),
        Err(Rejection::TooLarge)
    );
    assert!(CubeBackend::fused_rms_norm(&tensor(&[7, 8]), &tensor(&[2, 4]), 0).is_ok());
}

#[test]
fn elementwise_launches_round_up() {
    assert_eq!(elemwise_launch(0), Launch { cubes: 0, threads: 256 });
    assert_eq!(elemwise_launch(1), Launch { cubes: 1, threads: 256 });
    assert_eq!(elemwise_launch(256), Launch { cubes: 1, threads: 256 });
    assert_eq!(elemwise_launch(257), Launch { cubes: 2, threads: 256 });
}

#[test]
fn gated_products() {
    let plan = silu_mul(&tensor(&[3, 100]), &tensor(&[3, 100])).unwrap();
    assert_eq!(plan.kernel, Kernel::SiluMul);
    assert_eq!(plan.launch, Launch { cubes: 2, threads: 256 });
    assert_eq!(plan.output.tensor.strides, vec![100, 1]);
    assert_eq!(
        silu_mul(&tensor(&[3, 100]), &tensor(&[100, 3])),
        Err(Rejection::ShapeMismatch)
    );
    assert_eq!(
        silu_mul(&tensor(&[3]), &elsewhere(tensor(&[3]))),
        Err(Rejection::DeviceMismatch)
    );
    assert_eq!(
        silu_mul(&tensor(&[3]), &typed(DType::BF16, &[3])),
        Err(Rejection::DTypeMismatch)
    );
}

#[test]
fn rotary_embeddings() {
    let (input, frequencies) = (tensor(&[1, 4, 8, 64]), tensor(&[16, 64, 2]));
    let plan = apply_rope(&input, &frequencies, 2).unwrap();
    assert_eq!(plan.kernel, Kernel::Rope { sequence_dim: 2 });
    assert_eq!(plan.launch.cubes, 8);
    assert_eq!(plan.output.tensor.shape, vec![1, 4, 8, 64]);
    assert_eq!(apply_rope(&input, &frequencies, 3), Err(Rejection::BadParameter));
    assert_eq!(apply_rope(&input, &frequencies, 0), Err(Rejection::BadParameter));
    assert_eq!(apply_rope(&tensor(&[4, 8, 64]), &frequencies, 1), Err(Rejection::WrongRank));
    assert_eq!(apply_rope(&input, &tensor(&[16, 64]), 1), Err(Rejection::WrongRank));
    assert_eq!(
        apply_rope(&input, &typed(DType::F16, &[16, 64, 2]), 1),
        Err(Rejection::DTypeMismatch)
    );
}

#[test]
fn short_contexts_take_one_kernel() {
    let (query, cache) = (tensor(&[2, 8, 1, 64]), tensor(&[2, 2, 127, 64]));
    match grouped_query_attention_decode(&query, &cache, &cache).unwrap() {
        AttentionPlan::Short(plan) => {
            assert_eq!(plan.kernel, Kernel::AttentionShort);
            assert_eq!(plan.launch, Launch { cubes: 16, threads: 32 });
            assert_eq!(plan.output.tensor.shape, query.shape);
        }
        other => panic!("{other:?}"),
    }
}

#[test]
fn long_contexts_take_shards_and_a_merge() {
    let query = typed(DType::F16, &[2, 8, 1, 64]);
    let cache = typed(DType::F16, &[2, 2, 128, 64]);
    match grouped_query_attention_decode(&query, &cache, &cache).unwrap() {
        AttentionPlan::Long { partial, merge } => {
            assert_eq!(partial.kernel, Kernel::AttentionPartial);
            assert_eq!(partial.launch, Launch { cubes: 128, threads: 32 });
            assert_eq!(partial.output.tensor, tensor(&[2, 8, 8, 66]));
            assert_eq!(partial.output.bytes, 2 * 8 * 8 * 66 * 4);
            assert_eq!(merge.kernel, Kernel::AttentionMerge);
            assert_eq!(merge.launch, Launch { cubes: 16, threads: 32 });
            assert_eq!(merge.output.tensor, query);
            assert_eq!(merge.output.bytes, 2 * 8 * 64 * 2);
        }
        other => panic!("{other:?}"),
    }
}

#[test]
fn attention_refuses() {
    let attend = |q: &[usize], k: &[usize], v: &[usize]| {
        grouped_query_attention_decode(&tensor(q), &tensor(k), &tensor(v)).unwrap_err()
    };
    let q = [2, 8, 1, 64];
    let k = [2, 2, 10, 64];
    assert_eq!(attend(&[2, 8, 64], &k, &k), Rejection::WrongRank);
    assert_eq!(attend(&q, &[3, 2, 10, 64], &[3, 2, 10, 64]), Rejection::ShapeMismatch);
    assert_eq!(attend(&q, &k, &[2, 2, 11, 64]), Rejection::ShapeMismatch);
    assert_eq!(attend(&[2, 8, 2, 64], &k, &k), Rejection::ShapeMismatch);
    assert_eq!(attend(&[2, 8, 1, 32], &k, &k), Rejection::ShapeMismatch);
    assert_eq!(attend(&q, &[2, 2, 10, 32], &[2, 2, 10, 32]), Rejection::ShapeMismatch);
    assert_eq!(attend(&q, &[2, 2, 0, 64], &[2, 2, 0, 64]), Rejection::EmptyDimension);
    assert_eq!(attend(&q, &[2, 0, 10, 64], &[2, 0, 10, 64]), Rejection::EmptyDimension);
    assert_eq!(attend(&q, &[2, 3, 10, 64], &[2, 3, 10, 64]), Rejection::Misaligned);
    assert_eq!(
        grouped_query_attention_decode(&tensor(&q), &tensor(&k), &elsewhere(tensor(&k))),
        Err(Rejection::DeviceMismatch)
    );
    assert_eq!(
        grouped_query_attention_decode(&tensor(&q), &tensor(&k), &typed(DType::F16, &k)),
        Err(Rejection::DTypeMismatch)
    );
    assert_eq!(
        attend(&[1 << 40, 1 << 20, 1, 64], &[1 << 40, 1, 1, 64], &[1 << 40, 1, 1, 64]),
        Rejection::TooLarge
    );
}

#[test]
fn dense_linear_layers() {
    let (input, weight) = (tensor(&[2, 1, 16]), dense(&[16, 24]));
    let plan = fused(linear(&input, &weight, None));
    assert_eq!(plan.kernel, Kernel::Gemv { output_width: 24 });
    assert_eq!(plan.launch, Launch { cubes: 48, threads: 32 });
    assert_eq!(plan.output.tensor.shape, vec![2, 1, 24]);
    let bias = tensor(&[24]);
    let plan = fused(linear(&input, &weight, Some(&bias)));
    assert_eq!(plan.kernel, Kernel::GemvBias);
    assert_eq!(plan.launch.cubes, 48);
    assert_eq!(
        linear(&input, &weight, Some(&tensor(&[23]))),
        Err(Rejection::ShapeMismatch)
    );
    assert_eq!(linear(&input, &weight, Some(&tensor(&[4, 6]))), Err(Rejection::WrongRank));
    assert_eq!(linear(&tensor(&[2, 1, 17]), &weight, None), Err(Rejection::ShapeMismatch));
    assert_eq!(linear(&tensor(&[2, 16]), &weight, None), Err(Rejection::WrongRank));
    assert_eq!(
        linear(&input, &weight, Some(&elsewhere(tensor(&[24])))),
        Err(Rejection::DeviceMismatch)
    );
    assert_eq!(linear(&input, &dense(&[16, 0]), None), Err(Rejection::OutOfRange));
}

#[test]
fn eight_bit_linear_layers() {
    let input = typed(DType::F16, &[3, 1, 20]);
    let weight = q8_weight(20, 40, 32);
    let plan = fused(linear(&input, &weight, None));
    assert_eq!(plan.kernel, Kernel::Q8Gemv { output_width: 40, block_size: 32 });
    assert_eq!(plan.launch, Launch { cubes: 30, threads: 32 });
    assert_eq!(plan.output.tensor, typed(DType::F16, &[3, 1, 40]));
    let bias = typed(DType::F16, &[40]);
    let plan = fused(linear(&input, &weight, Some(&bias)));
    assert_eq!(plan.kernel, Kernel::Q8GemvBias { output_width: 40, block_size: 32 });
    assert_eq!(plan.launch.cubes, 30);
}

#[test]
fn four_bit_linear_layers() {
    let input = tensor(&[3, 1, 128]);
    let weight = q4_weight(128, 40, 64);
    let plan = fused(linear(&input, &weight, None));
    assert_eq!(plan.kernel, Kernel::Q4Gemv { output_width: 40, block_size: 64 });
    assert_eq!(plan.launch, Launch { cubes: 15, threads: 32 });
    let plan = fused(linear(&input, &weight, Some(&tensor(&[40]))));
    assert_eq!(plan.kernel, Kernel::Q4GemvBias { output_width: 40, block_size: 64 });
    assert_eq!(plan.output.tensor, tensor(&[3, 1, 40]));
}

#[test]
fn other_quantized_weights_take_the_general_operation() {
    let weight = quantized(scheme(QuantValue::Q2S, &[32]), &[16, 32], &[1], &[1]);
    let input = tensor(&[1, 1, 16]);
    assert_eq!(linear(&input, &weight, None), Ok(LinearPlan::General));
    assert_eq!(
        linear_prefix(&tensor(&[2, 3, 16]), &weight, 5),
        Ok(LinearPlan::GeneralPrefix { batch: 2, sequence: 3, output_width: 5 })
    );
    assert_eq!(linear_prefix(&input, &weight, 32), Ok(LinearPlan::General));
}

#[test]
fn leading_columns_only() {
    let input = tensor(&[1, 1, 16]);
    let plan = fused(linear_prefix(&input, &dense(&[16, 24]), 10));
    assert_eq!(plan.kernel, Kernel::Gemv { output_width: 10 });
    assert_eq!(plan.launch.cubes, 10);
    assert_eq!(plan.output.tensor.shape, vec![1, 1, 10]);
    let plan = fused(linear_prefix(&input, &q8_weight(16, 24, 8), 12));
    assert_eq!(plan.kernel, Kernel::Q8Gemv { output_width: 12, block_size: 8 });
    assert_eq!(plan.launch.cubes, 3);
    let plan = fused(linear_prefix(&input, &q4_weight(16, 24, 8), 16));
    assert_eq!(plan.kernel, Kernel::Q4Gemv { output_width: 16, block_size: 8 });
    assert_eq!(plan.launch.cubes, 2);
    let whole = linear_prefix(&input, &dense(&[16, 24]), 24);
    assert_eq!(whole, linear(&input, &dense(&[16, 24]), None));
    assert_eq!(linear_prefix(&input, &dense(&[16, 24]), 25), Err(Rejection::OutOfRange));
    assert_eq!(linear_prefix(&input, &dense(&[16, 24]), 0), Err(Rejection::OutOfRange));
}

#[test]
fn parts_count_by_their_first_two_dimensions() {
    let input = tensor(&[1, 1, 16]);
    let mut weight = q8_weight(16, 24, 8);
    weight.parts.as_mut().unwrap().values = typed(DType::U32, &[16, 6, 1]);
    assert!(CubeBackend::fused_q8_gemv(&input, &weight, 24).is_ok());
    weight.parts.as_mut().unwrap().values = typed(DType::U32, &[16]);
    assert_eq!(CubeBackend::fused_q8_gemv(&input, &weight, 24), Err(Rejection::WrongParts));
}

#[test]
fn packed_and_dense_weights_have_the_same_output() {
    let input = tensor(&[2, 3, 16]);
    let expected = fused(linear(&input, &dense(&[16, 24]), None)).output;
    assert_eq!(fused(linear(&input, &q4_weight(16, 24, 8), None)).output, expected);
    assert_eq!(fused(linear(&input, &q8_weight(16, 24, 8), None)).output, expected);
    assert_eq!(expected.tensor, tensor(&[2, 3, 24]));
}

#[test]
fn a_prefix_fills_the_columns_asked_for() {
    let input = tensor(&[2, 3, 16]);
    for weight in [dense(&[16, 24]), q4_weight(16, 24, 8), q8_weight(16, 24, 8)] {
        let plan = fused(linear_prefix(&input, &weight, 8));
        assert_eq!(plan.output.tensor, tensor(&[2, 3, 8]));
    }
}

#[test]
fn a_row_and_a_lookup_fill_the_same_tensor() {
    let table = q4_table(10, 64);
    let (row, lookup) =
        (embedding_row(&table, 7).unwrap(), embedding(&typed(DType::I64, &[1, 1]), &table).unwrap());
    match (row, lookup) {
        (EmbeddingPlan::Fused(row), EmbeddingPlan::Fused(lookup)) => {
            assert_eq!(row.output, lookup.output);
            assert_eq!(row.launch, lookup.launch);
            assert_eq!(row.output.tensor, tensor(&[1, 1, 64]));
        }
        other => panic!("{other:?}"),
    }
}

#[test]
fn eight_bit_kernels_refuse() {
    let input = tensor(&[1, 1, 16]);
    let q8 = |weight: &QuantTensor, width| CubeBackend::fused_q8_gemv(&input, weight, width);
    let good = q8_weight(16, 24, 8);
    assert!(q8(&good, 24).is_ok());
    assert_eq!(q8(&dense(&[16, 24]), 24), Err(Rejection::NotQuantized));
    assert_eq!(q8(&q4_weight(16, 24, 8), 24), Err(Rejection::UnsupportedScheme));
    assert_eq!(q8(&good, 10), Err(Rejection::Misaligned));
    assert_eq!(q8(&good, 28), Err(Rejection::OutOfRange));
    assert_eq!(q8(&q8_weight(12, 24, 8), 24), Err(Rejection::ShapeMismatch));
    let mut bare = q8_weight(16, 24, 8);
    bare.parts = None;
    assert_eq!(q8(&bare, 24), Err(Rejection::MissingParts));
    let mut wrong = q8_weight(16, 24, 8);
    wrong.parts.as_mut().unwrap().scales.shape = vec![16, 4];
    assert_eq!(q8(&wrong, 24), Err(Rejection::WrongParts));
    let mut wrong = q8_weight(16, 24, 8);
    wrong.parts.as_mut().unwrap().values.dtype = DType::I32;
    assert_eq!(q8(&wrong, 24), Err(Rejection::WrongParts));
    let empty = q8_weight(0, 24, 8);
    assert_eq!(
        CubeBackend::fused_q8_gemv(&tensor(&[1, 1, 0]), &empty, 24),
        Err(Rejection::EmptyDimension)
    );
    assert_eq!(
        CubeBackend::fused_q8_gemv(&elsewhere(tensor(&[1, 1, 16])), &good, 24),
        Err(Rejection::DeviceMismatch)
    );
    assert_eq!(
        CubeBackend::fused_q8_gemv_bias(&input, &good, &tensor(&[23])),
        Err(Rejection::ShapeMismatch)
    );
    assert_eq!(
        CubeBackend::fused_q8_gemv_bias(&input, &good, &typed(DType::F16, &[24])),
        Err(Rejection::DTypeMismatch)
    );
    assert_eq!(
        CubeBackend::fused_q8_gemv_bias(&input, &q8_weight(16, 22, 8), &tensor(&[22])),
        Err(Rejection::Misaligned)
    );
}

#[test]
fn a_last_block_may_be_cut_off() {
    let input = tensor(&[1, 1, 16]);
    let weight = q8_weight(16, 20, 8);
    assert_eq!(weight.parts.as_ref().unwrap().scales.shape, vec![16, 3]);
    assert!(CubeBackend::fused_q8_gemv(&input, &weight, 20).is_ok());
}

#[test]
fn four_bit_kernels_refuse() {
    let input = tensor(&[1, 1, 16]);
    let q4 = |weight: &QuantTensor, width| CubeBackend::fused_q4_gemv(&input, weight, width);
    let good = q4_weight(16, 24, 8);
    assert!(q4(&good, 24).is_ok());
    assert_eq!(q4(&dense(&[16, 24]), 24), Err(Rejection::NotQuantized));
    assert_eq!(q4(&q8_weight(16, 24, 8), 24), Err(Rejection::UnsupportedScheme));
    assert_eq!(q4(&good, 12), Err(Rejection::Misaligned));
    assert_eq!(q4(&q4_weight(16, 24, 5), 24), Err(Rejection::Misaligned));
    let mut wrong = q4_weight(16, 24, 8);
    wrong.parts.as_mut().unwrap().values.shape = vec![16, 24];
    assert_eq!(q4(&wrong, 24), Err(Rejection::WrongParts));
    let mut bare = q4_weight(16, 24, 8);
    bare.parts = None;
    assert_eq!(q4(&bare, 24), Err(Rejection::MissingParts));
    assert_eq!(
        CubeBackend::fused_q4_gemv_bias(&input, &good, &tensor(&[25])),
        Err(Rejection::ShapeMismatch)
    );
    assert_eq!(
        CubeBackend::fused_q4_gemv_bias(&input, &q4_weight(16, 20, 8), &tensor(&[20])),
        Err(Rejection::Misaligned)
    );
}

#[test]
fn lookups() {
    let indices = typed(DType::I64, &[2, 5]);
    let plan = looked_up(embedding(&indices, &q4_table(100, 64)));
    assert_eq!(plan.kernel, Kernel::Q4Embedding { hidden_width: 64 });
    assert_eq!(plan.launch, Launch { cubes: 3, threads: 256 });
    assert_eq!(plan.output.tensor, tensor(&[2, 5, 64]));
    assert_eq!(embedding(&indices, &dense(&[100, 64])), Ok(EmbeddingPlan::General));
    assert_eq!(embedding(&indices, &q4_weight(128, 64, 32)), Ok(EmbeddingPlan::General));
    assert_eq!(embedding(&typed(DType::I64, &[5]), &q4_table(100, 64)), Err(Rejection::WrongRank));
    assert_eq!(embedding(&indices, &q4_table(100, 48)), Err(Rejection::Misaligned));
    assert_eq!(
        CubeBackend::fused_q4_embedding(&dense(&[100, 64]), &indices),
        Err(Rejection::NotQuantized)
    );
    assert_eq!(
        CubeBackend::fused_q4_embedding(&q4_weight(128, 64, 32), &indices),
        Err(Rejection::UnsupportedScheme)
    );
    assert_eq!(
        embedding(&elsewhere(typed(DType::I64, &[2, 5])), &q4_table(100, 64)),
        Err(Rejection::DeviceMismatch)
    );
}

#[test]
fn single_rows() {
    let plan = looked_up(embedding_row(&q4_table(100, 96), 99));
    assert_eq!(plan.kernel, Kernel::Q4EmbeddingRow { row: 99 });
    assert_eq!(plan.launch, Launch { cubes: 1, threads: 256 });
    assert_eq!(plan.output.tensor, tensor(&[1, 1, 96]));
    assert_eq!(embedding_row(&q4_table(100, 96), 100), Err(Rejection::OutOfRange));
    assert_eq!(embedding_row(&q4_weight(64, 96, 32), 0), Err(Rejection::UnsupportedScheme));
    assert_eq!(
        embedding_row(&dense(&[100, 96]), 7),
        Ok(EmbeddingPlan::Slice { start: 7, end: 8, width: 96 })
    );
    assert_eq!(embedding_row(&dense(&[100, 96]), usize::MAX), Err(Rejection::TooLarge));
    let mut table = q4_table(100, 96);
    table.parts.as_mut().unwrap().values.dtype = DType::I32;
    assert!(embedding_row(&table, 0).is_ok());
    table.parts.as_mut().unwrap().values.shape = vec![100, 13];
    assert_eq!(embedding_row(&table, 0), Err(Rejection::WrongParts));
}

#[test]
fn projections() {
    let input = tensor(&[2, 3, 64]);
    let plan = looked_up(embedding_projection(&input, &q4_table(100, 64), 10, 20, 99));
    assert_eq!(
        plan.kernel,
        Kernel::Q4EmbeddingProjection { semantic_start: 10, semantic_rows: 20, eos_row: 99 }
    );
    assert_eq!(plan.launch, Launch { cubes: 126, threads: 32 });
    assert_eq!(plan.output.tensor, tensor(&[6, 21]));
    let project = |start, rows, eos| embedding_projection(&input, &q4_table(100, 64), start, rows, eos);
    assert!(project(80, 20, 0).is_ok());
    assert_eq!(project(81, 20, 0), Err(Rejection::OutOfRange));
    assert_eq!(project(0, 20, 100), Err(Rejection::OutOfRange));
    assert_eq!(
        embedding_projection(&tensor(&[2, 3, 32]), &q4_table(100, 64), 0, 1, 2),
        Err(Rejection::ShapeMismatch)
    );
    assert_eq!(
        embedding_projection(&input, &dense(&[100, 64]), 10, 20, 99),
        Ok(EmbeddingPlan::Dense {
            start: 10,
            end: 30,
            eos: 99,
            width: 64,
            rows: 6,
            columns: 21,
        })
    );
    assert_eq!(
        embedding_projection(&input, &dense(&[100, 64]), usize::MAX, 1, 0),
        Err(Rejection::TooLarge)
    );
    assert_eq!(
        embedding_projection(&input, &dense(&[100, 64]), 0, usize::MAX, 0),
        Err(Rejection::TooLarge)
    );
    assert_eq!(
        embedding_projection(&tensor(&[1 << 40, 1 << 40, 0]), &dense(&[100, 0]), 0, 1, 0),
        Err(Rejection::TooLarge)
    );
    assert_eq!(
        embedding_projection(&input, &q4_weight(64, 64, 32), 0, 1, 2),
        Err(Rejection::UnsupportedScheme)
    );
    assert_eq!(
        embedding_projection(&tensor(&[2, 3, 0]), &q4_table(100, 0), 0, 1, 2),
        Err(Rejection::EmptyDimension)
    );
}

fn sample(
    logits: &TensorInfo,
    scores: &TensorInfo,
    cursor: &TensorInfo,
    temperature: f64,
    top_p: f64,
    top_k: usize,
) -> Result<Plan, Rejection> {
    sample_topk(logits, scores, cursor, number(temperature), number(top_p), top_k)
}

#[test]
fn sampling_takes_one_cube() {
    let (logits, scores) = (tensor(&[1, 1000]), tensor(&[4096]));
    let cursor = typed(DType::I64, &[1]);
    let plan = sample(&logits, &scores, &cursor, 0.7, 0.9, 50).unwrap();
    assert_eq!(
        plan.kernel,
        Kernel::SampleTopk {
            temperature: 0.7f32.to_bits(),
            top_p: 0.9f32.to_bits(),
            top_k: 50,
            sort_capacity: 1024,
        }
    );
    assert_eq!(plan.launch, Launch { cubes: 1, threads: 1024 });
    assert_eq!(plan.output.tensor, typed(DType::I64, &[2]));
    assert_eq!(plan.output.bytes, 16);
    let small = sample(&tensor(&[1, 20]), &scores, &cursor, 0.7, 1.0, 500).unwrap();
    assert_eq!(small.launch.threads, 32);
    assert_eq!(
        small.kernel,
        Kernel::SampleTopk {
            temperature: 0.7f32.to_bits(),
            top_p: 1.0f32.to_bits(),
            top_k: 20,
            sort_capacity: 32,
        }
    );
    let large = sample(&tensor(&[1, 4096]), &scores, &cursor, 0.7, 1.0, 4096).unwrap();
    assert_eq!(large.launch.threads, 1024);
}

#[test]
fn sampling_refuses() {
    let (logits, scores) = (tensor(&[1, 100]), tensor(&[4096]));
    let cursor = typed(DType::I64, &[1]);
    let with = |t: f64, p: f64, k: usize| sample(&logits, &scores, &cursor, t, p, k).unwrap_err();
    for t in [0.0, -1.0, f64::INFINITY, f64::NAN, 1e-60, 1e60] {
        assert_eq!(with(t, 0.9, 5), Rejection::BadParameter, "{t}");
    }
    for p in [0.0, -0.5, 1.5, f64::NAN, f64::INFINITY, 1e-60] {
        assert_eq!(with(1.0, p, 5), Rejection::BadParameter, "{p}");
    }
    assert_eq!(with(1.0, 0.9, 0), Rejection::BadParameter);
    let refused = |l: &TensorInfo, s: &TensorInfo, c: &TensorInfo| {
        sample(l, s, c, 1.0, 0.9, 5).unwrap_err()
    };
    assert_eq!(refused(&tensor(&[1, 4097]), &scores, &cursor), Rejection::TooLarge);
    assert_eq!(refused(&tensor(&[2, 100]), &scores, &cursor), Rejection::ShapeMismatch);
    assert_eq!(refused(&tensor(&[100]), &scores, &cursor), Rejection::WrongRank);
    assert_eq!(refused(&typed(DType::F16, &[1, 100]), &scores, &cursor), Rejection::WrongDType);
    assert_eq!(
        refused(&logits, &typed(DType::F16, &[4096]), &cursor),
        Rejection::DTypeMismatch
    );
    assert_eq!(refused(&logits, &scores, &typed(DType::I64, &[2])), Rejection::ShapeMismatch);
    assert_eq!(refused(&logits, &elsewhere(tensor(&[9])), &cursor), Rejection::DeviceMismatch);
    assert_eq!(refused(&tensor(&[1, 0]), &scores, &cursor), Rejection::OutOfRange);
    assert_eq!(
        CubeBackend::fused_sample_topk(&logits, &scores, &cursor, 0x3f80_0000, 0x3f80_0000, 101),
        Err(Rejection::OutOfRange)
    );
}

#[test]
fn operands_that_must_have_no_gaps() {
    let in_order = |kernel: Kernel| -> Vec<usize> {
        (0..5).filter(|operand| kernel.needs_contiguous(*operand)).collect()
    };
    let words = (16, 8);
    assert_eq!(in_order(Kernel::RmsNorm { epsilon: 0 }), vec![0, 1]);
    assert_eq!(in_order(Kernel::SiluMul), vec![0, 1]);
    assert_eq!(in_order(Kernel::Rope { sequence_dim: 1 }), Vec::<usize>::new());
    assert_eq!(in_order(Kernel::AttentionShort), Vec::<usize>::new());
    assert_eq!(in_order(Kernel::Gemv { output_width: 16 }), vec![0, 1]);
    assert_eq!(in_order(Kernel::GemvBias), vec![0, 1, 2]);
    assert_eq!(
        in_order(Kernel::Q4Gemv { output_width: words.0, block_size: words.1 }),
        vec![0]
    );
    assert_eq!(
        in_order(Kernel::Q8GemvBias { output_width: words.0, block_size: words.1 }),
        vec![0, 3]
    );
    assert_eq!(in_order(Kernel::Q4Embedding { hidden_width: 32 }), vec![2]);
    assert_eq!(in_order(Kernel::Q4EmbeddingRow { row: 1 }), Vec::<usize>::new());
}
