use burn_metal::attention::{
    attention_head, attention_merge_unit, attention_partial_unit, attention_short_unit, merge_maximum,
    softmax_maximum, softmax_step, Head, LanePair,
};
use burn_metal::backend::{CubeBackend, MetalTransformerBackend};
use burn_metal::plan::AttentionPlan;
use burn_metal::dequantize::{
    dequantize, dequantize_q4_k_block_unit, expanded_quant, DequantizePlan, ExpandUnit,
};
use burn_metal::elementwise::{element_unit, rms_norm_unit, rope_unit};
use burn_metal::embedding::{
    gathered_position, projected_element, q4_embedding_projection_unit, q4_embedding_row_unit,
    q4_embedding_unit, ProjectedElement,
};
use burn_metal::gemv::{gemv_bias_unit, gemv_unit, q4_gemv_unit, q8_gemv_unit, word_outputs};
use burn_metal::packing::{clamp_q4, pack_q4, unpack_q4, unpack_q8};
use burn_metal::quantize::{
    quantize, quantize_q4_k_block_unit, QuantizeKernel, QuantizePlan, QuantizedOutput,
};
use burn_metal::reject::Rejection;
use burn_metal::scheme::{
    DType, QuantLevel, QuantMode, QuantParam, QuantScheme, QuantStore, QuantValue,
};
use burn_metal::tensor::{Launch, QuantParts, QuantTensor, TensorInfo};
use burn_std::BlockSize;

struct Noise(u64);

impl Noise {
    fn next(&mut self) -> f32 {
        self.0 = self.0.wrapping_mul(6364136223846793005).wrapping_add(1442695040888963407);
        ((self.0 >> 40) as f32 / 16777216.0) * 4.0 - 2.0
    }
    fn word(&mut self) -> u32 {
        self.0 = self.0.wrapping_mul(6364136223846793005).wrapping_add(1442695040888963407);
        (self.0 >> 32) as u32
    }
}

fn noise(seed: u64, n: usize) -> Vec<f32> {
    let mut noise = Noise(seed);
    (0..n).map(|_| noise.next()).collect()
}

fn words(seed: u64, n: usize) -> Vec<u32> {
    let mut noise = Noise(seed);
    (0..n).map(|_| noise.word()).collect()
}

fn strides(shape: &[usize]) -> Vec<usize> {
    (0..shape.len()).map(|d| shape[d + 1..].iter().product()).collect()
}

fn typed(dtype: DType, shape: &[usize]) -> TensorInfo {
    TensorInfo { device: 0, dtype, shape: shape.to_vec(), strides: strides(shape) }
}

fn tensor(shape: &[usize]) -> TensorInfo {
    typed(DType::F32, shape)
}

fn close(a: f32, b: f32) -> bool {
    (a - b).abs() <= 1e-4 * (1.0 + a.abs().max(b.abs()))
}

#[test]
fn addresses() {
    let t = TensorInfo {
        device: 0,
        dtype: DType::F32,
        shape: vec![2, 3, 4],
        strides: vec![1, 2, 6],
    };
    assert!(t.is_addressable());
    assert_eq!(t.at3(1, 2, 3), 1 + 4 + 18);
    assert_eq!(t.address_of(&vec![0, 1, 2]), 14);
    let huge = TensorInfo {
        device: 0,
        dtype: DType::F32,
        shape: vec![3, 2],
        strides: vec![usize::MAX, 1],
    };
    assert!(!huge.is_addressable());
    let empty = TensorInfo { shape: vec![0, 2], ..huge.clone() };
    assert!(empty.is_addressable());
    let short = TensorInfo { strides: vec![1], ..huge };
    assert!(!short.is_addressable());
}

#[test]
fn every_element_has_one_thread() {
    let mut seen = vec![0; 600];
    for cube in 0..3u32 {
        for thread in 0..256u32 {
            match element_unit(cube, thread, 256, 600) {
                Some(i) => seen[i] += 1,
                None => assert!(cube * 256 + thread >= 600),
            }
        }
    }
    assert!(seen.iter().all(|n| *n == 1));
}

#[test]
fn normalization_by_lanes() {
    let (rows, width) = (3usize, 70usize);
    let input = noise(1, rows * width);
    let gamma = noise(2, width);
    let mut output = vec![f32::NAN; rows * width];
    for row in 0..rows {
        let units: Vec<_> = (0..32).map(|lane| rms_norm_unit(row, lane, rows, width)).collect();
        let squares: f32 =
            units.iter().flat_map(|u| u.elements.iter()).map(|i| input[*i] * input[*i]).sum();
        let scale = (squares / width as f32 + 1e-5).sqrt().recip();
        for unit in &units {
            for (element, column) in unit.elements.iter().zip(&unit.columns) {
                assert!(output[*element].is_nan());
                output[*element] = input[*element] * scale * gamma[*column];
            }
        }
    }
    for row in 0..rows {
        let slice = &input[row * width..(row + 1) * width];
        let mean: f32 = slice.iter().map(|x| x * x).sum::<f32>() / width as f32;
        for c in 0..width {
            let expected = slice[c] / (mean + 1e-5).sqrt() * gamma[c];
            assert!(close(output[row * width + c], expected));
        }
    }
}

#[test]
fn rotation_of_pairs() {
    for sequence_dim in [1u32, 2] {
        let input_info = tensor(&[2, 3, 3, 8]);
        let frequencies_info = tensor(&[5, 8, 2]);
        let input = noise(3, 144);
        let frequencies = noise(4, 80);
        for index in 0..144 {
            let unit =
                rope_unit(index, 144, &input_info, &frequencies_info, sequence_dim).unwrap();
            let (feature, d2, d1) = (index % 8, index / 8 % 3, index / 24 % 3);
            let position = if sequence_dim == 1 { d1 } else { d2 };
            let pair = index - feature % 2;
            assert_eq!((unit.even, unit.odd), (pair, pair + 1));
            assert_eq!(unit.cosine, position * 16 + feature * 2);
            assert_eq!(unit.sine, unit.cosine + 1);
            assert_eq!(unit.first, feature % 2 == 0);
            let (even, odd) = (input[unit.even], input[unit.odd]);
            let (cosine, sine) = (frequencies[unit.cosine], frequencies[unit.sine]);
            let rotated = if unit.first {
                even * cosine - odd * sine
            } else {
                odd * cosine + even * sine
            };
            assert!(rotated.is_finite());
        }
        assert_eq!(rope_unit(144, 144, &input_info, &frequencies_info, sequence_dim), None);
    }
}

#[test]
fn rotation_follows_strides() {
    let input = TensorInfo {
        device: 0,
        dtype: DType::F32,
        shape: vec![1, 2, 3, 4],
        strides: vec![24, 4, 8, 1],
    };
    let unit = rope_unit(23, 24, &input, &tensor(&[3, 4, 2]), 2).unwrap();
    assert_eq!(unit.even, 4 + 2 * 8 + 2);
    assert_eq!(unit.odd, 4 + 2 * 8 + 3);
}

#[test]
fn heads_share_keys() {
    assert_eq!(attention_head(0, 2, 8, 2), Head { batch: 0, query_head: 0, kv_head: 0 });
    assert_eq!(attention_head(3, 2, 8, 2), Head { batch: 0, query_head: 3, kv_head: 0 });
    assert_eq!(attention_head(4, 2, 8, 2), Head { batch: 0, query_head: 4, kv_head: 1 });
    assert_eq!(attention_head(15, 2, 8, 2), Head { batch: 1, query_head: 7, kv_head: 1 });
}

struct Softmax {
    maximum: u32,
    sum: f32,
    features: [f32; 64],
}

fn start() -> Softmax {
    Softmax { maximum: burn_metal::attention::FLOOR_BITS, sum: 0.0, features: [0.0; 64] }
}

fn attend(state: &mut Softmax, score: f32, features: &[f32]) {
    let (maximum, rescale) = softmax_step(state.maximum, score.to_bits());
    if rescale {
        let factor = (f32::from_bits(state.maximum) - score).exp();
        state.sum *= factor;
        state.features.iter_mut().for_each(|f| *f *= factor);
    }
    state.maximum = maximum;
    let factor = (score - f32::from_bits(maximum)).exp();
    state.sum += factor;
    for (f, v) in state.features.iter_mut().zip(features) {
        *f += v * factor;
    }
}

fn plain_attention(q: &[f32], k: &[f32], v: &[f32], length: usize) -> Vec<f32> {
    let scores: Vec<f32> = (0..length)
        .map(|p| (0..64).map(|f| q[f] * k[p * 64 + f]).sum::<f32>() / 8.0)
        .collect();
    let maximum = scores.iter().cloned().fold(f32::MIN, f32::max);
    let total: f32 = scores.iter().map(|s| (s - maximum).exp()).sum();
    (0..64)
        .map(|f| {
            (0..length).map(|p| (scores[p] - maximum).exp() * v[p * 64 + f]).sum::<f32>() / total
        })
        .collect()
}

#[test]
fn attention_over_short_contexts() {
    let (query_info, cache_info) = (tensor(&[2, 4, 1, 64]), tensor(&[2, 2, 10, 64]));
    let (query, key, value) = (noise(5, 512), noise(6, 2560), noise(7, 2560));
    let mut output = vec![f32::NAN; 512];
    for cube in 0..8 {
        let units: Vec<_> = (0..32)
            .map(|lane| {
                attention_short_unit(cube, lane, &query_info, &cache_info, &cache_info, &query_info)
            })
            .collect();
        let mut state = start();
        for p in 0..10 {
            assert_eq!(units[0].0.positions[p], p);
            let score: f32 = units
                .iter()
                .map(|(u, _)| {
                    query[u.query.low] * key[u.keys[p].low]
                        + query[u.query.high] * key[u.keys[p].high]
                })
                .sum::<f32>()
                / 8.0;
            let mut features = [0.0; 64];
            for (lane, (u, _)) in units.iter().enumerate() {
                features[lane] = value[u.values[p].low];
                features[lane + 32] = value[u.values[p].high];
            }
            attend(&mut state, score, &features);
        }
        for (lane, (_, out)) in units.iter().enumerate() {
            assert!(output[out.low].is_nan() && output[out.high].is_nan());
            output[out.low] = state.features[lane] / state.sum;
            output[out.high] = state.features[lane + 32] / state.sum;
        }
    }
    for batch in 0..2 {
        for head in 0..4 {
            let q = &query[(batch * 4 + head) * 64..][..64];
            let base = (batch * 2 + head / 2) * 640;
            let expected = plain_attention(q, &key[base..], &value[base..], 10);
            for f in 0..64 {
                assert!(close(output[(batch * 4 + head) * 64 + f], expected[f]));
            }
        }
    }
}

#[test]
fn attention_over_long_contexts() {
    let length = 131;
    let query_info = tensor(&[1, 4, 1, 64]);
    let cache_info = tensor(&[1, 2, length, 64]);
    let (query, key, value) =
        (noise(8, 256), noise(9, 2 * length * 64), noise(10, 2 * length * 64));
    let plan = CubeBackend::fused_grouped_query_attention_decode(
        &query_info,
        &cache_info,
        &cache_info,
    );
    let (partial, merge) = match plan.unwrap() {
        AttentionPlan::Long { partial, merge } => (partial, merge),
        other => panic!("{other:?}"),
    };
    let partials_info = partial.output.tensor;
    let mut partials = vec![f32::NAN; partial.output.bytes / 4];
    for cube in 0..partial.launch.cubes as usize {
        let units: Vec<_> = (0..32)
            .map(|lane| {
                attention_partial_unit(
                    cube,
                    lane,
                    &query_info,
                    &cache_info,
                    &cache_info,
                    &partials_info,
                )
            })
            .collect();
        let mut state = start();
        for p in 0..units[0].0.positions.len() {
            assert_eq!(units[0].0.positions[p], cube % 8 + 8 * p);
            let score: f32 = units
                .iter()
                .map(|(u, _)| {
                    query[u.query.low] * key[u.keys[p].low]
                        + query[u.query.high] * key[u.keys[p].high]
                })
                .sum::<f32>()
                / 8.0;
            let mut features = [0.0; 64];
            for (lane, (u, _)) in units.iter().enumerate() {
                features[lane] = value[u.values[p].low];
                features[lane + 32] = value[u.values[p].high];
            }
            attend(&mut state, score, &features);
        }
        for (lane, (_, slots)) in units.iter().enumerate() {
            if let Some(totals) = slots.totals {
                assert_eq!(lane, 0);
                partials[totals.low] = f32::from_bits(state.maximum);
                partials[totals.high] = state.sum;
            }
            partials[slots.features.low] = state.features[lane];
            partials[slots.features.high] = state.features[lane + 32];
        }
    }
    assert!(partials.iter().all(|p| !p.is_nan()));
    let output_info = merge.output.tensor;
    let mut output = vec![f32::NAN; 256];
    for cube in 0..merge.launch.cubes as usize {
        for lane in 0..32 {
            let (slots, out) = attention_merge_unit(cube, lane, &partials_info, &output_info);
            let maxima: Vec<u32> = slots.iter().map(|s| partials[s.maximum].to_bits()).collect();
            let maximum = f32::from_bits(merge_maximum(&maxima));
            let (mut denominator, mut low, mut high) = (0.0, 0.0, 0.0);
            for s in &slots {
                let factor = (partials[s.maximum] - maximum).exp();
                denominator += partials[s.sum] * factor;
                low += partials[s.features.low] * factor;
                high += partials[s.features.high] * factor;
            }
            output[out.low] = low / denominator;
            output[out.high] = high / denominator;
        }
    }
    for head in 0..4 {
        let base = head / 2 * length * 64;
        let expected =
            plain_attention(&query[head * 64..], &key[base..], &value[base..], length);
        for f in 0..64 {
            assert!(close(output[head * 64 + f], expected[f]));
        }
    }
}

#[test]
fn repeated_heads_are_read_alike() {
    let (query, compact, repeated) =
        (tensor(&[2, 6, 1, 64]), tensor(&[2, 3, 5, 64]), tensor(&[2, 6, 5, 64]));
    let data = noise(29, 2 * 3 * 5 * 64);
    let mut copies = vec![0.0f32; 2 * 6 * 5 * 64];
    for batch in 0..2 {
        for head in 0..6 {
            let source = (batch * 3 + head / 2) * 320;
            copies[(batch * 6 + head) * 320..][..320].copy_from_slice(&data[source..][..320]);
        }
    }
    for cube in 0..12 {
        for lane in 0..32 {
            let (unit, out) = attention_short_unit(cube, lane, &query, &compact, &compact, &query);
            let (other, place) =
                attention_short_unit(cube, lane, &query, &repeated, &repeated, &query);
            assert_eq!((other.query, place), (unit.query, out));
            assert_eq!(other.positions, unit.positions);
            for p in 0..5 {
                assert_eq!(copies[other.keys[p].low], data[unit.keys[p].low]);
                assert_eq!(copies[other.keys[p].high], data[unit.keys[p].high]);
                assert_eq!(copies[other.values[p].low], data[unit.values[p].low]);
                assert_eq!(copies[other.values[p].high], data[unit.values[p].high]);
            }
        }
    }
}

#[test]
fn shards_merge_in_any_order() {
    let (scores, values) = (noise(30, 50), noise(31, 50));
    let mut whole = start();
    let mut shards: Vec<Softmax> = (0..8).map(|_| start()).collect();
    for p in 0..50 {
        let mut features = [0.0; 64];
        features[0] = values[p];
        attend(&mut whole, scores[p], &features);
        attend(&mut shards[p % 8], scores[p], &features);
    }
    for order in [[0, 1, 2, 3, 4, 5, 6, 7], [7, 3, 5, 0, 1, 6, 2, 4]] {
        let maxima: Vec<u32> = order.iter().map(|i| shards[*i].maximum).collect();
        let maximum = f32::from_bits(merge_maximum(&maxima));
        let scale = |i: usize| (f32::from_bits(shards[i].maximum) - maximum).exp();
        let sum: f32 = order.iter().map(|i| shards[*i].sum * scale(*i)).sum();
        let output: f32 = order.iter().map(|i| shards[*i].features[0] * scale(*i)).sum();
        assert_eq!(maximum, f32::from_bits(whole.maximum));
        assert!(close(output / sum, whole.features[0] / whole.sum));
    }
}

#[test]
fn maxima_of_shards() {
    let scores: Vec<u32> = noise(11, 50).iter().map(|x| x.to_bits()).collect();
    let maxima: Vec<u32> = (0..8)
        .map(|shard| softmax_maximum(&scores.iter().skip(shard).step_by(8).cloned().collect()))
        .collect();
    assert_eq!(merge_maximum(&maxima), softmax_maximum(&scores));
    assert_eq!(softmax_maximum(&vec![]), (-3.0e38f32).to_bits());
    assert_eq!(softmax_maximum(&vec![f32::NEG_INFINITY.to_bits()]), (-3.0e38f32).to_bits());
    assert_eq!(softmax_step(1.0f32.to_bits(), 2.0f32.to_bits()), (2.0f32.to_bits(), true));
    assert_eq!(softmax_step(1.0f32.to_bits(), 1.0f32.to_bits()), (1.0f32.to_bits(), false));
}

#[test]
fn lanes_of_a_head() {
    let t = tensor(&[1, 2, 3, 64]);
    let pair = burn_metal::attention::lane_addresses(&t, 0, 1, 2, 5);
    assert_eq!(pair, LanePair { low: 192 + 128 + 5, high: 192 + 128 + 37 });
}

#[test]
fn dense_products() {
    let (rows, inputs, columns, outputs) = (2usize, 45usize, 9usize, 6usize);
    let input = noise(12, rows * inputs);
    let weight = noise(13, inputs * columns);
    let info = tensor(&[inputs, columns]);
    for o in 0..rows * outputs {
        let sum: f32 = (0..32)
            .flat_map(|lane| gemv_unit(o, lane, rows, outputs, &info))
            .map(|t| input[t.input] * weight[t.weight])
            .sum();
        let (r, c) = (o / outputs, o % outputs);
        let expected: f32 =
            (0..inputs).map(|k| input[r * inputs + k] * weight[k * columns + c]).sum();
        assert!(close(sum, expected));
    }
    for o in 0..rows * columns {
        let mut count = 0;
        for lane in 0..32 {
            let (terms, bias) = gemv_bias_unit(o, lane, rows, inputs, columns);
            assert_eq!(bias, o % columns);
            assert_eq!(terms, gemv_unit(o, lane, rows, columns, &info));
            count += terms.len();
        }
        assert_eq!(count, inputs);
    }
}

#[test]
fn eight_bit_products() {
    let (rows, inputs, columns, outputs, block) = (2usize, 40usize, 24usize, 16usize, 8usize);
    let values_info = typed(DType::U32, &[inputs, columns / 4]);
    let scales_info = tensor(&[inputs, columns / block]);
    let values = words(14, inputs * columns / 4);
    let scales = noise(15, inputs * columns / block);
    let input = noise(16, rows * inputs);
    let mut output = vec![f32::NAN; rows * outputs];
    for group in 0..rows * outputs / 4 {
        let mut sums = [0.0f32; 4];
        for lane in 0..32 {
            let terms = q8_gemv_unit(
                group, lane, rows, columns, outputs, block, &values_info, &scales_info,
            );
            for t in terms {
                for (k, sum) in sums.iter_mut().enumerate() {
                    *sum += input[t.input] * scales[t.scale]
                        * unpack_q8(values[t.word], k) as f32;
                }
            }
        }
        let place = word_outputs(group, rows, outputs, 4);
        assert_eq!(place.column, place.offset % outputs);
        for k in 0..4 {
            assert!(output[place.offset + k].is_nan());
            output[place.offset + k] = sums[k];
        }
    }
    for r in 0..rows {
        for c in 0..outputs {
            let expected: f32 = (0..inputs)
                .map(|i| {
                    let quant = unpack_q8(values[i * columns / 4 + c / 4], c % 4) as f32;
                    input[r * inputs + i] * scales[i * (columns / block) + c / block] * quant
                })
                .sum();
            assert!(close(output[r * outputs + c], expected));
        }
    }
}

fn q4_scheme(block: &[u8], store: QuantStore) -> QuantScheme {
    QuantScheme {
        value: QuantValue::Q4S,
        param: QuantParam::F32,
        store,
        level: QuantLevel::Block(BlockSize::new(block)),
        mode: QuantMode::Symmetric,
    }
}

#[test]
fn quantization_plans() {
    let scheme = q4_scheme(&[32, 1], QuantStore::PackedU32(0));
    let plan = quantize(&tensor(&[64, 80]), &scheme, &tensor(&[2, 80]));
    let kernel = QuantizeKernel::Q4KBlock {
        launch: Launch { cubes: 3, threads: 256 },
        output_width: 80,
        block_size: 32,
    };
    let output = |scheme: QuantScheme, shape: &[usize]| QuantizedOutput {
        device: 0,
        dtype: DType::QFloat(scheme),
        shape: shape.to_vec(),
    };
    assert_eq!(plan, Ok(QuantizePlan { output: output(scheme, &[64, 80]), kernel }));
    let scale = tensor(&[2, 80]);
    assert_eq!(quantize(&tensor(&[60, 80]), &scheme, &scale), Err(Rejection::Misaligned));
    assert_eq!(quantize(&tensor(&[64, 84]), &scheme, &scale), Err(Rejection::Misaligned));
    assert_eq!(quantize(&tensor(&[64]), &scheme, &scale), Err(Rejection::WrongRank));
    assert_eq!(
        quantize(&tensor(&[64, 80, 3]), &scheme, &scale),
        Ok(QuantizePlan { output: output(scheme, &[64, 80, 3]), kernel })
    );
    assert_eq!(quantize(&tensor(&[1, 64, 80]), &scheme, &scale), Err(Rejection::Misaligned));
    assert_eq!(
        quantize(&typed(DType::F16, &[64, 80]), &scheme, &scale),
        Err(Rejection::DTypeMismatch)
    );
    assert_eq!(
        quantize(&tensor(&[1 << 62, 80]), &scheme, &scale),
        Err(Rejection::TooLarge)
    );
    let other = q4_scheme(&[1, 32], QuantStore::PackedU32(0));
    assert_eq!(
        quantize(&tensor(&[1, 64, 80]), &other, &scale),
        Ok(QuantizePlan { output: output(other, &[1, 64, 80]), kernel: QuantizeKernel::Generic })
    );
}

struct Packed {
    values: Vec<u32>,
    scales: Vec<f32>,
    quants: Vec<i32>,
}

fn packed(rows: usize, columns: usize, block: usize, data: &[f32]) -> Packed {
    let mut scales_in = vec![0.0f32; rows / block * columns];
    for b in 0..rows / block {
        for c in 0..columns {
            let alpha = (0..block)
                .map(|i| data[(b * block + i) * columns + c].abs())
                .fold(0.0f32, f32::max);
            scales_in[b * columns + c] = alpha * 2.0 / 14.0;
        }
    }
    packed_by(rows, columns, block, data, &scales_in)
}

fn packed_by(
    rows: usize,
    columns: usize,
    block: usize,
    data: &[f32],
    scales_in: &[f32],
) -> Packed {
    let info = tensor(&[rows, columns]);
    let scales_info = tensor(&[rows / block, columns]);
    let values_info = typed(DType::U32, &[rows, columns / 8]);
    let mut out = Packed {
        values: vec![0; rows * columns / 8],
        scales: vec![f32::NAN; rows / block * columns],
        quants: vec![0; rows * columns],
    };
    for index in 0..rows * columns / 8 + 5 {
        let unit = quantize_q4_k_block_unit(
            index,
            rows * columns / 8,
            rows,
            columns,
            &info,
            &scales_info,
            &values_info,
            &scales_info,
            block,
        );
        let unit = match unit {
            Some(unit) => unit,
            None => {
                assert!(index >= rows * columns / 8);
                continue;
            }
        };
        let quants: Vec<i32> = (0..8)
            .map(|k| {
                let quotient = (data[unit.inputs[k]] / scales_in[unit.scales[k]]).round();
                clamp_q4(quotient.to_bits()).unwrap()
            })
            .collect();
        for k in 0..8 {
            out.quants[unit.inputs[k]] = quants[k];
        }
        for (k, copy) in unit.scale_copies.iter().enumerate() {
            out.scales[*copy] = scales_in[unit.scales[k]];
        }
        out.values[unit.word] = pack_q4(&quants);
    }
    out
}

#[test]
fn expansion_gives_back_what_was_packed() {
    let (rows, columns, block) = (12usize, 16usize, 4usize);
    let data = noise(17, rows * columns);
    let packed = packed(rows, columns, block, &data);
    assert!(packed.scales.iter().all(|s| !s.is_nan()));
    for index in 0..rows * columns {
        let unit =
            dequantize_q4_k_block_unit(index, rows * columns, rows, columns, block).unwrap();
        let quant = expanded_quant(&unit, &packed.values);
        assert_eq!(quant, packed.quants[index]);
        let value = packed.scales[unit.scale] * quant as f32;
        assert!((value - data[index]).abs() <= packed.scales[unit.scale] * 0.5001);
    }
    assert_eq!(
        dequantize_q4_k_block_unit(rows * columns, rows * columns, rows, columns, block),
        None
    );
}

#[test]
fn packing_an_expanded_tensor_again_gives_the_same_words() {
    let (rows, columns, block) = (12usize, 16usize, 4usize);
    let first = packed(rows, columns, block, &noise(27, rows * columns));
    let expanded: Vec<f32> = (0..rows * columns)
        .map(|index| {
            let unit =
                dequantize_q4_k_block_unit(index, rows * columns, rows, columns, block).unwrap();
            first.scales[unit.scale] * expanded_quant(&unit, &first.values) as f32
        })
        .collect();
    let second = packed_by(rows, columns, block, &expanded, &first.scales);
    assert_eq!(second.values, first.values);
    assert_eq!(second.scales, first.scales);
}

#[test]
fn the_nearest_value_is_packed() {
    let (rows, columns, block) = (4usize, 8usize, 2usize);
    let data: Vec<f32> = noise(28, rows * columns).iter().map(|x| x * 6.0).collect();
    let packed = packed_by(rows, columns, block, &data, &vec![1.0; rows / block * columns]);
    for (index, x) in data.iter().enumerate() {
        let unit = dequantize_q4_k_block_unit(index, rows * columns, rows, columns, block).unwrap();
        let kept = expanded_quant(&unit, &packed.values) as f32;
        for other in -7..=7 {
            assert!((x - kept).abs() <= (x - other as f32).abs());
        }
        assert!(x.abs() > 7.0 || (x - kept).abs() <= 0.5);
    }
    assert!(data.iter().any(|x| x.abs() > 7.5));
}

#[test]
fn packed_products_take_the_terms_of_dense_ones() {
    let (rows, inputs, columns, block) = (2usize, 40usize, 24usize, 8usize);
    let values_info = typed(DType::U32, &[inputs, columns / 8]);
    let scales_info = tensor(&[inputs / block, columns]);
    let bytes_info = typed(DType::U32, &[inputs, columns / 4]);
    let byte_scales_info = tensor(&[inputs, columns / block]);
    for index in 0..rows * columns {
        let (row, column) = (index / columns, index % columns);
        for lane in 0..32 {
            let dense = gemv_unit(index, lane, rows, columns, &tensor(&[inputs, columns]));
            let group = row * (columns / 8) + column / 8;
            let q4 = q4_gemv_unit(
                group, lane, rows, columns, columns, block, &values_info, &scales_info,
            );
            let group = row * (columns / 4) + column / 4;
            let q8 = q8_gemv_unit(
                group, lane, rows, columns, columns, block, &bytes_info, &byte_scales_info,
            );
            assert_eq!((q4.len(), q8.len()), (dense.len(), dense.len()));
            for (k, term) in dense.iter().enumerate() {
                assert_eq!((q4[k].input, q8[k].input), (term.input, term.input));
                let unit =
                    dequantize_q4_k_block_unit(term.weight, inputs * columns, inputs, columns, block)
                        .unwrap();
                let q4_unit =
                    ExpandUnit { word: q4[k].word, place: column % 8, scale: q4[k].scales[column % 8] };
                assert_eq!(unit, q4_unit);
                assert_eq!(q8[k].word, term.weight / columns * (columns / 4) + column / 4);
                assert_eq!(q8[k].scale, term.weight / columns * (columns / block) + column / block);
            }
        }
    }
}

#[test]
fn expansion_of_a_second_matrix() {
    let unit = dequantize_q4_k_block_unit(4 * 16 + 2 * 16 + 11, 128, 4, 16, 2).unwrap();
    assert_eq!(unit, ExpandUnit { word: 8 + 4 + 1, place: 3, scale: 32 + 16 + 11 });
}

#[test]
fn four_bit_products_match_expanded_weights() {
    let (rows, inputs, columns, outputs, block) = (2usize, 40usize, 24usize, 16usize, 8usize);
    let data = noise(18, inputs * columns);
    let packed = packed(inputs, columns, block, &data);
    let expanded: Vec<f32> = (0..inputs * columns)
        .map(|i| {
            let unit =
                dequantize_q4_k_block_unit(i, inputs * columns, inputs, columns, block).unwrap();
            packed.scales[unit.scale] * expanded_quant(&unit, &packed.values) as f32
        })
        .collect();
    let values_info = typed(DType::U32, &[inputs, columns / 8]);
    let scales_info = tensor(&[inputs / block, columns]);
    let input = noise(19, rows * inputs);
    for group in 0..rows * outputs / 8 {
        let place = word_outputs(group, rows, outputs, 8);
        for k in 0..8 {
            let sum: f32 = (0..32)
                .flat_map(|lane| {
                    q4_gemv_unit(
                        group, lane, rows, columns, outputs, block, &values_info, &scales_info,
                    )
                })
                .map(|t| {
                    input[t.input] * packed.scales[t.scales[k]]
                        * unpack_q4(packed.values[t.word], k) as f32
                })
                .sum();
            let (r, c) = ((place.offset + k) / outputs, (place.offset + k) % outputs);
            let expected: f32 =
                (0..inputs).map(|i| input[r * inputs + i] * expanded[i * columns + c]).sum();
            assert!(close(sum, expected));
        }
    }
}

#[test]
fn a_prefix_may_leave_a_ragged_suffix() {
    let values_info = typed(DType::U32, &[8, 1]);
    let scales_info = tensor(&[2, 12]);
    let terms = q4_gemv_unit(0, 3, 1, 12, 8, 4, &values_info, &scales_info);
    assert_eq!(terms.len(), 1);
    assert_eq!(terms[0].word, 3);
    assert_eq!(terms[0].scales, (0..8).collect::<Vec<usize>>());
}

#[test]
fn table_rows() {
    let (rows, columns) = (5usize, 64usize);
    let values_info = typed(DType::U32, &[rows, columns / 8]);
    let scales_info = tensor(&[rows, columns / 32]);
    let indices = [3usize, 0, 3];
    let len = indices.len() * columns;
    for index in 0..len {
        let (position, feature) = gathered_position(index, len, columns).unwrap();
        let row = indices[position];
        let entry =
            q4_embedding_unit(index, len, row, columns, &values_info, &scales_info).unwrap();
        assert_eq!(entry.word, (row * columns + feature) / 8);
        assert_eq!(entry.place, feature % 8);
        assert_eq!(entry.scale, (row * columns + feature) / 32);
        let same = q4_embedding_row_unit(feature, row, columns, &values_info, &scales_info);
        assert_eq!(same, Some(entry));
    }
    assert_eq!(q4_embedding_unit(len, len, 0, columns, &values_info, &scales_info), None);
    assert_eq!(q4_embedding_row_unit(columns, 0, columns, &values_info, &scales_info), None);
    assert_eq!(gathered_position(len, len, columns), None);
}

#[test]
fn every_hidden_row_is_projected() {
    let (batches, positions, start, rows, eos) = (2usize, 3usize, 10usize, 4usize, 99usize);
    let mut index = 0;
    for batch in 0..batches {
        for position in 0..positions {
            for table_row in [10, 11, 12, 13, 99] {
                let element = projected_element(index, batches, positions, start, rows, eos);
                assert_eq!(element, ProjectedElement { batch, position, table_row });
                index += 1;
            }
        }
    }
}

#[test]
fn table_projections() {
    let (rows, columns) = (9usize, 64usize);
    let values_info = typed(DType::U32, &[rows, columns / 8]);
    let scales_info = tensor(&[rows, columns / 32]);
    let values = words(20, rows * columns / 8);
    let scales = noise(21, rows * columns / 32);
    let input = noise(22, 2 * columns);
    let (start, count, eos) = (2usize, 3usize, 8usize);
    for o in 0..2 * (count + 1) {
        let sum: f32 = (0..32)
            .flat_map(|lane| {
                q4_embedding_projection_unit(
                    o, lane, 2, start, count, eos, &values_info, &scales_info,
                )
            })
            .map(|t| {
                input[t.input] * scales[t.entry.scale]
                    * unpack_q4(values[t.entry.word], t.entry.place) as f32
            })
            .sum();
        let (r, c) = (o / (count + 1), o % (count + 1));
        let row = if c < count { start + c } else { eos };
        let expected: f32 = (0..columns)
            .map(|f| {
                let e = row * columns + f;
                input[r * columns + f] * scales[e / 32] * unpack_q4(values[e / 8], e % 8) as f32
            })
            .sum();
        assert!(close(sum, expected));
    }
}

fn quantized(scheme: QuantScheme, shape: &[usize]) -> QuantTensor {
    QuantTensor {
        info: typed(DType::QFloat(scheme), shape),
        parts: Some(QuantParts { values: typed(DType::U32, &[1]), scales: tensor(&[1]) }),
    }
}

#[test]
fn plain_tensors_are_not_expanded() {
    let plain = QuantTensor { info: tensor(&[2, 3]), parts: None };
    assert_eq!(dequantize(&plain, &DType::F16), Ok(DequantizePlan::Unchanged));
}

#[test]
fn four_bit_expansion_plans() {
    let scheme = q4_scheme(&[32, 1], QuantStore::PackedU32(0));
    match dequantize(&quantized(scheme, &[3, 64, 16]), &DType::F16).unwrap() {
        DequantizePlan::Q4KBlock { output, launch, input_width, output_width, block_size } => {
            assert_eq!(output.tensor, typed(DType::F16, &[3, 64, 16]));
            assert_eq!(output.bytes, 6144);
            assert_eq!(launch, Launch { cubes: 12, threads: 256 });
            assert_eq!((input_width, output_width, block_size), (64, 16, 32));
        }
        other => panic!("{other:?}"),
    }
    let refused = |shape: &[usize]| dequantize(&quantized(scheme, shape), &DType::F32).unwrap_err();
    assert_eq!(refused(&[64]), Rejection::WrongRank);
    assert_eq!(refused(&[60, 16]), Rejection::Misaligned);
    assert_eq!(refused(&[64, 12]), Rejection::Misaligned);
    assert_eq!(refused(&[1 << 62, 16]), Rejection::TooLarge);
    let mut bare = quantized(scheme, &[64, 16]);
    bare.parts = None;
    assert_eq!(dequantize(&bare, &DType::F32), Err(Rejection::MissingParts));
}

#[test]
fn expansion_along_another_axis() {
    let scheme = q4_scheme(&[32], QuantStore::PackedU32(2));
    match dequantize(&quantized(scheme, &[2, 3, 4, 5]), &DType::F32).unwrap() {
        DequantizePlan::Generic { swaps, output, inverse_axes } => {
            assert_eq!(swaps, vec![1, 2]);
            assert_eq!(output.tensor.shape, vec![2, 4, 5, 3]);
            let inverse = inverse_axes.unwrap();
            assert_eq!(inverse, vec![0, 3, 1, 2]);
            let restored: Vec<usize> =
                inverse.iter().map(|axis| output.tensor.shape[*axis]).collect();
            assert_eq!(restored, vec![2, 3, 4, 5]);
        }
        other => panic!("{other:?}"),
    }
    let native = q4_scheme(&[32], QuantStore::PackedNative(1));
    match dequantize(&quantized(native, &[6, 7]), &DType::F32).unwrap() {
        DequantizePlan::Generic { swaps, output, inverse_axes } => {
            assert_eq!(swaps, vec![0]);
            assert_eq!(output.tensor.shape, vec![7, 6]);
            assert_eq!(inverse_axes, Some(vec![1, 0]));
        }
        other => panic!("{other:?}"),
    }
    let too_deep = q4_scheme(&[32], QuantStore::PackedU32(2));
    assert_eq!(
        dequantize(&quantized(too_deep, &[6, 7]), &DType::F32),
        Err(Rejection::OutOfRange)
    );
}

#[test]
fn expansion_without_a_change_of_axes() {
    let scheme = q4_scheme(&[32], QuantStore::PackedU32(0));
    match dequantize(&quantized(scheme, &[6, 64]), &DType::F32).unwrap() {
        DequantizePlan::Generic { swaps, output, inverse_axes } => {
            assert!(swaps.is_empty());
            assert_eq!(output.tensor.shape, vec![6, 64]);
            assert_eq!(inverse_axes, None);
        }
        other => panic!("{other:?}"),
    }
    let mut bare = quantized(scheme, &[6, 64]);
    bare.parts = None;
    assert_eq!(dequantize(&bare, &DType::F32), Err(Rejection::MissingParts));
}

#[test]
fn every_word_is_read_once_per_row() {
    let (rows, inputs, columns, outputs, block) = (2usize, 70usize, 24usize, 16usize, 8usize);
    let values_info = typed(DType::U32, &[inputs, columns / 4]);
    let scales_info = tensor(&[inputs, columns / block]);
    let mut reads = vec![0; inputs * columns / 4];
    for group in 0..rows * outputs / 4 {
        for lane in 0..32 {
            let terms = q8_gemv_unit(
                group, lane, rows, columns, outputs, block, &values_info, &scales_info,
            );
            for t in terms {
                reads[t.word] += 1;
            }
        }
    }
    for (word, count) in reads.iter().enumerate() {
        let expected = if word % (columns / 4) < outputs / 4 { rows } else { 0 };
        assert_eq!(*count, expected);
    }
}

#[test]
fn packing_goes_by_the_first_two_dimensions() {
    let (input, scales) = (tensor(&[4, 16, 3]), tensor(&[2, 16, 1]));
    let values = typed(DType::U32, &[4, 16, 1]);
    let unit =
        quantize_q4_k_block_unit(5, 64, 4, 16, &input, &scales, &values, &scales, 2).unwrap();
    assert_eq!(unit.word, 2 * 16 + 1);
    assert_eq!(unit.inputs[3], 2 * 48 + 11 * 3);
    assert_eq!(unit.scales[3], 16 + 11);
    assert_eq!(unit.scale_copies[3], 16 + 11);
    assert_eq!(quantize_q4_k_block_unit(64, 64, 4, 16, &input, &scales, &values, &scales, 2), None);
}

#[test]
fn packed_products_follow_strides() {
    let (inputs, columns, block) = (16usize, 16usize, 8usize);
    let data = noise(41, inputs * columns);
    let packed = packed(inputs, columns, block, &data);
    let turned = |shape: &[usize], dtype: DType| TensorInfo {
        device: 0,
        dtype,
        shape: shape.to_vec(),
        strides: vec![1, shape[0]],
    };
    let values_info = turned(&[inputs, columns / 8], DType::U32);
    let scales_info = turned(&[inputs / block, columns], DType::F32);
    let mut values = vec![0; packed.values.len()];
    for i in 0..inputs {
        for w in 0..columns / 8 {
            values[w * inputs + i] = packed.values[i * (columns / 8) + w];
        }
    }
    let mut scales = vec![0.0; packed.scales.len()];
    for b in 0..inputs / block {
        for c in 0..columns {
            scales[c * (inputs / block) + b] = packed.scales[b * columns + c];
        }
    }
    let input = noise(42, inputs);
    for column in 0..columns {
        let sum: f32 = (0..32)
            .flat_map(|lane| {
                q4_gemv_unit(
                    column / 8, lane, 1, columns, columns, block, &values_info, &scales_info,
                )
            })
            .map(|t| {
                input[t.input] * scales[t.scales[column % 8]]
                    * unpack_q4(values[t.word], column % 8) as f32
            })
            .sum();
        let expected: f32 = (0..inputs)
            .map(|i| {
                let unit =
                    dequantize_q4_k_block_unit(i * columns + column, 256, inputs, columns, block)
                        .unwrap();
                input[i] * packed.scales[unit.scale] * expanded_quant(&unit, &packed.values) as f32
            })
            .sum();
        assert!(close(sum, expected));
    }
}

#[test]
fn lane_sums_add_up_to_the_product() {
    let (inputs, columns) = (70usize, 3usize);
    let (input, weight) = (noise(43, 2 * inputs), noise(44, inputs * columns));
    for index in 0..2 * columns {
        let sum: f32 = (0..32)
            .map(|lane| {
                gemv_unit(index, lane, 2, columns, &tensor(&[inputs, columns]))
                    .iter()
                    .map(|t| input[t.input] * weight[t.weight])
                    .sum::<f32>()
            })
            .sum();
        let (row, column) = (index / columns, index % columns);
        let expected: f32 =
            (0..inputs).map(|i| input[row * inputs + i] * weight[i * columns + column]).sum();
        assert!(close(sum, expected));
    }
}

#[test]
fn later_columns_do_not_matter_to_a_prefix() {
    let (inputs, columns, width) = (40usize, 12usize, 8usize);
    let weight = tensor(&[inputs, columns]);
    let mut data = noise(45, inputs * columns);
    for i in 0..inputs {
        for j in width..columns {
            data[i * columns + j] = f32::NAN;
        }
    }
    for row in 0..2 {
        for column in 0..width {
            for lane in 0..32 {
                let prefix = gemv_unit(row * width + column, lane, 2, width, &weight);
                assert_eq!(prefix, gemv_unit(row * columns + column, lane, 2, columns, &weight));
                assert!(prefix.iter().all(|t| !data[t.weight].is_nan()));
            }
        }
    }
}

#[test]
fn a_row_is_the_lookup_of_one_index() {
    let (values, scales) = (typed(DType::U32, &[5, 8]), tensor(&[5, 2]));
    for row in 0..5 {
        for feature in 0..65 {
            assert_eq!(
                q4_embedding_row_unit(feature, row, 64, &values, &scales),
                q4_embedding_unit(feature, 64, row, 64, &values, &scales)
            );
        }
    }
}

#[test]
fn every_element_is_packed_once() {
    let (rows, columns, block) = (8usize, 24usize, 4usize);
    let info = tensor(&[rows, columns]);
    let scales_info = tensor(&[rows / block, columns]);
    let values_info = typed(DType::U32, &[rows, columns / 8]);
    let mut inputs = vec![0; rows * columns];
    let mut copies = vec![0; rows / block * columns];
    for index in 0..rows * columns / 8 {
        let unit = quantize_q4_k_block_unit(
            index,
            rows * columns / 8,
            rows,
            columns,
            &info,
            &scales_info,
            &values_info,
            &scales_info,
            block,
        )
        .unwrap();
        assert_eq!(unit.word, index);
        unit.inputs.iter().for_each(|i| inputs[*i] += 1);
        unit.scale_copies.iter().for_each(|i| copies[*i] += 1);
    }
    assert!(inputs.iter().all(|n| *n == 1));
    assert!(copies.iter().all(|n| *n == 1));
}

#[test]
fn every_head_and_feature_is_written_once() {
    let (query, cache) = (tensor(&[3, 6, 1, 64]), tensor(&[3, 3, 5, 64]));
    let mut writes = vec![0; 3 * 6 * 64];
    for cube in 0..18 {
        for lane in 0..32 {
            let (unit, out) = attention_short_unit(cube, lane, &query, &cache, &cache, &query);
            assert_eq!(unit.query, out);
            writes[out.low] += 1;
            writes[out.high] += 1;
        }
    }
    assert!(writes.iter().all(|n| *n == 1));
}

#[test]
fn moving_an_axis_and_back_restores_the_elements() {
    let shape = [2usize, 3, 4, 5];
    let scheme = q4_scheme(&[32], QuantStore::PackedU32(2));
    let inverse = match dequantize(&quantized(scheme, &shape), &DType::F32).unwrap() {
        DequantizePlan::Generic { swaps, inverse_axes, .. } => {
            let mut axes = vec![0usize, 1, 2, 3];
            for axis in swaps {
                axes.swap(axis, axis + 1);
            }
            assert_eq!(axes, vec![0, 2, 3, 1]);
            let inverse = inverse_axes.unwrap();
            for (place, axis) in axes.iter().enumerate() {
                assert_eq!(inverse[*axis], place);
            }
            inverse
        }
        other => panic!("{other:?}"),
    };
    assert_eq!(inverse.len(), 4);
}

#[test]
fn leading_columns_have_the_terms_of_the_whole_product() {
    let info = tensor(&[40, 24]);
    let values_info = typed(DType::U32, &[40, 3]);
    let scales_info = tensor(&[5, 24]);
    for row in 0..2 {
        for column in 0..16 {
            for lane in [0, 7, 31] {
                assert_eq!(
                    gemv_unit(row * 16 + column, lane, 2, 16, &info),
                    gemv_unit(row * 24 + column, lane, 2, 24, &info)
                );
                let word = column / 8;
                assert_eq!(
                    q4_gemv_unit(row * 2 + word, lane, 2, 24, 16, 8, &values_info, &scales_info),
                    q4_gemv_unit(row * 3 + word, lane, 2, 24, 24, 8, &values_info, &scales_info)
                );
            }
        }
    }
}
