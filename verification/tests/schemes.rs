use burn_metal::blocks::blocks;
use burn_metal::calibration::{compute_q_params, compute_range, Calibration};
use burn_metal::reject::Rejection;
use burn_metal::scheme::{
    dtypes_equal, is_q4_embedding_scheme, is_q4_k_block, q4_gemv_block_size, q8_gemv_block_size,
    BoolStore, DType, QuantLevel, QuantMode, QuantParam, QuantScheme, QuantStore, QuantValue,
};
use burn_std::BlockSize;

fn scheme(value: QuantValue, level: QuantLevel) -> QuantScheme {
    QuantScheme {
        value,
        param: QuantParam::F32,
        store: QuantStore::PackedU32(0),
        level,
        mode: QuantMode::Symmetric,
    }
}

fn block(dims: &[u8]) -> QuantLevel {
    QuantLevel::Block(BlockSize::new(dims))
}

#[test]
fn embedding_schemes() {
    assert!(is_q4_embedding_scheme(&scheme(QuantValue::Q4S, block(&[1, 32]))));
    assert!(is_q4_embedding_scheme(&scheme(QuantValue::Q4S, block(&[32]))));
    assert!(!is_q4_embedding_scheme(&scheme(QuantValue::Q4S, block(&[32, 1]))));
    assert!(!is_q4_embedding_scheme(&scheme(QuantValue::Q4F, block(&[1, 32]))));
    assert!(!is_q4_embedding_scheme(&scheme(QuantValue::Q4S, QuantLevel::Tensor)));
    let two_level = QuantLevel::BlockTensor(BlockSize::new([1, 32]));
    assert!(!is_q4_embedding_scheme(&scheme(QuantValue::Q4S, two_level)));
    let mut half = scheme(QuantValue::Q4S, block(&[1, 32]));
    half.param = QuantParam::F16;
    assert!(!is_q4_embedding_scheme(&half));
    let mut native = scheme(QuantValue::Q4S, block(&[1, 32]));
    native.store = QuantStore::Native;
    assert!(!is_q4_embedding_scheme(&native));
}

#[test]
fn a_longer_block_keeps_its_first_dimensions() {
    assert!(is_q4_embedding_scheme(&scheme(QuantValue::Q4S, block(&[1, 32, 4]))));
    assert_eq!(q4_gemv_block_size(&scheme(QuantValue::Q4S, block(&[64, 1, 9]))), Some(64));
}

#[test]
fn four_bit_columns() {
    let q4 = |dims: &[u8]| q4_gemv_block_size(&scheme(QuantValue::Q4S, block(dims)));
    assert_eq!(q4(&[128, 1]), Some(128));
    assert_eq!(q4(&[1, 1]), Some(1));
    assert_eq!(q4(&[1]), Some(1));
    assert_eq!(q4(&[0, 1]), None);
    assert_eq!(q4(&[128, 2]), None);
    assert_eq!(q4(&[128]), None);
    assert_eq!(q4_gemv_block_size(&scheme(QuantValue::Q8S, block(&[128, 1]))), None);
    assert_eq!(is_q4_k_block(&scheme(QuantValue::Q4S, block(&[128, 1]))), Some(128));
    let mut other = scheme(QuantValue::Q4S, block(&[128, 1]));
    other.store = QuantStore::PackedU32(1);
    assert_eq!(is_q4_k_block(&other), None);
}

#[test]
fn eight_bit_rows() {
    let q8 = |value, dims: &[u8]| q8_gemv_block_size(&scheme(value, block(dims)));
    assert_eq!(q8(QuantValue::Q8S, &[32]), Some(32));
    assert_eq!(q8(QuantValue::Q8F, &[1, 64]), Some(64));
    assert_eq!(q8(QuantValue::Q8S, &[2, 32]), None);
    assert_eq!(q8(QuantValue::Q8S, &[1, 1, 32]), None);
    assert_eq!(q8(QuantValue::Q8S, &[30]), None);
    assert_eq!(q8(QuantValue::Q8S, &[0]), None);
    assert_eq!(q8(QuantValue::Q4S, &[32]), None);
    assert_eq!(q8_gemv_block_size(&scheme(QuantValue::Q8S, QuantLevel::Tensor)), None);
}

#[test]
fn no_scheme_has_two_kernels() {
    for value in [QuantValue::Q8F, QuantValue::Q8S, QuantValue::Q4S, QuantValue::Q4F] {
        for dims in [&[32u8][..], &[1, 32], &[32, 1], &[1, 1], &[4]] {
            let scheme = scheme(value, block(dims));
            let q8 = q8_gemv_block_size(&scheme).is_some();
            let q4 = q4_gemv_block_size(&scheme).is_some();
            let table = is_q4_embedding_scheme(&scheme);
            assert!((q8 as u8) + (q4 as u8) + (table as u8) <= 1);
        }
    }
}

#[test]
fn element_sizes() {
    assert_eq!(DType::F64.size(), 8);
    assert_eq!(DType::F32.size(), 4);
    assert_eq!(DType::BF16.size(), 2);
    assert_eq!(DType::U8.size(), 1);
    assert_eq!(DType::Bool(BoolStore::U32).size(), 4);
    assert_eq!(DType::QFloat(scheme(QuantValue::Q4S, block(&[32]))).size(), 4);
}

#[test]
fn sizes_agree_with_those_of_the_standard_types() {
    assert_eq!(DType::F32.size(), burn_std::DType::F32.size());
    assert_eq!(DType::Flex32.size(), burn_std::DType::Flex32.size());
    assert_eq!(DType::F16.size(), burn_std::DType::F16.size());
    assert_eq!(DType::I64.size(), burn_std::DType::I64.size());
    assert_eq!(DType::U16.size(), burn_std::DType::U16.size());
}

#[test]
fn types_compare_by_scheme() {
    let a = DType::QFloat(scheme(QuantValue::Q4S, block(&[32, 1])));
    let b = DType::QFloat(scheme(QuantValue::Q4S, block(&[32, 1])));
    let c = DType::QFloat(scheme(QuantValue::Q4S, block(&[32, 2])));
    let d = DType::QFloat(scheme(QuantValue::Q4S, block(&[32])));
    assert!(dtypes_equal(&a, &b));
    assert!(!dtypes_equal(&a, &c));
    assert!(!dtypes_equal(&a, &d));
    assert!(!dtypes_equal(&a, &DType::F32));
    assert!(dtypes_equal(&DType::Bool(BoolStore::U8), &DType::Bool(BoolStore::U8)));
    assert!(!dtypes_equal(&DType::Bool(BoolStore::U8), &DType::Bool(BoolStore::U32)));
}

#[test]
fn blocks_of_a_linear_weight() {
    let plan = blocks(&vec![256, 3], &BlockSize::new([128, 1])).unwrap();
    assert_eq!(plan.split_shape, vec![2, 128, 3, 1]);
    assert_eq!(plan.axes, vec![0, 2, 1, 3]);
    assert_eq!(plan.num_blocks, 6);
    assert_eq!(plan.block_elems, 128);
}

fn rearranged(data: &[usize], plan: &burn_metal::blocks::BlocksPlan) -> Vec<usize> {
    let dims: Vec<usize> = plan.axes.iter().map(|a| plan.split_shape[*a]).collect();
    (0..data.len())
        .map(|mut k| {
            let mut coords = vec![0; dims.len()];
            for d in (0..dims.len()).rev() {
                coords[plan.axes[d]] = k % dims[d];
                k /= dims[d];
            }
            let mut address = 0;
            for d in 0..dims.len() {
                address = address * plan.split_shape[d] + coords[d];
            }
            data[address]
        })
        .collect()
}

#[test]
fn each_block_becomes_one_row() {
    let data: Vec<usize> = (0..24).collect();
    let plan = blocks(&vec![4, 6], &BlockSize::new([2, 1])).unwrap();
    let rows = rearranged(&data, &plan);
    for (row, chunk) in rows.chunks(plan.block_elems).enumerate() {
        let (r, c) = (row / 6, row % 6);
        assert_eq!(chunk, &[(2 * r) * 6 + c, (2 * r + 1) * 6 + c]);
    }
}

#[test]
fn blocks_at_the_end_of_a_tensor_stay_in_place() {
    let data: Vec<usize> = (0..48).collect();
    let plan = blocks(&vec![4, 12], &BlockSize::new([1, 4])).unwrap();
    assert_eq!(rearranged(&data, &plan), data);
    let plan = blocks(&vec![4, 12], &BlockSize::new([2, 12])).unwrap();
    assert_eq!(rearranged(&data, &plan), data);
}

#[test]
fn blocks_must_divide_the_tensor() {
    let size = BlockSize::new([128, 1]);
    assert_eq!(blocks(&vec![200, 3], &size), Err(Rejection::UnevenBlock));
    assert_eq!(blocks(&vec![128, 3], &BlockSize::new([128, 0])), Err(Rejection::ZeroBlock));
    assert_eq!(blocks(&vec![5, 3], &BlockSize::new([2, 0])), Err(Rejection::UnevenBlock));
}

#[test]
fn too_many_blocks() {
    let huge = usize::MAX;
    assert_eq!(blocks(&vec![huge, 2], &BlockSize::new([1, 1])), Err(Rejection::TooLarge));
}

#[test]
fn ranges_per_tensor_and_per_block() {
    let tensor = scheme(QuantValue::Q8S, QuantLevel::Tensor);
    let plan = compute_range(&tensor, &vec![4, 4], Calibration::AbsMean).unwrap();
    assert_eq!(plan.calibration, Calibration::AbsMean);
    assert_eq!(plan.blocks, None);

    let blocked = scheme(QuantValue::Q4S, block(&[128, 1]));
    let plan = compute_range(&blocked, &vec![256, 3], Calibration::MinMax).unwrap();
    let ranges = plan.blocks.unwrap();
    assert_eq!(ranges.params_shape, vec![2, 3]);
    assert_eq!(ranges.plan.num_blocks, 6);
    assert_eq!(plan.calibration, Calibration::MinMax);
}

#[test]
fn ranges_that_are_refused() {
    let two_level = scheme(QuantValue::Q8S, QuantLevel::BlockTensor(BlockSize::new([32])));
    let shape = vec![64, 64];
    for calibration in [Calibration::MinMax, Calibration::AbsMean] {
        assert_eq!(compute_range(&two_level, &shape, calibration), Err(Rejection::TwoLevel));
        let uneven = scheme(QuantValue::Q8S, block(&[48]));
        assert_eq!(compute_range(&uneven, &shape, calibration), Err(Rejection::UnevenBlock));
        let empty = scheme(QuantValue::Q8S, block(&[3, 0]));
        assert_eq!(compute_range(&empty, &shape, calibration), Err(Rejection::ZeroBlock));
    }
}

#[test]
fn scales_cover_the_wider_bound() {
    let q4 = scheme(QuantValue::Q4S, block(&[32, 1]));
    let min: Vec<u32> = [-3.0f32, -1.0, 0.5, 0.0].iter().map(|x| x.to_bits()).collect();
    let max: Vec<u32> = [2.0f32, 4.0, 0.75, -0.0].iter().map(|x| x.to_bits()).collect();
    let params = compute_q_params(&q4, &min, &max).unwrap();
    let alphas: Vec<f32> = params.alphas.iter().map(|a| f32::from_bits(*a)).collect();
    assert_eq!(alphas, vec![3.0, 4.0, 0.75, 0.0]);
    assert_eq!(params.span, 14);
    let scales: Vec<f32> = alphas.iter().map(|a| a * 2.0 / params.span as f32).collect();
    assert_eq!(scales[1], 8.0 / 14.0);
}

#[test]
fn widths_of_quantized_ranges() {
    let span = |value| {
        compute_q_params(&scheme(value, QuantLevel::Tensor), &vec![0], &vec![0]).unwrap().span
    };
    assert_eq!(span(QuantValue::Q8F), 255);
    assert_eq!(span(QuantValue::Q4F), 15);
    assert_eq!(span(QuantValue::Q2F), 3);
    assert_eq!(span(QuantValue::Q8S), 254);
    assert_eq!(span(QuantValue::Q2S), 2);
    assert_eq!(span(QuantValue::E4M3), 896);
    assert_eq!(span(QuantValue::E5M2), 114688);
    assert_eq!(span(QuantValue::E2M1), 12);
    assert_eq!(QuantValue::Q4S.range(), (-7, 7));
}

#[test]
fn ranges_agree_with_those_of_the_standard_values() {
    let pairs = [
        (QuantValue::Q8F, burn_std::QuantValue::Q8F),
        (QuantValue::Q4F, burn_std::QuantValue::Q4F),
        (QuantValue::Q2F, burn_std::QuantValue::Q2F),
        (QuantValue::Q8S, burn_std::QuantValue::Q8S),
        (QuantValue::Q4S, burn_std::QuantValue::Q4S),
        (QuantValue::Q2S, burn_std::QuantValue::Q2S),
        (QuantValue::E4M3, burn_std::QuantValue::E4M3),
        (QuantValue::E5M2, burn_std::QuantValue::E5M2),
        (QuantValue::E2M1, burn_std::QuantValue::E2M1),
    ];
    for (ours, standard) in pairs {
        let (low, high) = ours.range();
        assert_eq!((low as f32, high as f32), standard.range());
    }
}

#[test]
fn parameters_that_are_refused() {
    let two_level = scheme(QuantValue::Q8S, QuantLevel::BlockTensor(BlockSize::new([32])));
    assert_eq!(compute_q_params(&two_level, &vec![0], &vec![0]), Err(Rejection::TwoLevel));
    let tensor = scheme(QuantValue::Q8S, QuantLevel::Tensor);
    assert_eq!(compute_q_params(&tensor, &vec![0], &vec![]), Err(Rejection::ShapeMismatch));
}

#[test]
fn a_nan_bound_makes_a_nan_scale_only_below() {
    let tensor = scheme(QuantValue::Q8S, QuantLevel::Tensor);
    let nan = f32::NAN.to_bits();
    let one = 1.0f32.to_bits();
    let params = compute_q_params(&tensor, &vec![nan, one], &vec![one, nan]).unwrap();
    assert!(f32::from_bits(params.alphas[0]).is_nan());
    assert_eq!(params.alphas[1], one);
}

#[test]
fn a_plain_reshape_would_mix_columns() {
    let data: Vec<usize> = (0..256 * 3).collect();
    let plan = blocks(&vec![256, 3], &BlockSize::new([128, 1])).unwrap();
    let rows = rearranged(&data, &plan);
    assert_ne!(rows, data);
    for chunk in rows.chunks(plan.block_elems) {
        assert!(chunk.iter().all(|e| e % 3 == chunk[0] % 3));
    }
    assert!(data[..128].iter().any(|e| e % 3 != data[0] % 3));
}

#[test]
fn each_block_has_one_range() {
    for (shape, dims) in [(vec![8usize, 6], vec![4u8, 1]), (vec![2, 4, 6], vec![2, 3])] {
        let scheme = scheme(QuantValue::Q8S, block(&dims));
        let plan = compute_range(&scheme, &shape, Calibration::MinMax).unwrap();
        let ranges = plan.blocks.unwrap();
        assert_eq!(ranges.params_shape.iter().product::<usize>(), ranges.plan.num_blocks);
        assert_eq!(
            ranges.plan.num_blocks * ranges.plan.block_elems,
            shape.iter().product::<usize>()
        );
    }
}
