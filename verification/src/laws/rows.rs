//! Normalization, gating and rotation: what is computed for every element.

use vstd::prelude::*;

use crate::backend::{CubeBackend, MetalTransformerBackend};
use crate::elementwise::{
    coords4, lemma_coords4, lemma_rows_cover, rms_norm_unit, rope_unit, RopeUnit, RowUnit,
};
use crate::laws::counts::{
    has_room, has_thread, is_large, lemma_created_is_counted, lemma_elements_have_threads,
    lemma_elements_of_four, lemma_grouped_count, lemma_small_tensors_fit, one_thread_each,
};
use crate::ops::{apply_rope, rms_norm, silu_mul, Real};
use crate::plan::{Kernel, Plan};
use crate::reject::Rejection;
use crate::rules::{rms_norm_planned, rope_planned, silu_mul_planned};
use crate::shape::{lemma_pair, lemma_pair_bound, lemma_strided_bound, product, strided};
use crate::tensor::{row_major, TensorInfo};

verus! {

/// The plan writes a tensor without gaps of the device, element type and dimensions of `input`.
pub open spec fn writes_alike(plan: Plan, input: TensorInfo) -> bool {
    let output = plan.output.tensor;
    &&& output.device == input.device
    &&& output.dtype == input.dtype
    &&& output.shape@ == input.shape@
    &&& row_major(output.strides@, input.shape@)
    &&& has_room(plan.output)
}

/// Normalization has a group for every row and the caller's epsilon; it is refused for these reasons
/// only.
pub open spec fn normalization_served(
    answer: Result<Plan, Rejection>,
    input: TensorInfo,
    gamma: TensorInfo,
    epsilon: u32,
) -> bool {
    let shape = input.shape@;
    let width = shape.last() as int;
    let paired = input.device == gamma.device && (input.dtype is QFloat || input.dtype
        == gamma.dtype);
    match answer {
        Ok(plan) => {
            &&& paired
            &&& shape.len() > 0 && width > 0 && product(gamma.shape@) == width
            &&& plan.kernel == (Kernel::RmsNorm { epsilon })
            &&& plan.launch.threads == 32
            &&& forall|rows: int|
                0 <= rows && #[trigger] (rows * width) == product(shape) ==> plan.launch.cubes
                    == rows % 0x1_0000_0000 && (rows < 0x1_0000_0000 ==> plan.launch.cubes == rows)
            &&& writes_alike(plan, input)
        },
        Err(Rejection::DeviceMismatch) => input.device != gamma.device,
        Err(Rejection::DTypeMismatch) => input.device == gamma.device && input.dtype != gamma.dtype,
        Err(Rejection::WrongRank) => paired && shape.len() == 0,
        Err(Rejection::ShapeMismatch) => paired && shape.len() > 0 && product(gamma.shape@)
            != width,
        Err(Rejection::EmptyDimension) => paired && shape.len() > 0 && product(gamma.shape@) == 0
            && width == 0,
        Err(Rejection::TooLarge) => paired && shape.len() > 0 && product(gamma.shape@) == width
            && width > 0 && is_large(shape, input.dtype),
        Err(_) => false,
    }
}

proof fn lemma_normalization(
    answer: Result<Plan, Rejection>,
    input: TensorInfo,
    gamma: TensorInfo,
    epsilon: u32,
)
    requires
        rms_norm_planned(answer, input, gamma, epsilon),
    ensures
        normalization_served(answer, input, gamma, epsilon),
{
    let shape = input.shape@;
    let width = shape.last() as int;
    match answer {
        Ok(plan) => {
            assert forall|rows: int|
                0 <= rows && #[trigger] (rows * width) == product(
                    shape,
                ) implies plan.launch.cubes == rows % 0x1_0000_0000 && (rows < 0x1_0000_0000
                ==> plan.launch.cubes == rows) by {
                lemma_pair(rows, width, 0);
                lemma_grouped_count(rows);
            }
        },
        Err(_) => {
            if !is_large(shape, input.dtype) {
                lemma_small_tensors_fit(shape, input.dtype);
            }
        },
    }
}

/// Normalization by the fused kernel: every row has a group, with the caller's epsilon.
pub proof fn lemma_fused_rms_norm(
    input: TensorInfo,
    gamma: TensorInfo,
    epsilon: u32,
    answer: Result<Plan, Rejection>,
)
    requires
        call_ensures(CubeBackend::fused_rms_norm, (&input, &gamma, epsilon), answer),
    ensures
        normalization_served(answer, input, gamma, epsilon),
{
    lemma_normalization(answer, input, gamma, epsilon);
}

/// Normalization of tensors of three dimensions: every row has a group, with the caller's epsilon in
/// single precision.
pub proof fn lemma_rms_norm(
    input: TensorInfo,
    gamma: TensorInfo,
    epsilon: Real,
    answer: Result<Plan, Rejection>,
)
    requires
        call_ensures(rms_norm, (&input, &gamma, epsilon), answer),
    ensures
        if input.shape@.len() == 3 && gamma.shape@.len() == 1 {
            normalization_served(answer, input, gamma, epsilon.single)
        } else {
            answer == Err::<Plan, Rejection>(Rejection::WrongRank)
        },
{
    if input.shape@.len() == 3 && gamma.shape@.len() == 1 {
        lemma_normalization(answer, input, gamma, epsilon.single);
    }
}

/// Every element is normalized by one lane of the group of its row, and scaled by the entry of
/// `gamma` for its column; the group takes no element of another row.
pub proof fn lemma_element_normalized(
    input: TensorInfo,
    gamma: TensorInfo,
    epsilon: u32,
    plan: Plan,
    rows: usize,
    row: usize,
    column: usize,
    unit: RowUnit,
)
    requires
        call_ensures(
            CubeBackend::fused_rms_norm,
            (&input, &gamma, epsilon),
            Ok::<Plan, Rejection>(plan),
        ),
        rows * input.shape@.last() == product(input.shape@),
        row < rows < 0x1_0000_0000,
        column < input.shape@.last(),
        call_ensures(
            rms_norm_unit,
            (row, (column % 32) as usize, rows, input.shape@.last()),
            unit,
        ),
    ensures
        row < plan.launch.cubes,
        column % 32 < plan.launch.threads,
        unit.elements@.len() == unit.columns@.len(),
        column as int / 32 < unit.elements@.len(),
        unit.elements@[column as int / 32] == row * input.shape@.last() + column,
        unit.columns@[column as int / 32] == column,
        forall|k: int|
            #![trigger unit.elements@[k]]
            #![trigger unit.columns@[k]]
            0 <= k < unit.elements@.len() ==> unit.columns@[k] < input.shape@.last()
                && unit.elements@[k] == row * input.shape@.last() + unit.columns@[k]
                && unit.columns@[k] % 32 == column % 32,
{
    let width = input.shape@.last() as int;
    lemma_normalization(Ok(plan), input, gamma, epsilon);
    lemma_pair(row as int, width, column as int);
    lemma_pair_bound(row as int, rows as int, width, column as int);
    lemma_rows_cover(rows as int, width, row * width + column);
    let lane = column as int % 32;
    assert forall|k: int|
        #![trigger unit.elements@[k]]
        #![trigger unit.columns@[k]]
        0 <= k < unit.elements@.len() implies unit.columns@[k] < width && unit.elements@[k] == row
        * width + unit.columns@[k] && unit.columns@[k] % 32 == column % 32 by {
        lemma_strided_bound(lane, 32, width, k);
        assert(unit.columns@[k] == strided(lane, 32, width)[k]);
        assert(unit.elements@[k] == row * width + strided(lane, 32, width)[k]);
        assert(strided(lane, 32, width)[k] == lane + k * 32);
    }
}

/// The gated product has a thread for every element; it is refused for these reasons only.
pub open spec fn gating_served(
    answer: Result<Plan, Rejection>,
    input: TensorInfo,
    gate: TensorInfo,
) -> bool {
    let paired = input.device == gate.device && (input.dtype is QFloat || input.dtype
        == gate.dtype);
    match answer {
        Ok(plan) => {
            &&& paired
            &&& input.shape@ == gate.shape@
            &&& plan.kernel == Kernel::SiluMul
            &&& one_thread_each(plan.launch, product(input.shape@) as int)
            &&& writes_alike(plan, input)
        },
        Err(Rejection::DeviceMismatch) => input.device != gate.device,
        Err(Rejection::DTypeMismatch) => input.device == gate.device && input.dtype != gate.dtype,
        Err(Rejection::ShapeMismatch) => paired && input.shape@ != gate.shape@,
        Err(Rejection::TooLarge) => paired && input.shape@ == gate.shape@ && is_large(input.shape@, input.dtype),
        Err(_) => false,
    }
}

proof fn lemma_gating(answer: Result<Plan, Rejection>, input: TensorInfo, gate: TensorInfo)
    requires
        silu_mul_planned(answer, input, gate),
    ensures
        gating_served(answer, input, gate),
{
    match answer {
        Ok(plan) => {
            lemma_elements_have_threads(product(input.shape@) as int, plan.launch);
        },
        Err(_) => {
            if !is_large(input.shape@, input.dtype) {
                lemma_small_tensors_fit(input.shape@, input.dtype);
            }
        },
    }
}

/// The gated product by the fused kernel has a thread for every element.
pub proof fn lemma_fused_silu_mul(
    input: TensorInfo,
    gate: TensorInfo,
    answer: Result<Plan, Rejection>,
)
    requires
        call_ensures(CubeBackend::fused_silu_mul, (&input, &gate), answer),
    ensures
        gating_served(answer, input, gate),
{
    lemma_gating(answer, input, gate);
}

/// The gated product has a thread for every element.
pub proof fn lemma_silu_mul(input: TensorInfo, gate: TensorInfo, answer: Result<Plan, Rejection>)
    requires
        call_ensures(silu_mul, (&input, &gate), answer),
    ensures
        gating_served(answer, input, gate),
{
    lemma_gating(answer, input, gate);
}

/// Rotation has a thread for every element and goes by the dimension that the caller counts positions
/// along; it is refused for these reasons only.
pub open spec fn rotation_served(
    answer: Result<Plan, Rejection>,
    input: TensorInfo,
    frequencies: TensorInfo,
    sequence_dim: int,
) -> bool {
    let paired = input.device == frequencies.device && (input.dtype is QFloat || input.dtype
        == frequencies.dtype);
    let ranks = input.shape@.len() == 4 && frequencies.shape@.len() == 3;
    match answer {
        Ok(plan) => {
            &&& paired
            &&& ranks
            &&& plan.kernel matches Kernel::Rope { sequence_dim: planned }
            &&& planned == sequence_dim
            &&& one_thread_each(plan.launch, product(input.shape@) as int)
            &&& writes_alike(plan, input)
        },
        Err(Rejection::DeviceMismatch) => input.device != frequencies.device,
        Err(Rejection::DTypeMismatch) => input.device == frequencies.device && input.dtype
            != frequencies.dtype,
        Err(Rejection::WrongRank) => paired && !ranks,
        Err(Rejection::TooLarge) => paired && ranks && is_large(input.shape@, input.dtype),
        Err(_) => false,
    }
}

proof fn lemma_rotation(
    answer: Result<Plan, Rejection>,
    input: TensorInfo,
    frequencies: TensorInfo,
    sequence_dim: u32,
)
    requires
        rope_planned(answer, input, frequencies, sequence_dim),
    ensures
        rotation_served(answer, input, frequencies, sequence_dim as int),
{
    match answer {
        Ok(plan) => {
            lemma_elements_have_threads(product(input.shape@) as int, plan.launch);
        },
        Err(_) => {
            if !is_large(input.shape@, input.dtype) {
                lemma_small_tensors_fit(input.shape@, input.dtype);
            }
        },
    }
}

/// Rotation by the fused kernel goes by the dimension that the caller gave.
pub proof fn lemma_fused_rope(
    input: TensorInfo,
    frequencies: TensorInfo,
    sequence_dim: u32,
    answer: Result<Plan, Rejection>,
)
    requires
        call_ensures(CubeBackend::fused_rope, (&input, &frequencies, sequence_dim), answer),
    ensures
        rotation_served(answer, input, frequencies, sequence_dim as int),
{
    lemma_rotation(answer, input, frequencies, sequence_dim);
}

/// Rotation goes by the dimension that the caller gave, which has to be the second or the third.
pub proof fn lemma_apply_rope(
    input: TensorInfo,
    frequencies: TensorInfo,
    sequence_dim: usize,
    answer: Result<Plan, Rejection>,
)
    requires
        call_ensures(apply_rope, (&input, &frequencies, sequence_dim), answer),
    ensures
        if sequence_dim == 1 || sequence_dim == 2 {
            rotation_served(answer, input, frequencies, sequence_dim as int)
        } else {
            answer == Err::<Plan, Rejection>(Rejection::BadParameter)
        },
{
    if sequence_dim == 1 || sequence_dim == 2 {
        lemma_rotation(answer, input, frequencies, sequence_dim as u32);
    }
}

/// The element at `(batch, dim1, dim2, feature)` has a thread of the planned launch, which reads the
/// pair that the feature belongs to and the cosine and sine of the element's position: its second
/// coordinate where positions are counted along the second dimension, its third where along the third.
pub proof fn lemma_element_rotated(
    input: TensorInfo,
    frequencies: TensorInfo,
    sequence_dim: usize,
    plan: Plan,
    batch: int,
    dim1: int,
    dim2: int,
    feature: int,
    planned: u32,
    index: usize,
    unit: Option<RopeUnit>,
)
    requires
        call_ensures(
            apply_rope,
            (&input, &frequencies, sequence_dim),
            Ok::<Plan, Rejection>(plan),
        ),
        0 <= batch < input.shape@[0],
        0 <= dim1 < input.shape@[1],
        0 <= dim2 < input.shape@[2],
        0 <= feature < input.shape@[3],
        product(input.shape@) <= 256 * 0xffff_ffff,
        plan.kernel == (Kernel::Rope { sequence_dim: planned }),
        index == ((batch * input.shape@[1] + dim1) * input.shape@[2] + dim2) * input.shape@[3]
            + feature,
        call_ensures(
            rope_unit,
            (index, product(input.shape@) as usize, &input, &frequencies, planned),
            unit,
        ),
    ensures
        has_thread(plan.launch, index as int),
        ({
            let position = if sequence_dim == 1 {
                dim1
            } else {
                dim2
            };
            let (s, t) = (input.strides@, frequencies.strides@);
            let row = batch * s[0] + dim1 * s[1] + dim2 * s[2];
            &&& unit matches Some(unit)
            &&& unit.even == row + (feature - feature % 2) * s[3]
            &&& unit.odd == row + (feature - feature % 2 + 1) * s[3]
            &&& unit.cosine == position * t[0] + feature * t[1]
            &&& unit.sine == position * t[0] + feature * t[1] + t[2]
            &&& unit.first == (feature % 2 == 0)
        }),
{
    lemma_rotation(Ok(plan), input, frequencies, sequence_dim as u32);
    let shape = input.shape@;
    let (d1, d2, d3) = (shape[1] as int, shape[2] as int, shape[3] as int);
    lemma_created_is_counted(shape, input.dtype);
    lemma_elements_of_four(shape);
    lemma_pair_bound(batch, shape[0] as int, d1, dim1);
    lemma_pair_bound(batch * d1 + dim1, shape[0] * d1, d2, dim2);
    lemma_pair_bound((batch * d1 + dim1) * d2 + dim2, shape[0] * d1 * d2, d3, feature);
    lemma_pair((batch * d1 + dim1) * d2 + dim2, d3, feature);
    lemma_pair(batch * d1 + dim1, d2, dim2);
    lemma_pair(batch, d1, dim1);
    lemma_coords4(shape, index as int);
    assert(coords4(shape, index as int) == (batch, dim1, dim2, feature));
    assert(has_thread(plan.launch, index as int));
    let t = frequencies.strides@;
    assert(0 * t[2] == 0 && 1 * t[2] == t[2]) by (nonlinear_arith);
}

} // verus!
