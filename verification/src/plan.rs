//! Plans of fused operations: which kernel runs, how it is launched and what it writes.

use vstd::prelude::*;

use crate::reject::Rejection;
use crate::scheme::{DType, QuantScheme};
use crate::tensor::{allocatable, allocate, Allocation, Launch, QuantTensor, TensorInfo};

verus! {

/// A kernel and its scalar arguments. Real numbers are given as bit patterns.
#[derive(Clone, Copy, Debug, PartialEq, Eq, Structural)]
pub enum Kernel {
    /// RMS normalization of rows.
    RmsNorm {
        /// Added to the mean square.
        epsilon: u32,
    },
    /// `silu(input) * gate`, element by element.
    SiluMul,
    /// Rotary position embeddings.
    Rope {
        /// The dimension that counts positions.
        sequence_dim: u32,
    },
    /// Attention of one query head over a short context.
    AttentionShort,
    /// Attention of one query head over an eighth of a long context.
    AttentionPartial,
    /// Merge of the eighths.
    AttentionMerge,
    /// Matrix-vector product.
    Gemv {
        /// Columns to compute.
        output_width: u32,
    },
    /// Matrix-vector product with a bias.
    GemvBias,
    /// Matrix-vector product with eight-bit weights.
    Q8Gemv {
        /// Columns to compute.
        output_width: u32,
        /// Columns per scale.
        block_size: u32,
    },
    /// Matrix-vector product with eight-bit weights and a bias.
    Q8GemvBias {
        /// Columns to compute.
        output_width: u32,
        /// Columns per scale.
        block_size: u32,
    },
    /// Matrix-vector product with four-bit weights.
    Q4Gemv {
        /// Columns to compute.
        output_width: u32,
        /// Rows per scale.
        block_size: u32,
    },
    /// Matrix-vector product with four-bit weights and a bias.
    Q4GemvBias {
        /// Columns to compute.
        output_width: u32,
        /// Rows per scale.
        block_size: u32,
    },
    /// Rows of a four-bit table, one per index.
    Q4Embedding {
        /// Columns of the table.
        hidden_width: u32,
    },
    /// One row of a four-bit table.
    Q4EmbeddingRow {
        /// The row.
        row: u32,
    },
    /// Products with a range of rows of a four-bit table and one more row.
    Q4EmbeddingProjection {
        /// First row of the range.
        semantic_start: u32,
        /// Rows in the range.
        semantic_rows: u32,
        /// The row after the range.
        eos_row: u32,
    },
    /// Sampling of one token.
    SampleTopk {
        /// Divides the logits.
        temperature: u32,
        /// Largest cumulative probability.
        top_p: u32,
        /// Most candidates.
        top_k: u32,
        /// Candidates that are sorted, padding included.
        sort_capacity: u32,
    },
}

/// The kernel reads operand `operand` by row-major address, so that the operand must have no gaps.
/// Operands are counted in the order in which the kernel takes them.
pub open spec fn reads_in_order(kernel: Kernel, operand: int) -> bool {
    match kernel {
        Kernel::RmsNorm { .. } | Kernel::SiluMul | Kernel::Gemv { .. } => operand == 0 || operand
            == 1,
        Kernel::GemvBias | Kernel::SampleTopk { .. } => operand == 0 || operand == 1 || operand
            == 2,
        Kernel::Q8Gemv { .. } | Kernel::Q4Gemv { .. } | Kernel::Q4EmbeddingProjection { .. } =>
            operand == 0,
        Kernel::Q8GemvBias { .. } | Kernel::Q4GemvBias { .. } => operand == 0 || operand == 3,
        Kernel::Q4Embedding { .. } => operand == 2,
        Kernel::Rope { .. } | Kernel::AttentionShort | Kernel::AttentionPartial
        | Kernel::AttentionMerge | Kernel::Q4EmbeddingRow { .. } => false,
    }
}

impl Kernel {
    /// Whether an operand must have no gaps.
    pub fn needs_contiguous(&self, operand: usize) -> (result: bool)
        ensures
            result == reads_in_order(*self, operand as int),
    {
        match self {
            Kernel::RmsNorm { .. } | Kernel::SiluMul | Kernel::Gemv { .. } => operand <= 1,
            Kernel::GemvBias | Kernel::SampleTopk { .. } => operand <= 2,
            Kernel::Q8Gemv { .. } | Kernel::Q4Gemv { .. } | Kernel::Q4EmbeddingProjection { .. } =>
                operand == 0,
            Kernel::Q8GemvBias { .. } | Kernel::Q4GemvBias { .. } => operand == 0 || operand == 3,
            Kernel::Q4Embedding { .. } => operand == 2,
            Kernel::Rope { .. } | Kernel::AttentionShort | Kernel::AttentionPartial
            | Kernel::AttentionMerge | Kernel::Q4EmbeddingRow { .. } => false,
        }
    }
}

/// One kernel launch and the tensor that it writes.
#[derive(Clone, Debug, PartialEq, Eq)]
pub struct Plan {
    /// The kernel.
    pub kernel: Kernel,
    /// Its launch.
    pub launch: Launch,
    /// The tensor that it writes.
    pub output: Allocation,
}

/// How attention is computed.
#[derive(Clone, Debug, PartialEq, Eq)]
pub enum AttentionPlan {
    /// In one kernel.
    Short(Plan),
    /// In shards, which a second kernel merges.
    Long {
        /// Computes the shards.
        partial: Plan,
        /// Merges them.
        merge: Plan,
    },
}

/// `result` is the reason for a refusal, where there is one, and else the plan with these parts.
pub open spec fn planned(
    result: Result<Plan, Rejection>,
    rejection: Option<Rejection>,
    kernel: Kernel,
    launch: Launch,
    device: u64,
    dtype: DType,
    shape: Seq<usize>,
) -> bool {
    match result {
        Err(reason) => rejection == Some(reason),
        Ok(plan) => rejection is None && plan.kernel == kernel && plan.launch == launch
            && plan.output.is_for(device, dtype, shape),
    }
}

/// Plans one kernel that writes a new tensor.
pub fn plan_kernel(
    kernel: Kernel,
    launch: Launch,
    device: u64,
    dtype: &DType,
    shape: Vec<usize>,
) -> (plan: Result<Plan, Rejection>)
    ensures
        planned(
            plan,
            if allocatable(shape@, *dtype) {
                None
            } else {
                Some(Rejection::TooLarge)
            },
            kernel,
            launch,
            device,
            *dtype,
            shape@,
        ),
{
    match allocate(device, dtype, shape) {
        Some(output) => Ok(Plan { kernel, launch, output }),
        None => Err(Rejection::TooLarge),
    }
}

/// The first reason, or else the second.
pub open spec fn first_of(first: Option<Rejection>, second: Option<Rejection>) -> Option<Rejection> {
    if first is Some {
        first
    } else {
        second
    }
}

/// A reason that holds under a condition.
pub open spec fn reason_if(condition: bool, reason: Rejection) -> Option<Rejection> {
    if condition {
        Some(reason)
    } else {
        None
    }
}

/// The first two dimensions of the packed values or the scales of a tensor are not these.
pub open spec fn dims_differ(tensor: TensorInfo, first: int, second: int) -> bool {
    !(tensor.shape@.len() >= 2 && tensor.shape@[0] == first && tensor.shape@[1] == second)
}

/// Whether the first two dimensions of a tensor are not these.
pub fn have_other_dims(tensor: &TensorInfo, first: usize, second: usize) -> (result: bool)
    ensures
        result == dims_differ(*tensor, first as int, second as int),
{
    !(tensor.shape.len() >= 2 && tensor.shape[0] == first && tensor.shape[1] == second)
}

/// Why the parts of a quantized tensor cannot be read: they are missing, their first two dimensions
/// differ from these or, where `typed`, their element types are not words and single-precision numbers.
pub open spec fn parts_rejection(
    tensor: QuantTensor,
    typed: bool,
    values: (int, int),
    scales: (int, int),
) -> Option<Rejection> {
    match tensor.parts {
        None => Some(Rejection::MissingParts),
        Some(parts) => reason_if(
            (typed && !(parts.values.dtype is U32)) || dims_differ(
                parts.values,
                values.0,
                values.1,
            ) || (typed && !(parts.scales.dtype is F32)) || dims_differ(
                parts.scales,
                scales.0,
                scales.1,
            ),
            Rejection::WrongParts,
        ),
    }
}

/// Checks the parts of a quantized tensor.
pub fn check_parts(
    tensor: &QuantTensor,
    typed: bool,
    values: (usize, usize),
    scales: (usize, usize),
) -> (rejection: Option<Rejection>)
    ensures
        rejection == parts_rejection(
            *tensor,
            typed,
            (values.0 as int, values.1 as int),
            (scales.0 as int, scales.1 as int),
        ),
{
    match &tensor.parts {
        None => Some(Rejection::MissingParts),
        Some(parts) => {
            let words = matches!(parts.values.dtype, DType::U32);
            let reals = matches!(parts.scales.dtype, DType::F32);
            if (typed && !words) || have_other_dims(&parts.values, values.0, values.1) || (typed
                && !reals) || have_other_dims(&parts.scales, scales.0, scales.1) {
                Some(Rejection::WrongParts)
            } else {
                None
            }
        },
    }
}

/// The quantization scheme of a tensor.
pub open spec fn scheme_of(tensor: TensorInfo) -> Option<QuantScheme> {
    match tensor.dtype {
        DType::QFloat(scheme) => Some(scheme),
        _ => None,
    }
}

} // verus!
