//! Reasons for which an operation is refused.

use vstd::prelude::*;

verus! {

/// Why an operation does not accept its operands.
#[derive(Clone, Copy, Debug, PartialEq, Eq, Structural)]
pub enum Rejection {
    /// Operands live on different devices.
    DeviceMismatch,
    /// Operands differ in element type.
    DTypeMismatch,
    /// An operand has an element type that the operation does not read.
    WrongDType,
    /// An operand has the wrong number of dimensions.
    WrongRank,
    /// Dimensions of the operands do not agree.
    ShapeMismatch,
    /// A dimension that must hold something is empty.
    EmptyDimension,
    /// A width, row or count lies outside the tensor.
    OutOfRange,
    /// A dimension is not a multiple of what the kernel processes at once.
    Misaligned,
    /// The weight is not quantized.
    NotQuantized,
    /// The kernel does not support the quantization scheme.
    UnsupportedScheme,
    /// The quantized tensor carries no packed values and scales.
    MissingParts,
    /// Packed values or scales have the wrong element type or dimensions.
    WrongParts,
    /// A scalar argument is outside the range that the operation is defined on.
    BadParameter,
    /// A count does not fit the machine or the kernel.
    TooLarge,
    /// A quantization block has an empty dimension.
    ZeroBlock,
    /// A dimension is not evenly divided by the block.
    UnevenBlock,
    /// Two-level quantization is not supported.
    TwoLevel,
}

} // verus!
