//! Conversion of a weight to four-bit blocks one column wide.

use vstd::prelude::*;

use crate::reject::Rejection;
use crate::scheme::{dtypes_equal, is_q4_k_block, q4_block, same_dtype, DType, QuantScheme};
use crate::shape::{copied, lemma_pair, lemma_pair_bound, lemma_split, low_word, truncate};
use crate::tensor::{at2, elemwise, elemwise_launch, Launch, TensorInfo};

verus! {

/// Which kernel quantizes a tensor.
#[derive(Clone, Copy, Debug, PartialEq, Eq, Structural)]
pub enum QuantizeKernel {
    /// The kernel for four-bit blocks one column wide, with one thread per packed word.
    Q4KBlock {
        /// The launch.
        launch: Launch,
        /// Columns of the weight, as the kernel gets them.
        output_width: u32,
        /// Rows of a block, as the kernel gets them.
        block_size: u32,
    },
    /// The kernel for all other schemes.
    Generic,
}

/// The quantized tensor that a kernel fills. How its parts lie in memory is up to the device.
#[derive(Clone, Debug, PartialEq, Eq)]
pub struct QuantizedOutput {
    /// The device that holds it.
    pub device: u64,
    /// Its element type.
    pub dtype: DType,
    /// Its dimensions.
    pub shape: Vec<usize>,
}

/// How a tensor is quantized.
#[derive(Clone, Debug, PartialEq, Eq)]
pub struct QuantizePlan {
    /// The tensor that is filled.
    pub output: QuantizedOutput,
    /// The kernel that fills it.
    pub kernel: QuantizeKernel,
}

/// Which kernel quantizes a tensor, or why none does. The four-bit kernel goes by the first two
/// dimensions.
pub open spec fn quantize_kernel(
    tensor: TensorInfo,
    scheme: QuantScheme,
    scale: TensorInfo,
) -> Result<QuantizeKernel, Rejection> {
    match q4_block(scheme) {
        None => Ok(QuantizeKernel::Generic),
        Some(block) => {
            let rows = tensor.shape@[0] as int;
            let columns = tensor.shape@[1] as int;
            if tensor.shape@.len() < 2 {
                Err(Rejection::WrongRank)
            } else if rows % block as int != 0 || columns % 8 != 0 {
                Err(Rejection::Misaligned)
            } else if !same_dtype(scale.dtype, tensor.dtype) {
                Err(Rejection::DTypeMismatch)
            } else if rows * columns > usize::MAX {
                Err(Rejection::TooLarge)
            } else {
                Ok(
                    QuantizeKernel::Q4KBlock {
                        launch: elemwise(rows * columns / 8),
                        output_width: low_word(columns) as u32,
                        block_size: low_word(block as int) as u32,
                    },
                )
            }
        },
    }
}

impl QuantizePlan {
    /// The plan fills a tensor of the same shape, with elements of this scheme.
    pub open spec fn fills(self, tensor: TensorInfo, scheme: QuantScheme) -> bool {
        &&& self.output.device == tensor.device
        &&& self.output.dtype == DType::QFloat(scheme)
        &&& self.output.shape@ == tensor.shape@
    }
}

/// Plans the conversion of a tensor by a scheme and its scales.
pub fn quantize(tensor: &TensorInfo, scheme: &QuantScheme, scale: &TensorInfo) -> (plan: Result<
    QuantizePlan,
    Rejection,
>)
    ensures
        match plan {
            Ok(plan) => quantize_kernel(*tensor, *scheme, *scale) == Ok::<QuantizeKernel, Rejection>(
                plan.kernel,
            ) && plan.fills(*tensor, *scheme),
            Err(reason) => quantize_kernel(*tensor, *scheme, *scale) == Err::<
                QuantizeKernel,
                Rejection,
            >(reason),
        },
{
    let output = QuantizedOutput {
        device: tensor.device,
        dtype: DType::QFloat(*scheme),
        shape: copied(&tensor.shape),
    };
    match is_q4_k_block(scheme) {
        None => Ok(QuantizePlan { output, kernel: QuantizeKernel::Generic }),
        Some(block_size) => {
            if tensor.shape.len() < 2 {
                return Err(Rejection::WrongRank);
            }
            let input_width: usize = tensor.shape[0];
            let output_width: usize = tensor.shape[1];
            if input_width % block_size != 0 || output_width % 8 != 0 {
                return Err(Rejection::Misaligned);
            }
            if !dtypes_equal(&scale.dtype, &tensor.dtype) {
                return Err(Rejection::DTypeMismatch);
            }
            match input_width.checked_mul(output_width) {
                Some(count) => {
                    let kernel = QuantizeKernel::Q4KBlock {
                        launch: elemwise_launch(count / 8),
                        output_width: truncate(output_width),
                        block_size: truncate(block_size),
                    };
                    Ok(QuantizePlan { output, kernel })
                },
                None => Err(Rejection::TooLarge),
            }
        },
    }
}

/// What one thread of the four-bit kernel reads and writes.
#[derive(Clone, Debug, PartialEq, Eq)]
pub struct PackUnit {
    /// Addresses of the eight inputs, lowest nibble first.
    pub inputs: Vec<usize>,
    /// Addresses of their scales.
    pub scales: Vec<usize>,
    /// Addresses that the eight scales are copied to, in the thread that has the first row of a
    /// block; empty in the others.
    pub scale_copies: Vec<usize>,
    /// Address of the word.
    pub word: usize,
}

/// A weight of `rows` by `columns` in blocks of `block` rows has words and scales of these shapes.
pub open spec fn q4_parts(
    values: TensorInfo,
    scales: TensorInfo,
    rows: int,
    columns: int,
    block: int,
) -> bool {
    &&& 0 < block
    &&& rows % block == 0
    &&& values.addressable()
    &&& values.leads_with(0, 0)
    &&& values.shape@[0] == rows
    &&& values.shape@[1] == columns / 8
    &&& scales.addressable()
    &&& scales.leads_with(0, 0)
    &&& scales.shape@[0] == rows / block
    &&& scales.shape@[1] == columns
}

impl PackUnit {
    /// The thread packs columns `8 * word_column ..` of a row.
    pub open spec fn packs(
        self,
        row: int,
        word_column: int,
        block: int,
        input: TensorInfo,
        scales: TensorInfo,
        values_out: TensorInfo,
        scales_out: TensorInfo,
    ) -> bool {
        &&& self.word == at2(values_out.strides@, row, word_column)
        &&& self.inputs@.len() == 8
        &&& self.scales@.len() == 8
        &&& self.scale_copies@.len() == if row % block == 0 {
            8int
        } else {
            0
        }
        &&& forall|k: int|
            0 <= k < 8 ==> #[trigger] self.inputs@[k] == at2(input.strides@, row, 8 * word_column + k)
        &&& forall|k: int|
            0 <= k < 8 ==> #[trigger] self.scales@[k] == at2(
                scales.strides@,
                row / block,
                8 * word_column + k,
            )
        &&& forall|k: int|
            0 <= k < self.scale_copies@.len() ==> #[trigger] self.scale_copies@[k] == at2(
                scales_out.strides@,
                row / block,
                8 * word_column + k,
            )
    }
}

/// What thread `packed_index` of the four-bit kernel does for the first `rows` and `columns` of the
/// first two dimensions; `None` past the last of `word_count` words. Only threads whose row lies in
/// the tensor are described: where a tensor has more dimensions and thus more words than its first
/// two hold, the launch ends with threads that go past them.
pub fn quantize_q4_k_block_unit(
    packed_index: usize,
    word_count: usize,
    rows: usize,
    columns: usize,
    input: &TensorInfo,
    scales: &TensorInfo,
    values_out: &TensorInfo,
    scales_out: &TensorInfo,
    block_size: usize,
) -> (unit: Option<PackUnit>)
    requires
        0 < block_size,
        rows as int % block_size as int == 0,
        columns % 8 == 0,
        packed_index < word_count ==> packed_index < rows * (columns as int / 8),
        input.addressable() && input.leads_with(rows as int, columns as int),
        scales.addressable() && scales.leads_with(
            rows as int / block_size as int,
            columns as int,
        ),
        values_out.addressable() && values_out.leads_with(rows as int, columns as int / 8),
        scales_out.addressable() && scales_out.leads_with(
            rows as int / block_size as int,
            columns as int,
        ),
    ensures
        ({
            let width = columns as int / 8;
            match unit {
                None => packed_index >= word_count,
                Some(unit) => packed_index < word_count && unit.packs(
                    packed_index as int / width,
                    packed_index as int % width,
                    block_size as int,
                    *input,
                    *scales,
                    *values_out,
                    *scales_out,
                ),
            }
        }),
{
    if packed_index >= word_count {
        return None;
    }
    let packed_width: usize = columns / 8;
    assert(packed_width > 0) by (nonlinear_arith)
        requires
            packed_index < rows * packed_width,
            packed_index >= 0,
    ;
    let input_row: usize = packed_index / packed_width;
    let packed_column: usize = packed_index % packed_width;
    let scale_row: usize = input_row / block_size;
    proof {
        lemma_split(packed_index as int, rows as int, packed_width as int);
        let (n, b) = (rows as int, block_size as int);
        vstd::arithmetic::div_mod::lemma_fundamental_div_mod(n, b);
        assert(n == (n / b) * b) by (nonlinear_arith)
            requires
                n == b * (n / b) + n % b,
                n % b == 0,
        ;
        lemma_split(input_row as int, n / b, b);
    }
    let copies = input_row % block_size == 0;
    let mut unit = PackUnit {
        inputs: Vec::new(),
        scales: Vec::new(),
        scale_copies: Vec::new(),
        word: values_out.at2(input_row, packed_column),
    };
    let mut offset: usize = 0;
    while offset < 8
        invariant
            offset <= 8,
            input.addressable(),
            input.leads_with(rows as int, columns as int),
            scales.addressable(),
            scales.leads_with(rows as int / block_size as int, columns as int),
            scales_out.addressable(),
            scales_out.leads_with(rows as int / block_size as int, columns as int),
            columns == packed_width * 8,
            input_row < rows,
            packed_column < packed_width,
            scale_row == input_row as int / block_size as int,
            scale_row < rows as int / block_size as int,
            copies == (input_row as int % block_size as int == 0),
            unit.word == at2(values_out.strides@, input_row as int, packed_column as int),
            unit.inputs@.len() == offset,
            unit.scales@.len() == offset,
            unit.scale_copies@.len() == if copies {
                offset as int
            } else {
                0
            },
            forall|k: int|
                0 <= k < offset ==> #[trigger] unit.inputs@[k] == at2(
                    input.strides@,
                    input_row as int,
                    8 * packed_column + k,
                ),
            forall|k: int|
                0 <= k < offset ==> #[trigger] unit.scales@[k] == at2(
                    scales.strides@,
                    scale_row as int,
                    8 * packed_column + k,
                ),
            forall|k: int|
                0 <= k < unit.scale_copies@.len() ==> #[trigger] unit.scale_copies@[k] == at2(
                    scales_out.strides@,
                    scale_row as int,
                    8 * packed_column + k,
                ),
        decreases 8 - offset,
    {
        let column: usize = packed_column * 8 + offset;
        unit.inputs.push(input.at2(input_row, column));
        unit.scales.push(scales.at2(scale_row, column));
        if copies {
            unit.scale_copies.push(scales_out.at2(scale_row, column));
        }
        offset = offset + 1;
    }
    Some(unit)
}

/// Every element has one place: the thread of row `row` and word column `column / 8` packs it, and
/// no other thread does.
pub proof fn lemma_every_element_packed_once(rows: int, columns: int, row: int, column: int)
    requires
        columns % 8 == 0,
        0 <= row < rows,
        0 <= column < columns,
    ensures
        ({
            let width = columns / 8;
            let unit = row * width + column / 8;
            &&& 0 <= unit < rows * width
            &&& unit / width == row
            &&& 8 * (unit % width) + column % 8 == column
            &&& forall|other: int, k: int|
                #![trigger other / width, 8 * (other % width) + k]
                0 <= other < rows * width && 0 <= k < 8 && other / width == row && 8 * (other % width)
                    + k == column ==> other == unit && k == column % 8
        }),
{
    let width = columns / 8;
    lemma_pair(row, width, column / 8);
    lemma_pair_bound(row, rows, width, column / 8);
    assert forall|other: int, k: int|
        #![trigger other / width, 8 * (other % width) + k]
        0 <= other < rows * width && 0 <= k < 8 && other / width == row && 8 * (other % width) + k
            == column implies other == row * width + column / 8 && k == column % 8 by {
        lemma_split(other, rows, width);
    }
}

/// Every scale is copied: the thread that has the first row of a block and the word of a column
/// copies the scale of that block and column.
pub proof fn lemma_every_scale_copied(
    rows: int,
    columns: int,
    block: int,
    scale_row: int,
    column: int,
)
    requires
        0 < block,
        rows % block == 0,
        columns % 8 == 0,
        0 <= scale_row < rows / block,
        0 <= column < columns,
    ensures
        ({
            let width = columns / 8;
            let unit = scale_row * block * width + column / 8;
            &&& 0 <= unit < rows * width
            &&& (unit / width) % block == 0
            &&& (unit / width) / block == scale_row
            &&& 8 * (unit % width) + column % 8 == column
        }),
{
    let row = scale_row * block;
    vstd::arithmetic::div_mod::lemma_fundamental_div_mod(rows, block);
    assert(rows == (rows / block) * block) by (nonlinear_arith)
        requires
            rows == block * (rows / block) + rows % block,
            rows % block == 0,
    ;
    lemma_pair(scale_row, block, 0);
    lemma_pair_bound(scale_row, rows / block, block, 0);
    lemma_every_element_packed_once(rows, columns, row, column);
}

} // verus!
