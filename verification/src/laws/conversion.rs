//! Quantization and expansion: which value goes where, with which scale.

use vstd::prelude::*;

use crate::bits::{is_nan, magnitude_bits, scaled_magnitude, SIGN_BIT};
use crate::dequantize::{
    dequantize, dequantize_q4_k_block_unit, expanded_quant, DequantizePlan, ExpandUnit,
};
use crate::laws::counts::{
    has_room, has_thread, is_large, lemma_created_is_counted, lemma_elements_have_threads,
    lemma_small_tensors_fit, one_thread_each,
};
use crate::laws::schemes::{lemma_q4_block, q4_in_columns};
use crate::packing::{
    clamp_q4, is_whole, lemma_clamped_value, lemma_clamped_whole, lemma_q4_word_determined, pack_q4,
    scaled_one, unpack_q4, unpack_q8,
};
use crate::quantize::{
    quantize, quantize_q4_k_block_unit, PackUnit, QuantizeKernel, QuantizePlan,
};
use crate::reject::Rejection;
use crate::scheme::{DType, QuantScheme, QuantStore};
use crate::shape::{lemma_pair, lemma_pair_bound, lemma_split, product};
use crate::tensor::{row_major, QuantTensor, TensorInfo};

verus! {

/// A weight is quantized to a tensor of its own device and shape, with elements of the scheme: by the
/// four-bit kernel with the scheme's block and a thread for each word of eight columns, or by the general
/// kernel where the scheme is another. It is refused for these reasons only.
pub open spec fn quantization_served(
    answer: Result<QuantizePlan, Rejection>,
    tensor: TensorInfo,
    scheme: QuantScheme,
    scale: TensorInfo,
) -> bool {
    let shape = tensor.shape@;
    let (rows, columns) = (shape[0] as int, shape[1] as int);
    match answer {
        Ok(plan) => {
            &&& plan.output.device == tensor.device
            &&& plan.output.dtype == DType::QFloat(scheme)
            &&& plan.output.shape@ == shape
            &&& match plan.kernel {
                QuantizeKernel::Q4KBlock { launch, output_width, block_size } => {
                    &&& q4_in_columns(scheme, block_size as int)
                    &&& shape.len() >= 2
                    &&& rows % block_size as int == 0
                    &&& columns % 8 == 0
                    &&& tensor.dtype is QFloat || tensor.dtype == scale.dtype
                    &&& output_width == columns % 0x1_0000_0000
                    &&& columns <= u32::MAX ==> output_width == columns
                    &&& one_thread_each(launch, rows * (columns / 8))
                },
                QuantizeKernel::Generic => forall|block: int|
                    !#[trigger] q4_in_columns(scheme, block),
            }
        },
        Err(reason) => {
            &&& exists|block: int| #[trigger]
                q4_in_columns(scheme, block) && match reason {
                    Rejection::WrongRank => shape.len() < 2,
                    Rejection::Misaligned => shape.len() >= 2 && (rows % block != 0 || columns % 8
                        != 0),
                    Rejection::DTypeMismatch => shape.len() >= 2 && rows % block == 0 && columns % 8
                        == 0 && tensor.dtype != scale.dtype,
                    Rejection::TooLarge => shape.len() >= 2 && rows % block == 0 && columns % 8 == 0
                        && (tensor.dtype is QFloat || tensor.dtype == scale.dtype) && rows * columns
                        > usize::MAX,
                    _ => false,
                }
        },
    }
}

/// Quantization goes by the scheme that it is given.
pub proof fn lemma_quantize(
    tensor: TensorInfo,
    scheme: QuantScheme,
    scale: TensorInfo,
    answer: Result<QuantizePlan, Rejection>,
)
    requires
        call_ensures(quantize, (&tensor, &scheme, &scale), answer),
    ensures
        quantization_served(answer, tensor, scheme, scale),
{
    match crate::scheme::q4_block(scheme) {
        None => {
            assert forall|block: int| !#[trigger] q4_in_columns(scheme, block) by {
                lemma_q4_block(scheme, block);
            }
        },
        Some(b) => {
            let block = b as int;
            lemma_q4_block(scheme, block);
            assert(q4_in_columns(scheme, block));
            if let Ok(plan) = answer {
                let (rows, columns) = (tensor.shape@[0] as int, tensor.shape@[1] as int);
                vstd::arithmetic::div_mod::lemma_small_mod(block as nat, 0x1_0000_0000);
                if columns <= u32::MAX {
                    vstd::arithmetic::div_mod::lemma_small_mod(columns as nat, 0x1_0000_0000);
                }
                let words = rows * (columns / 8);
                assert(rows * columns == words * 8) by (nonlinear_arith)
                    requires
                        columns == 8 * (columns / 8),
                        words == rows * (columns / 8),
                ;
                lemma_pair(words, 8, 0);
                if let QuantizeKernel::Q4KBlock { launch, output_width, block_size } = plan.kernel {
                    lemma_elements_have_threads(words, launch);
                }
            }
        },
    }
}

/// Every element of a weight is packed by a thread of the planned launch, run with the plan's own
/// arguments: it is divided by the scale of its column and of the block of rows that its row lies in,
/// and goes to its place in the word of its eight columns. The thread with the first row of a block
/// copies that scale.
pub proof fn lemma_element_quantized(
    tensor: TensorInfo,
    scheme: QuantScheme,
    scale: TensorInfo,
    plan: QuantizePlan,
    launch: crate::tensor::Launch,
    planned_width: u32,
    planned_block: u32,
    block: int,
    row: int,
    column: int,
    index: usize,
    count: usize,
    values_out: TensorInfo,
    scales_out: TensorInfo,
    unit: Option<PackUnit>,
)
    requires
        call_ensures(
            quantize,
            (&tensor, &scheme, &scale),
            Ok::<QuantizePlan, Rejection>(plan),
        ),
        plan.kernel == (QuantizeKernel::Q4KBlock {
            launch,
            output_width: planned_width,
            block_size: planned_block,
        }),
        q4_in_columns(scheme, block),
        tensor.shape@[1] <= u32::MAX,
        0 <= row < tensor.shape@[0],
        0 <= column < tensor.shape@[1],
        tensor.shape@[0] * (tensor.shape@[1] as int / 8) <= 256 * 0xffff_ffff,
        index == row * (tensor.shape@[1] as int / 8) + column / 8,
        index < count,
        call_ensures(
            quantize_q4_k_block_unit,
            (
                index,
                count,
                tensor.shape@[0],
                planned_width as usize,
                &tensor,
                &scale,
                &values_out,
                &scales_out,
                planned_block as usize,
            ),
            unit,
        ),
    ensures
        has_thread(launch, index as int),
        0 <= row / block < tensor.shape@[0] as int / block,
        ({
            let (t, s) = (tensor.strides@, scale.strides@);
            let (v, c) = (values_out.strides@, scales_out.strides@);
            let place = column % 8;
            &&& unit matches Some(unit)
            &&& unit.inputs@.len() == 8 && unit.scales@.len() == 8
            &&& unit.inputs@[place] == row * t[0] + column * t[1]
            &&& unit.scales@[place] == (row / block) * s[0] + column * s[1]
            &&& unit.word == row * v[0] + (column / 8) * v[1]
            &&& row % block == 0 ==> unit.scale_copies@.len() == 8 && unit.scale_copies@[place] == (
            row / block) * c[0] + column * c[1]
            &&& row % block != 0 ==> unit.scale_copies@.len() == 0
        }),
{
    lemma_quantize(tensor, scheme, scale, Ok(plan));
    assert(block == planned_block);
    let (rows, columns) = (tensor.shape@[0] as int, tensor.shape@[1] as int);
    let width = columns / 8;
    lemma_pair(row, width, column / 8);
    lemma_pair_bound(row, rows, width, column / 8);
    assert(has_thread(launch, index as int));
    vstd::arithmetic::div_mod::lemma_fundamental_div_mod(rows, block);
    assert(rows == (rows / block) * block) by (nonlinear_arith)
        requires
            rows == block * (rows / block) + rows % block,
            rows % block == 0,
    ;
    lemma_split(row, rows / block, block);
    assert(8 * (column / 8) + column % 8 == column);
    if let Some(unit) = unit {
        let place = column % 8;
        assert(unit.inputs@[place] == crate::tensor::at2(
            tensor.strides@,
            row,
            8 * (column / 8) + place,
        ));
        assert(unit.scales@[place] == crate::tensor::at2(
            scale.strides@,
            row / block,
            8 * (column / 8) + place,
        ));
        if row % block == 0 {
            assert(unit.scale_copies@[place] == crate::tensor::at2(
                scales_out.strides@,
                row / block,
                8 * (column / 8) + place,
            ));
        }
    }
}

/// A thread past the last word packs nothing.
pub proof fn lemma_no_word_past_the_last(
    index: usize,
    count: usize,
    rows: usize,
    columns: usize,
    input: TensorInfo,
    scales: TensorInfo,
    values_out: TensorInfo,
    scales_out: TensorInfo,
    block: usize,
    unit: Option<PackUnit>,
)
    requires
        call_ensures(
            quantize_q4_k_block_unit,
            (index, count, rows, columns, &input, &scales, &values_out, &scales_out, block),
            unit,
        ),
    ensures
        index >= count <==> unit is None,
{
}

/// Place `k` of a packed word holds the low four bits of value `k`, lowest first.
pub proof fn lemma_packed_places(quants: Vec<i32>, word: u32, k: u32)
    requires
        call_ensures(pack_q4, (&quants,), word),
        k < 8,
    ensures
        ((word >> ((4 * k) as u32)) & 15) == quants@[k as int] as int % 16,
{
    assert(crate::packing::nibble(word, ((k as int) as u32)) == crate::packing::low_nibble(
        quants@[k as int] as int,
    ));
}

/// Reading a place of a packed word gives back the value that was packed there, where four bits hold
/// it.
pub proof fn lemma_packed_read_back(quants: Vec<i32>, word: u32, k: usize, quant: i32)
    requires
        call_ensures(pack_q4, (&quants,), word),
        k < 8,
        -8 <= quants@[k as int] <= 7,
        call_ensures(unpack_q4, (word, k), quant),
    ensures
        quant == quants@[k as int],
{
    assert(crate::packing::nibble(word, ((k as int) as u32)) == crate::packing::low_nibble(
        quants@[k as int] as int,
    ));
}

/// Packing the values that a word holds gives back the word.
pub proof fn lemma_unpacked_packs_back(word: u32, quants: Vec<i32>, again: u32)
    requires
        quants@.len() == 8,
        forall|k: usize| k < 8 ==> call_ensures(unpack_q4, (word, k), #[trigger] quants@[k as int]),
        call_ensures(pack_q4, (&quants,), again),
    ensures
        again == word,
{
    assert forall|k: int| 0 <= k < 8 implies #[trigger] crate::packing::q4_value(again, k)
        == crate::packing::q4_value(word, k) by {
        let place = k as usize;
        assert(call_ensures(unpack_q4, (word, place), quants@[place as int]));
        assert(crate::packing::nibble(again, k as u32) == crate::packing::low_nibble(
            quants@[k] as int,
        ));
    }
    lemma_q4_word_determined(again, word);
}

/// A four-bit place is read as a number in two's complement.
pub proof fn lemma_four_bits_read(word: u32, k: usize, quant: i32)
    requires
        k < 8,
        call_ensures(unpack_q4, (word, k), quant),
    ensures
        -8 <= quant < 8,
        quant as int % 16 == ((word >> ((4 * k) as u32)) & 15),
{
    assert(crate::packing::q4_value(word, k as int) == quant);
    let place: u32 = (k as int) as u32;
    assert((word >> ((4 * place) as u32)) & 15 <= 15) by (bit_vector);
}

/// An eight-bit place is read as a number in two's complement.
pub proof fn lemma_eight_bits_read(word: u32, k: usize, quant: i32)
    requires
        k < 4,
        call_ensures(unpack_q8, (word, k), quant),
    ensures
        -128 <= quant < 128,
        quant as int % 256 == ((word >> ((8 * k) as u32)) & 255),
{
    assert(crate::packing::q8_value(word, k as int) == quant);
    let place: u32 = (k as int) as u32;
    assert((word >> ((8 * place) as u32)) & 255 <= 255) by (bit_vector);
}

/// A rounded quotient that is a whole number between minus and plus seven is kept, and one beyond
/// becomes the nearer end; a NaN has no value.
pub proof fn lemma_quotient_clamped(rounded: u32, n: int, answer: Option<i32>)
    requires
        call_ensures(clamp_q4, (rounded,), answer),
        is_whole(rounded, n),
    ensures
        answer == Some(
            (if n > 7 {
                7
            } else if n < -7 {
                -7
            } else {
                n
            }) as i32,
        ),
{
    lemma_clamped_whole(rounded, n);
}

/// A quotient that is no whole number loses its fraction and keeps its sign; all but a NaN have a
/// value.
pub proof fn lemma_fraction_dropped(rounded: u32, answer: Option<i32>)
    requires
        call_ensures(clamp_q4, (rounded,), answer),
    ensures
        answer is None <==> is_nan(rounded),
        answer matches Some(quant) ==> {
            let size = if quant < 0 {
                -quant
            } else {
                quant as int
            };
            let magnitude = scaled_magnitude(magnitude_bits(rounded));
            &&& 0 <= size <= 7
            &&& quant > 0 ==> rounded < SIGN_BIT
            &&& quant < 0 ==> rounded >= SIGN_BIT
            &&& size * scaled_one() <= magnitude
            &&& size < 7 ==> magnitude < (size + 1) * scaled_one()
        },
{
    if !is_nan(rounded) {
        lemma_clamped_value(rounded);
    }
}

/// The axis that a scheme packs along is not the innermost one; counted from the outermost.
pub open spec fn other_axis(scheme: QuantScheme, rank: int) -> Option<int> {
    match scheme.store {
        QuantStore::PackedU32(dim) | QuantStore::PackedNative(dim) => if dim > 0 {
            Some(rank - 1 - dim)
        } else {
            None
        },
        QuantStore::Native => None,
    }
}

/// `dims` are those of `shape` with `axis` moved to the end.
pub open spec fn axis_moved_last(dims: Seq<usize>, shape: Seq<usize>, axis: int) -> bool {
    &&& dims.len() == shape.len()
    &&& forall|d: int| 0 <= d < axis ==> #[trigger] dims[d] == shape[d]
    &&& forall|d: int| axis <= d < dims.len() - 1 ==> #[trigger] dims[d] == shape[d + 1]
    &&& dims[dims.len() - 1] == shape[axis]
}

/// A tensor is expanded to the type asked for: by the four-bit kernel with the scheme's block and the
/// dimensions of its matrices, or by the general kernel, which works with the packed axis last; a
/// tensor that is not quantized stays as it is. It is refused for these reasons only.
pub open spec fn expansion_served(
    answer: Result<DequantizePlan, Rejection>,
    tensor: QuantTensor,
    dtype: DType,
) -> bool {
    let shape = tensor.info.shape@;
    let rank = shape.len() as int;
    match tensor.info.dtype {
        DType::QFloat(scheme) => match answer {
            Ok(DequantizePlan::Unchanged) => false,
            Ok(
                DequantizePlan::Q4KBlock { output, launch, input_width, output_width, block_size },
            ) => {
                &&& q4_in_columns(scheme, block_size as int)
                &&& rank >= 2
                &&& shape[rank - 2] as int % block_size as int == 0
                &&& shape[rank - 1] % 8 == 0
                &&& tensor.parts is Some
                &&& input_width == shape[rank - 2] as int % 0x1_0000_0000
                &&& output_width == shape[rank - 1] as int % 0x1_0000_0000
                &&& shape[rank - 2] <= u32::MAX ==> input_width == shape[rank - 2]
                &&& shape[rank - 1] <= u32::MAX ==> output_width == shape[rank - 1]
                &&& one_thread_each(launch, product(shape) as int)
                &&& output.tensor.device == tensor.info.device
                &&& output.tensor.dtype == dtype
                &&& output.tensor.shape@ == shape
                &&& row_major(output.tensor.strides@, shape)
                &&& has_room(output)
            },
            Ok(DequantizePlan::Generic { swaps, output, inverse_axes }) => {
                &&& forall|block: int| !#[trigger] q4_in_columns(scheme, block)
                &&& tensor.parts is Some
                &&& output.tensor.device == tensor.info.device
                &&& output.tensor.dtype == dtype
                &&& row_major(output.tensor.strides@, output.tensor.shape@)
                &&& has_room(output)
                &&& match other_axis(scheme, rank) {
                    None => {
                        &&& output.tensor.shape@ == shape
                        &&& swaps@.len() == 0
                        &&& inverse_axes is None
                    },
                    Some(axis) => {
                        &&& 0 <= axis < rank
                        &&& axis_moved_last(output.tensor.shape@, shape, axis)
                        &&& swaps@.len() == rank - 1 - axis
                        &&& forall|n: int|
                            0 <= n < swaps@.len() ==> #[trigger] swaps@[n] == axis + n
                        &&& inverse_axes matches Some(inverse) && inverse@.len() == rank && forall|
                            d: int,
                        |
                            0 <= d < rank ==> #[trigger] inverse@[d] == (if d < axis {
                                d
                            } else if d == axis {
                                rank - 1
                            } else {
                                d - 1
                            }) && output.tensor.shape@[inverse@[d] as int] == shape[d]
                    },
                }
            },
            Err(Rejection::WrongRank) => rank < 2 && exists|block: int| #[trigger]
                q4_in_columns(scheme, block),
            Err(Rejection::Misaligned) => exists|block: int| #[trigger]
                q4_in_columns(scheme, block) && rank >= 2 && (shape[rank - 2] as int % block != 0
                    || shape[rank - 1] % 8 != 0),
            Err(Rejection::OutOfRange) => other_axis(scheme, rank) matches Some(axis) && axis < 0,
            Err(Rejection::MissingParts) => tensor.parts is None && (forall|block: int|
                #[trigger]
                q4_in_columns(scheme, block) ==> rank >= 2 && shape[rank - 2] as int % block == 0
                    && shape[rank - 1] % 8 == 0) && (other_axis(scheme, rank) matches Some(axis)
                ==> axis >= 0),
            Err(Rejection::TooLarge) => match other_axis(scheme, rank) {
                None => is_large(shape, dtype),
                Some(axis) => axis >= 0 && forall|dims: Seq<usize>| #[trigger]
                    axis_moved_last(dims, shape, axis) ==> is_large(dims, dtype),
            },
            Err(_) => false,
        },
        _ => answer == Ok::<DequantizePlan, Rejection>(DequantizePlan::Unchanged),
    }
}

/// Expansion goes by the scheme of the tensor.
pub proof fn lemma_dequantize(
    tensor: QuantTensor,
    dtype: DType,
    answer: Result<DequantizePlan, Rejection>,
)
    requires
        call_ensures(dequantize, (&tensor, &dtype), answer),
        tensor.info.shape@.len() <= usize::MAX,
    ensures
        expansion_served(answer, tensor, dtype),
{
    let shape = tensor.info.shape@;
    let rank = shape.len() as int;
    if let DType::QFloat(scheme) = tensor.info.dtype {
        match crate::scheme::q4_block(scheme) {
            None => {
                assert forall|block: int| !#[trigger] q4_in_columns(scheme, block) by {
                    lemma_q4_block(scheme, block);
                }
                lemma_general_expansion(tensor, scheme, dtype, answer);
            },
            Some(b) => {
                lemma_q4_block(scheme, b as int);
                assert(q4_in_columns(scheme, b as int));
                vstd::arithmetic::div_mod::lemma_small_mod(b as nat, 0x1_0000_0000);
                if !is_large(shape, dtype) {
                    lemma_small_tensors_fit(shape, dtype);
                }
                if let Ok(
                    DequantizePlan::Q4KBlock { output, launch, input_width, output_width, block_size },
                ) = answer {
                    let (rows, columns) = (shape[rank - 2] as int, shape[rank - 1] as int);
                    lemma_elements_have_threads(product(shape) as int, launch);
                    if rows <= u32::MAX {
                        vstd::arithmetic::div_mod::lemma_small_mod(rows as nat, 0x1_0000_0000);
                    }
                    if columns <= u32::MAX {
                        vstd::arithmetic::div_mod::lemma_small_mod(columns as nat, 0x1_0000_0000);
                    }
                }
            },
        }
    }
}

// Expansion by the general kernel.
proof fn lemma_general_expansion(
    tensor: QuantTensor,
    scheme: QuantScheme,
    dtype: DType,
    answer: Result<DequantizePlan, Rejection>,
)
    requires
        call_ensures(dequantize, (&tensor, &dtype), answer),
        tensor.info.shape@.len() <= usize::MAX,
        tensor.info.dtype == DType::QFloat(scheme),
        crate::scheme::q4_block(scheme) is None,
        forall|block: int| !#[trigger] q4_in_columns(scheme, block),
    ensures
        expansion_served(answer, tensor, dtype),
{
    let shape = tensor.info.shape@;
    let rank = shape.len() as int;
    let dims = crate::dequantize::kernel_shape(scheme, shape);
    if !is_large(dims, dtype) {
        lemma_small_tensors_fit(dims, dtype);
    }
    if let Some(axis) = other_axis(scheme, rank) {
        assert(crate::dequantize::packed_axis(scheme.store, shape.len()) == Some(axis));
        if axis >= 0 {
            assert(axis_moved_last(dims, shape, axis));
            assert forall|other: Seq<usize>| #[trigger]
                axis_moved_last(other, shape, axis) implies other == dims by {
                assert forall|d: int| 0 <= d < rank implies other[d] == dims[d] by {
                    if axis <= d < rank - 1 {
                        assert(other[d] == shape[d + 1] && dims[d] == shape[d + 1]);
                    }
                }
                assert(other =~= dims);
            }
            if let Ok(DequantizePlan::Generic { swaps, output, inverse_axes }) = answer {
                if let Some(inverse) = inverse_axes {
                    assert forall|d: int| 0 <= d < rank implies #[trigger] inverse@[d] == (if d
                        < axis {
                        d
                    } else if d == axis {
                        rank - 1
                    } else {
                        d - 1
                    }) && output.tensor.shape@[inverse@[d] as int] == shape[d] by {
                        if d > axis {
                            assert(dims[d - 1] == shape[d - 1 + 1]);
                        }
                    }
                }
            }
        }
    } else {
        assert(dims == shape);
    }
}

/// Every element of the expanded tensor has a thread of the planned launch, run with the plan's own
/// arguments: for row `row` and column `column` of matrix `matrix` it reads that element's place in
/// that row's words and the scale of the column and of the block of rows that the row lies in.
pub proof fn lemma_element_expanded(
    tensor: QuantTensor,
    dtype: DType,
    plan: DequantizePlan,
    scheme: QuantScheme,
    output: crate::tensor::Allocation,
    launch: crate::tensor::Launch,
    planned_rows: u32,
    planned_columns: u32,
    planned_block: u32,
    block: int,
    matrix: int,
    row: int,
    column: int,
    index: usize,
    unit: Option<ExpandUnit>,
)
    requires
        call_ensures(dequantize, (&tensor, &dtype), Ok::<DequantizePlan, Rejection>(plan)),
        tensor.info.shape@.len() <= usize::MAX,
        plan == (DequantizePlan::Q4KBlock {
            output,
            launch,
            input_width: planned_rows,
            output_width: planned_columns,
            block_size: planned_block,
        }),
        tensor.info.dtype == DType::QFloat(scheme),
        q4_in_columns(scheme, block),
        ({
            let shape = tensor.info.shape@;
            let (rows, columns) = (shape[shape.len() - 2], shape[shape.len() - 1]);
            &&& rows <= u32::MAX && columns <= u32::MAX
            &&& 0 <= matrix
            &&& 0 <= row < rows
            &&& 0 <= column < columns
            &&& index == (matrix * rows + row) * columns + column
            &&& index < product(shape) <= 256 * 0xffff_ffff
        }),
        call_ensures(
            dequantize_q4_k_block_unit,
            (
                index,
                product(tensor.info.shape@) as usize,
                planned_rows as usize,
                planned_columns as usize,
                planned_block as usize,
            ),
            unit,
        ),
    ensures
        has_thread(launch, index as int),
        ({
            let shape = tensor.info.shape@;
            let (rows, columns) = (
                shape[shape.len() - 2] as int,
                shape[shape.len() - 1] as int,
            );
            &&& unit matches Some(unit)
            &&& unit.word == (matrix * rows + row) * (columns / 8) + column / 8
            &&& unit.place == column % 8
            &&& unit.scale == (matrix * (rows / block) + row / block) * columns + column
        }),
{
    lemma_dequantize(tensor, dtype, Ok(plan));
    let shape = tensor.info.shape@;
    let (rows, columns) = (shape[shape.len() - 2] as int, shape[shape.len() - 1] as int);
    lemma_created_is_counted(shape, dtype);
    assert(block == planned_block);
    lemma_pair(matrix * rows + row, columns, column);
    lemma_pair(matrix, rows, row);
    assert(has_thread(launch, index as int));
}

/// A thread expands the value at its place of its word.
pub proof fn lemma_value_expanded(unit: ExpandUnit, words: Vec<u32>, quant: i32, read: i32)
    requires
        unit.word < words@.len(),
        unit.place < 8,
        call_ensures(expanded_quant, (&unit, &words), quant),
        call_ensures(unpack_q4, (words@[unit.word as int], unit.place), read),
    ensures
        quant == read,
{
}

} // verus!
