//! Expansion of quantized tensors.

use vstd::prelude::*;

use crate::blocks::{permuted, permuted_shape, source_coords};
use crate::exact::distance;
use crate::packing::{
    clamped, is_close, is_nearest, is_whole, lemma_clamped_whole, lemma_kept_again,
    lemma_kept_again_rounded, lemma_nearest_value_kept, lemma_q4_word_determined, low_nibble, nibble, q4_value, unpack_q4,
};
use crate::quantize::{lemma_every_scale_copied, PackUnit};
use crate::reject::Rejection;
use crate::scheme::{is_q4_k_block, q4_block, DType, QuantScheme, QuantStore};
use crate::shape::{
    copied, lemma_flat_bound, lemma_flat_unflat, lemma_pair, lemma_pair_bound, lemma_split, lemma_unflat_flat, low_word,
    num_elements, product, truncate, unflat,
};
use crate::tensor::{
    allocatable, allocate, at2, elemwise, elemwise_launch, lemma_gapless, Allocation, Launch,
    QuantTensor, TensorInfo,
};

verus! {

/// How a tensor is expanded.
#[derive(Clone, Debug, PartialEq, Eq)]
pub enum DequantizePlan {
    /// The tensor is not quantized and stays as it is.
    Unchanged,
    /// By the kernel for four-bit blocks one column wide, one thread per element.
    Q4KBlock {
        /// The expanded tensor.
        output: Allocation,
        /// The launch.
        launch: Launch,
        /// Rows of each matrix, as the kernel gets them.
        input_width: u32,
        /// Columns of each matrix, as the kernel gets them.
        output_width: u32,
        /// Rows of a block, as the kernel gets them.
        block_size: u32,
    },
    /// By the kernel for all other schemes.
    Generic {
        /// Each of these axes changes places with the next one before the kernel, in this order.
        swaps: Vec<usize>,
        /// The expanded tensor, in the order of axes that the kernel works in.
        output: Allocation,
        /// Order of axes that restores the tensor, where axes were exchanged.
        inverse_axes: Option<Vec<usize>>,
    },
}

/// The axis along which values are packed, where it is not the innermost one.
pub open spec fn packed_axis(store: QuantStore, rank: nat) -> Option<int> {
    match store {
        QuantStore::PackedU32(dim) | QuantStore::PackedNative(dim) => if dim != 0 {
            Some(rank - dim - 1)
        } else {
            None
        },
        QuantStore::Native => None,
    }
}

/// Order of axes in which `axis` comes last and all others keep their order.
pub open spec fn moved_last(rank: nat, axis: int) -> Seq<usize> {
    Seq::new(
        rank,
        |i: int|
            if i < axis {
                i as usize
            } else if i < rank - 1 {
                (i + 1) as usize
            } else {
                axis as usize
            },
    )
}

/// Order of axes in which the last one comes to `axis`.
pub open spec fn moved_back(rank: nat, axis: int) -> Seq<usize> {
    Seq::new(
        rank,
        |i: int|
            if i < axis {
                i as usize
            } else if i == axis {
                (rank - 1) as usize
            } else {
                (i - 1) as usize
            },
    )
}

/// The axes `axis..rank - 1`, each of which is exchanged with the next one.
pub open spec fn exchanges(rank: nat, axis: int) -> Seq<usize> {
    Seq::new((rank - 1 - axis) as nat, |i: int| (axis + i) as usize)
}

/// `dims` after entry `at` has changed places with the next one.
pub open spec fn exchanged_at(dims: Seq<usize>, at: int) -> Seq<usize> {
    dims.update(at, dims[at + 1]).update(at + 1, dims[at])
}

/// `dims` after entries `axis..axis + count` have in turn changed places with the next one.
pub open spec fn exchanged_from(dims: Seq<usize>, axis: int, count: nat) -> Seq<usize>
    decreases count,
{
    if count == 0 {
        dims
    } else {
        exchanged_at(exchanged_from(dims, axis, (count - 1) as nat), axis + count - 1)
    }
}

/// Dimensions of the tensor that the generic kernel writes.
pub open spec fn kernel_shape(scheme: QuantScheme, shape: Seq<usize>) -> Seq<usize> {
    match packed_axis(scheme.store, shape.len()) {
        Some(axis) => permuted_shape(shape, moved_last(shape.len(), axis)),
        None => shape,
    }
}

/// Why a tensor is not expanded.
pub open spec fn dequantize_rejection(tensor: QuantTensor, dtype: DType) -> Option<Rejection> {
    match tensor.info.dtype {
        DType::QFloat(scheme) => {
            let shape = tensor.info.shape@;
            match q4_block(scheme) {
                Some(block) => if shape.len() < 2 {
                    Some(Rejection::WrongRank)
                } else if shape[shape.len() - 2] as int % block as int != 0 || shape.last() % 8
                    != 0 {
                    Some(Rejection::Misaligned)
                } else if !allocatable(shape, dtype) {
                    Some(Rejection::TooLarge)
                } else if tensor.parts is None {
                    Some(Rejection::MissingParts)
                } else {
                    None
                },
                None => if packed_axis(scheme.store, shape.len()) matches Some(axis) && axis < 0 {
                    Some(Rejection::OutOfRange)
                } else if !allocatable(kernel_shape(scheme, shape), dtype) {
                    Some(Rejection::TooLarge)
                } else if tensor.parts is None {
                    Some(Rejection::MissingParts)
                } else {
                    None
                },
            }
        },
        _ => None,
    }
}

impl DequantizePlan {
    /// The plan expands the tensor to elements of this type.
    pub open spec fn expands(self, tensor: QuantTensor, dtype: DType) -> bool {
        let shape = tensor.info.shape@;
        match self {
            DequantizePlan::Unchanged => !(tensor.info.dtype is QFloat),
            DequantizePlan::Q4KBlock { output, launch, input_width, output_width, block_size } => {
                &&& tensor.info.dtype matches DType::QFloat(scheme)
                &&& q4_block(scheme) matches Some(block)
                &&& block_size == low_word(block as int)
                &&& output.is_for(tensor.info.device, dtype, shape)
                &&& launch == elemwise(product(shape) as int)
                &&& input_width == low_word(shape[shape.len() - 2] as int)
                &&& output_width == low_word(shape.last() as int)
            },
            DequantizePlan::Generic { swaps, output, inverse_axes } => {
                &&& tensor.info.dtype matches DType::QFloat(scheme)
                &&& q4_block(scheme) is None
                &&& output.is_for(tensor.info.device, dtype, kernel_shape(scheme, shape))
                &&& match (packed_axis(scheme.store, shape.len()), inverse_axes) {
                    (Some(axis), Some(inverse)) => swaps@ == exchanges(shape.len(), axis)
                        && inverse@ == moved_back(shape.len(), axis),
                    (None, None) => swaps@.len() == 0,
                    _ => false,
                }
            },
        }
    }
}

/// Exchanging entries one after the other from `axis` on moves that entry to the end.
pub proof fn lemma_exchanges_move_last(dims: Seq<usize>, axis: int)
    requires
        0 <= axis < dims.len() <= usize::MAX,
    ensures
        exchanged_from(dims, axis, (dims.len() - 1 - axis) as nat) == permuted_shape(
            dims,
            moved_last(dims.len(), axis),
        ),
{
    let n = (dims.len() - 1 - axis) as nat;
    lemma_exchanged_prefix(dims, axis, n);
    assert(exchanged_from(dims, axis, n) =~= permuted_shape(dims, moved_last(dims.len(), axis)));
}

proof fn lemma_exchanged_prefix(dims: Seq<usize>, axis: int, count: nat)
    requires
        0 <= axis,
        axis + count < dims.len(),
    ensures
        exchanged_from(dims, axis, count).len() == dims.len(),
        forall|i: int|
            0 <= i < dims.len() ==> #[trigger] exchanged_from(dims, axis, count)[i] == (if axis <= i
                < axis + count {
                dims[i + 1]
            } else if i == axis + count {
                dims[axis]
            } else {
                dims[i]
            }),
    decreases count,
{
    if count > 0 {
        lemma_exchanged_prefix(dims, axis, (count - 1) as nat);
    }
}

/// Each order of axes undoes the other.
pub proof fn lemma_moved_back_inverts(rank: nat, axis: int, i: int)
    requires
        0 <= axis < rank <= usize::MAX,
        0 <= i < rank,
    ensures
        moved_last(rank, axis)[moved_back(rank, axis)[i] as int] == i,
        moved_back(rank, axis)[moved_last(rank, axis)[i] as int] == i,
{
}

/// Moving an axis last and back restores the dimensions.
pub proof fn lemma_dimensions_restored(shape: Seq<usize>, axis: int)
    requires
        0 <= axis < shape.len() <= usize::MAX,
    ensures
        permuted_shape(
            permuted_shape(shape, moved_last(shape.len(), axis)),
            moved_back(shape.len(), axis),
        ) == shape,
{
    let rank = shape.len();
    let last = permuted_shape(shape, moved_last(rank, axis));
    let back = permuted_shape(last, moved_back(rank, axis));
    assert forall|i: int| 0 <= i < rank implies #[trigger] back[i] == shape[i] by {
        lemma_moved_back_inverts(rank, axis, i);
    }
    assert(back =~= shape);
}

// In either order of axes, the place of an axis is where the other order sends it.
proof fn lemma_axis_places(rank: nat, axis: int, d: int)
    requires
        0 <= axis < rank <= usize::MAX,
        0 <= d < rank,
    ensures
        moved_last(rank, axis).index_of(d as usize) == moved_back(rank, axis)[d],
        moved_back(rank, axis).index_of(d as usize) == moved_last(rank, axis)[d],
{
    let (last, back) = (moved_last(rank, axis), moved_back(rank, axis));
    lemma_moved_back_inverts(rank, axis, d);
    assert(last.contains(d as usize));
    assert(back.contains(d as usize));
    lemma_moved_back_inverts(rank, axis, last.index_of(d as usize));
    lemma_moved_back_inverts(rank, axis, back.index_of(d as usize));
}

/// Moving an axis last and back restores every element.
pub proof fn lemma_elements_restored<T>(data: Seq<T>, shape: Seq<usize>, axis: int)
    requires
        0 <= axis < shape.len() <= usize::MAX,
        data.len() == product(shape),
    ensures
        ({
            let last = moved_last(shape.len(), axis);
            permuted(
                permuted(data, shape, last),
                permuted_shape(shape, last),
                moved_back(shape.len(), axis),
            ) == data
        }),
{
    let rank = shape.len();
    let (last, back) = (moved_last(rank, axis), moved_back(rank, axis));
    let dims = permuted_shape(shape, last);
    let moved = permuted(data, shape, last);
    lemma_dimensions_restored(shape, axis);
    let restored = permuted(moved, dims, back);
    assert forall|k: int| 0 <= k < data.len() implies #[trigger] restored[k] == data[k] by {
        let coords = unflat(k, shape);
        lemma_flat_unflat(k, shape);
        let inner = source_coords(coords, back);
        assert forall|d: int| 0 <= d < rank implies 0 <= #[trigger] inner[d] < dims[d] by {
            lemma_axis_places(rank, axis, d);
            assert(coords[last[d] as int] < shape[last[d] as int]);
        }
        lemma_flat_bound(inner, dims);
        lemma_unflat_flat(inner, dims);
        assert forall|d: int| 0 <= d < rank implies source_coords(inner, last)[d] == coords[d] by {
            lemma_axis_places(rank, axis, d);
            lemma_axis_places(rank, axis, back[d] as int);
            lemma_moved_back_inverts(rank, axis, d);
        }
        assert(source_coords(inner, last) =~= coords);
    }
    assert(restored =~= data);
}

/// Plans the expansion of a tensor to elements of type `dtype`.
pub fn dequantize(tensor: &QuantTensor, dtype: &DType) -> (plan: Result<DequantizePlan, Rejection>)
    ensures
        match plan {
            Ok(plan) => dequantize_rejection(*tensor, *dtype) is None && plan.expands(
                *tensor,
                *dtype,
            ),
            Err(reason) => dequantize_rejection(*tensor, *dtype) == Some(reason),
        },
{
    match &tensor.info.dtype {
        DType::QFloat(scheme) => match is_q4_k_block(scheme) {
            Some(block_size) => dequantize_q4(tensor, dtype, block_size),
            None => dequantize_generic(tensor, dtype, scheme),
        },
        _ => Ok(DequantizePlan::Unchanged),
    }
}

fn dequantize_q4(tensor: &QuantTensor, dtype: &DType, block_size: usize) -> (plan: Result<
    DequantizePlan,
    Rejection,
>)
    requires
        tensor.info.dtype matches DType::QFloat(scheme) && q4_block(scheme) == Some(block_size),
    ensures
        match plan {
            Ok(plan) => dequantize_rejection(*tensor, *dtype) is None && plan.expands(
                *tensor,
                *dtype,
            ),
            Err(reason) => dequantize_rejection(*tensor, *dtype) == Some(reason),
        },
{
    let shape = &tensor.info.shape;
    let rank: usize = shape.len();
    if rank < 2 {
        return Err(Rejection::WrongRank);
    }
    let input_width: usize = shape[rank - 2];
    let output_width: usize = shape[rank - 1];
    if input_width % block_size != 0 || output_width % 8 != 0 {
        return Err(Rejection::Misaligned);
    }
    let output = match allocate(tensor.info.device, dtype, copied(shape)) {
        Some(output) => output,
        None => {
            return Err(Rejection::TooLarge);
        },
    };
    if tensor.parts.is_none() {
        return Err(Rejection::MissingParts);
    }
    proof {
        assert(shape@.skip(0) =~= shape@);
        assert(product(shape@.skip(0)) <= usize::MAX);
    }
    match num_elements(shape) {
        Some(work_items) => Ok(
            DequantizePlan::Q4KBlock {
                output,
                launch: elemwise_launch(work_items),
                input_width: truncate(input_width),
                output_width: truncate(output_width),
                block_size: truncate(block_size),
            },
        ),
        None => Err(Rejection::TooLarge),
    }
}

// Axes but `packed_axis`, which comes last.
fn axes_with_last(rank: usize, packed_axis: usize) -> (axes: Vec<usize>)
    requires
        packed_axis < rank,
    ensures
        axes@ == moved_last(rank as nat, packed_axis as int),
{
    let mut axes: Vec<usize> = Vec::with_capacity(rank);
    let mut axis: usize = 0;
    while axis < rank
        invariant
            axis <= rank,
            packed_axis < rank,
            axes@.len() == if axis <= packed_axis {
                axis as int
            } else {
                axis - 1
            },
            forall|i: int|
                0 <= i < axes@.len() ==> #[trigger] axes@[i] == moved_last(
                    rank as nat,
                    packed_axis as int,
                )[i],
        decreases rank - axis,
    {
        if axis != packed_axis {
            axes.push(axis);
        }
        axis = axis + 1;
    }
    axes.push(packed_axis);
    assert(axes@ =~= moved_last(rank as nat, packed_axis as int));
    axes
}

// The order of axes that undoes `axes`.
fn inverse_of(axes: &Vec<usize>, Ghost(packed_axis): Ghost<int>) -> (inverse: Vec<usize>)
    requires
        0 <= packed_axis < axes@.len(),
        axes@ == moved_last(axes@.len(), packed_axis),
    ensures
        inverse@ == moved_back(axes@.len(), packed_axis),
{
    let rank: usize = axes.len();
    let mut inverse: Vec<usize> = vec![0; rank];
    let mut axis: usize = 0;
    while axis < rank
        invariant
            rank == axes@.len(),
            0 <= packed_axis < rank,
            axes@ == moved_last(rank as nat, packed_axis),
            axis <= rank,
            inverse@.len() == rank,
            forall|i: int| 0 <= i < axis ==> inverse@[#[trigger] axes@[i] as int] == i,
        decreases rank - axis,
    {
        let source: usize = axes[axis];
        let ghost before = inverse@;
        inverse.set(source, axis);
        proof {
            assert forall|i: int| 0 <= i < axis + 1 implies inverse@[#[trigger] axes@[i] as int]
                == i by {
                lemma_moved_back_inverts(rank as nat, packed_axis, i);
                lemma_moved_back_inverts(rank as nat, packed_axis, axis as int);
            }
        }
        axis = axis + 1;
    }
    proof {
        assert forall|d: int| 0 <= d < rank implies inverse@[d] == moved_back(
            rank as nat,
            packed_axis,
        )[d] by {
            lemma_moved_back_inverts(rank as nat, packed_axis, d);
            let i = moved_back(rank as nat, packed_axis)[d] as int;
            assert(inverse@[axes@[i] as int] == i);
        }
        assert(inverse@ =~= moved_back(rank as nat, packed_axis));
    }
    inverse
}

fn dequantize_generic(tensor: &QuantTensor, dtype: &DType, scheme: &QuantScheme) -> (plan: Result<
    DequantizePlan,
    Rejection,
>)
    requires
        tensor.info.dtype == DType::QFloat(*scheme),
        q4_block(*scheme) is None,
    ensures
        match plan {
            Ok(plan) => dequantize_rejection(*tensor, *dtype) is None && plan.expands(
                *tensor,
                *dtype,
            ),
            Err(reason) => dequantize_rejection(*tensor, *dtype) == Some(reason),
        },
{
    let rank: usize = tensor.info.shape.len();
    let dim: usize = match scheme.store {
        QuantStore::PackedU32(dim) | QuantStore::PackedNative(dim) => dim,
        QuantStore::Native => 0,
    };
    let mut dims = copied(&tensor.info.shape);
    let mut swaps: Vec<usize> = Vec::new();
    let mut inverse_axes: Option<Vec<usize>> = None;
    if dim != 0 {
        if dim >= rank {
            return Err(Rejection::OutOfRange);
        }
        let packed_axis: usize = rank - dim - 1;
        let axes = axes_with_last(rank, packed_axis);
        inverse_axes = Some(inverse_of(&axes, Ghost(packed_axis as int)));
        let mut axis: usize = packed_axis;
        while axis < rank - 1
            invariant
                packed_axis <= axis <= rank - 1,
                rank == tensor.info.shape@.len(),
                swaps@.len() == axis - packed_axis,
                forall|i: int| 0 <= i < swaps@.len() ==> #[trigger] swaps@[i] == packed_axis + i,
                dims@.len() == rank,
                dims@ == exchanged_from(
                    tensor.info.shape@,
                    packed_axis as int,
                    (axis - packed_axis) as nat,
                ),
            decreases rank - axis,
        {
            let first: usize = dims[axis];
            let second: usize = dims[axis + 1];
            dims.set(axis, second);
            dims.set(axis + 1, first);
            swaps.push(axis);
            axis = axis + 1;
        }
        proof {
            lemma_exchanges_move_last(tensor.info.shape@, packed_axis as int);
            assert(swaps@ =~= exchanges(rank as nat, packed_axis as int));
        }
    }
    let output = match allocate(tensor.info.device, dtype, dims) {
        Some(output) => output,
        None => {
            return Err(Rejection::TooLarge);
        },
    };
    if tensor.parts.is_none() {
        return Err(Rejection::MissingParts);
    }
    Ok(DequantizePlan::Generic { swaps, output, inverse_axes })
}

/// What one thread of the four-bit kernel reads.
#[derive(Clone, Copy, Debug, PartialEq, Eq, Structural)]
pub struct ExpandUnit {
    /// Address of the word.
    pub word: usize,
    /// Place within the word.
    pub place: usize,
    /// Address of the scale.
    pub scale: usize,
}

/// What the thread of element `index` reads: matrices of `rows` by `columns` follow each other, as
/// do their words and their scales, one scale per `block` rows of a column.
pub open spec fn expanded(index: int, rows: int, columns: int, block: int) -> (int, int, int) {
    let row = (index / columns) % rows;
    let matrix = (index / columns) / rows;
    let column = index % columns;
    (
        (matrix * rows + row) * (columns / 8) + column / 8,
        column % 8,
        (matrix * (rows / block) + row / block) * columns + column,
    )
}

/// What thread `index` of the four-bit kernel reads for a tensor of `len` elements; `None` past the
/// last element.
pub fn dequantize_q4_k_block_unit(
    index: usize,
    len: usize,
    input_width: usize,
    output_width: usize,
    block_size: usize,
) -> (unit: Option<ExpandUnit>)
    requires
        len > 0 ==> input_width > 0 && output_width > 0,
        block_size > 0,
        input_width as int % block_size as int == 0,
        output_width % 8 == 0,
    ensures
        match unit {
            None => index >= len,
            Some(unit) => index < len && (unit.word as int, unit.place as int, unit.scale as int)
                == expanded(
                index as int,
                input_width as int,
                output_width as int,
                block_size as int,
            ),
        },
{
    if index >= len {
        return None;
    }
    let flattened_input_row: usize = index / output_width;
    let matrix: usize = flattened_input_row / input_width;
    let input_row: usize = flattened_input_row % input_width;
    let output_column: usize = index % output_width;
    let packed_column: usize = output_column / 8;
    let packed_width: usize = output_width / 8;
    let scale_row: usize = input_row / block_size;
    let scale_rows: usize = input_width / block_size;
    proof {
        let (i, w, h) = (index as int, output_width as int, input_width as int);
        let (m, r, c) = (matrix as int, input_row as int, output_column as int);
        vstd::arithmetic::div_mod::lemma_fundamental_div_mod(i, w);
        vstd::arithmetic::div_mod::lemma_fundamental_div_mod(flattened_input_row as int, h);
        vstd::arithmetic::div_mod::lemma_fundamental_div_mod(r, block_size as int);
        let f = flattened_input_row as int;
        assert(m * h + r == f) by (nonlinear_arith)
            requires
                f == h * m + r,
        ;
        assert(0 <= m * h <= f && f * packed_width as int + packed_column as int <= i && f
            * packed_width as int >= 0) by (nonlinear_arith)
            requires
                m * h + r == f,
                m >= 0,
                h >= 0,
                r >= 0,
                i == w * f + c,
                packed_width as int <= w,
                packed_column as int <= c,
                f >= 0,
                packed_width as int >= 0,
        ;
        let (sr, srs, b) = (scale_row as int, scale_rows as int, block_size as int);
        vstd::arithmetic::div_mod::lemma_fundamental_div_mod(h, b);
        assert(sr <= r && srs <= h) by (nonlinear_arith)
            requires
                r == b * sr + r % b,
                h == b * srs + h % b,
                b > 0,
                r % b >= 0,
                h % b >= 0,
                sr >= 0,
                srs >= 0,
        ;
        assert(0 <= m * srs <= m * h) by (nonlinear_arith)
            requires
                m >= 0,
                0 <= srs <= h,
        ;
        assert(0 <= (m * srs + sr) * w && (m * srs + sr) * w + c <= i) by (nonlinear_arith)
            requires
                0 <= m * srs + sr <= f,
                i == w * f + c,
                w > 0,
        ;
    }
    Some(
        ExpandUnit {
            word: (matrix * input_width + input_row) * packed_width + packed_column,
            place: output_column % 8,
            scale: (matrix * scale_rows + scale_row) * output_width + output_column,
        },
    )
}

/// The words hold the elements in row-major order, eight each.
pub proof fn lemma_words_in_order(index: int, rows: int, columns: int, block: int)
    requires
        0 <= index,
        0 < rows,
        0 < columns,
        columns % 8 == 0,
    ensures
        expanded(index, rows, columns, block).0 == index / 8,
        expanded(index, rows, columns, block).1 == index % 8,
{
    let f = index / columns;
    let c = index % columns;
    let w = columns / 8;
    vstd::arithmetic::div_mod::lemma_fundamental_div_mod(index, columns);
    vstd::arithmetic::div_mod::lemma_fundamental_div_mod(f, rows);
    assert((f / rows) * rows + f % rows == f) by (nonlinear_arith)
        requires
            f == rows * (f / rows) + f % rows,
    ;
    assert(index == 8 * (f * w + c / 8) + c % 8) by (nonlinear_arith)
        requires
            index == columns * f + c,
            columns == 8 * w,
            c == 8 * (c / 8) + c % 8,
    ;
}

/// What the threads of the packing kernel leave for tensors without gaps: word `j` holds the low
/// bits of the quantized elements `8 * j ..`, and threads that have the first row of a block copy the
/// scales of their columns.
pub open spec fn packed<S>(
    words: Seq<u32>,
    scales_out: Seq<S>,
    quants: Seq<i32>,
    scales: Seq<S>,
    rows: int,
    columns: int,
    block: int,
) -> bool {
    let width = columns / 8;
    &&& words.len() == rows * width
    &&& forall|j: int, k: int|
        #![trigger nibble(words[j], k as u32)]
        0 <= j < words.len() && 0 <= k < 8 ==> nibble(words[j], k as u32) == low_nibble(
            quants[8 * j + k] as int,
        )
    &&& forall|j: int, k: int|
        #![trigger scales_out[(j / width / block) * columns + 8 * (j % width) + k]]
        0 <= j < words.len() && 0 <= k < 8 && (j / width) % block == 0 ==> scales_out[(j / width
            / block) * columns + 8 * (j % width) + k] == scales[(j / width / block) * columns + 8 * (j
            % width) + k]
}

/// For tensors without gaps, thread `j` of the packing kernel reads elements `8 * j ..` and their
/// scales, and writes word `j`.
pub proof fn lemma_units_pack_in_order(
    unit: PackUnit,
    j: int,
    k: int,
    rows: int,
    columns: int,
    block: int,
    input: TensorInfo,
    scales: TensorInfo,
    values_out: TensorInfo,
    scales_out: TensorInfo,
)
    requires
        0 < block,
        columns % 8 == 0,
        0 <= columns <= usize::MAX,
        0 <= j < rows * (columns / 8),
        0 <= k < 8,
        input.strides@ == seq![columns as usize, 1],
        scales.strides@ == seq![columns as usize, 1],
        values_out.strides@ == seq![(columns / 8) as usize, 1],
        scales_out.strides@ == seq![columns as usize, 1],
        unit.packs(
            j / (columns / 8),
            j % (columns / 8),
            block,
            input,
            scales,
            values_out,
            scales_out,
        ),
    ensures
        ({
            let (row, word) = (j / (columns / 8), j % (columns / 8));
            let scale = (row / block) * columns + 8 * word + k;
            &&& unit.word == j
            &&& unit.inputs@[k] == 8 * j + k
            &&& unit.scales@[k] == scale
            &&& row % block == 0 ==> unit.scale_copies@[k] == scale
        }),
{
    let width = columns / 8;
    assert(width > 0) by (nonlinear_arith)
        requires
            0 <= j < rows * width,
            width >= 0,
    ;
    lemma_split(j, rows, width);
    let (row, word) = (j / width, j % width);
    lemma_gapless(values_out.strides@, width, row, word);
    lemma_gapless(input.strides@, columns, row, 8 * word + k);
    lemma_gapless(scales.strides@, columns, row / block, 8 * word + k);
    assert(row * columns == 8 * (row * width)) by (nonlinear_arith)
        requires
            columns == 8 * width,
    ;
    assert(unit.inputs@[k] == at2(input.strides@, row, 8 * word + k));
    assert(unit.scales@[k] == at2(scales.strides@, row / block, 8 * word + k));
    if row % block == 0 {
        assert(unit.scale_copies@[k] == at2(scales_out.strides@, row / block, 8 * word + k));
    }
}

/// Expansion gives back what was packed: the thread of an element reads the quantized value of that
/// element and the scale of its column and block.
pub proof fn lemma_q4_tensor_read_back<S>(
    words: Seq<u32>,
    scales_out: Seq<S>,
    quants: Seq<i32>,
    scales: Seq<S>,
    rows: int,
    columns: int,
    block: int,
    index: int,
)
    requires
        0 < rows,
        0 < columns,
        0 < block,
        rows % block == 0,
        columns % 8 == 0,
        packed(words, scales_out, quants, scales, rows, columns, block),
        0 <= index < rows * columns,
        -8 <= quants[index] <= 7,
    ensures
        ({
            let unit = expanded(index, rows, columns, block);
            let scale = (index / columns / block) * columns + index % columns;
            &&& 0 <= unit.0 < words.len()
            &&& q4_value(words[unit.0], unit.1) == quants[index]
            &&& unit.2 == scale
            &&& scales_out[unit.2] == scales[scale]
        }),
{
    lemma_words_in_order(index, rows, columns, block);
    let width = columns / 8;
    lemma_split(index, rows, columns);
    let (row, column) = (index / columns, index % columns);
    assert(rows * columns == 8 * (rows * width)) by (nonlinear_arith)
        requires
            columns == 8 * width,
    ;
    assert(nibble(words[index / 8], (index % 8) as u32) == low_nibble(
        quants[8 * (index / 8) + index % 8] as int,
    ));
    vstd::arithmetic::div_mod::lemma_small_mod(row as nat, rows as nat);
    vstd::arithmetic::div_mod::lemma_basic_div(row, rows);
    assert(0 * (rows / block) + row / block == row / block) by (nonlinear_arith);
    let scale_row = row / block;
    vstd::arithmetic::div_mod::lemma_fundamental_div_mod(rows, block);
    assert(rows == (rows / block) * block) by (nonlinear_arith)
        requires
            rows == block * (rows / block) + rows % block,
            rows % block == 0,
    ;
    lemma_split(row, rows / block, block);
    lemma_every_scale_copied(rows, columns, block, scale_row, column);
    let j = scale_row * block * width + column / 8;
    assert(8 * (j % width) + column % 8 == column);
    let k = column % 8;
    assert(scales_out[(j / width / block) * columns + 8 * (j % width) + k] == scales[(j / width
        / block) * columns + 8 * (j % width) + k]);
}

/// The scale that belongs to an element of a matrix.
pub open spec fn scale_place(index: int, columns: int, block: int) -> int {
    (index / columns / block) * columns + index % columns
}

/// `quants` are what the packing kernel makes of the elements: each is clamped from the whole number
/// `wholes` nearest to the quotient of the element and its scale.
pub open spec fn quantized_from(
    quants: Seq<i32>,
    wholes: Seq<int>,
    rounded: Seq<u32>,
    elements: Seq<real>,
    scales: Seq<real>,
    rows: int,
    columns: int,
    block: int,
) -> bool {
    forall|i: int|
        0 <= i < rows * columns ==> (#[trigger] quants[i]) == clamped(rounded[i]) && is_whole(
            rounded[i],
            wholes[i],
        ) && is_nearest(wholes[i], elements[i], scales[scale_place(i, columns, block)])
}

/// What expansion gives for an element: the value that its thread reads, times the scale.
pub open spec fn expanded_element(
    words: Seq<u32>,
    scales_out: Seq<real>,
    rows: int,
    columns: int,
    block: int,
    index: int,
) -> real {
    let unit = expanded(index, rows, columns, block);
    q4_value(words[unit.0], unit.1) as real * scales_out[unit.2]
}

/// Packing and expanding an element gives the nearest multiple of its scale that four bits keep, and
/// one within half a scale where the element lies within seven scales.
pub proof fn lemma_q4_tensor_nearest(
    words: Seq<u32>,
    scales_out: Seq<real>,
    quants: Seq<i32>,
    wholes: Seq<int>,
    rounded: Seq<u32>,
    elements: Seq<real>,
    scales: Seq<real>,
    rows: int,
    columns: int,
    block: int,
    index: int,
    other: int,
)
    requires
        0 < rows,
        0 < columns,
        0 < block,
        rows % block == 0,
        columns % 8 == 0,
        packed(words, scales_out, quants, scales, rows, columns, block),
        quantized_from(quants, wholes, rounded, elements, scales, rows, columns, block),
        0 <= index < rows * columns,
        (0 as real) < scales[scale_place(index, columns, block)],
        -7 <= other <= 7,
    ensures
        ({
            let scale = scales[scale_place(index, columns, block)];
            let result = expanded_element(words, scales_out, rows, columns, block, index);
            let x = elements[index];
            &&& distance(x, result) <= distance(x, other as real * scale)
            &&& -(7 as real) * scale <= x <= (7 as real) * scale ==> (2 as real) * distance(x, result)
                <= scale
        }),
{
    let scale = scales[scale_place(index, columns, block)];
    assert(quants[index] == clamped(rounded[index]));
    lemma_clamped_whole(rounded[index], wholes[index]);
    lemma_q4_tensor_read_back(words, scales_out, quants, scales, rows, columns, block, index);
    lemma_nearest_value_kept(elements[index], scale, rounded[index], wholes[index], other);
}

/// Quantizing an expanded tensor again with the same scales gives the same words and the same scales,
/// where expansion is off by less than half a scale.
pub proof fn lemma_q4_tensor_repacked(
    words: Seq<u32>,
    scales_out: Seq<real>,
    quants: Seq<i32>,
    again: Seq<u32>,
    again_scales: Seq<real>,
    again_quants: Seq<i32>,
    wholes: Seq<int>,
    rounded: Seq<u32>,
    elements: Seq<real>,
    scales: Seq<real>,
    rows: int,
    columns: int,
    block: int,
)
    requires
        0 < rows,
        0 < columns,
        0 < block,
        rows % block == 0,
        columns % 8 == 0,
        forall|p: int| 0 <= p < (rows / block) * columns ==> (0 as real) < #[trigger] scales[p],
        forall|i: int| 0 <= i < rows * columns ==> -7 <= #[trigger] quants[i] <= 7,
        packed(words, scales_out, quants, scales, rows, columns, block),
        forall|i: int|
            0 <= i < rows * columns ==> (2 as real) * distance(
                #[trigger] elements[i],
                expanded_element(words, scales_out, rows, columns, block, i),
            ) < scales[scale_place(i, columns, block)],
        quantized_from(again_quants, wholes, rounded, elements, scales, rows, columns, block),
        packed(again, again_scales, again_quants, scales, rows, columns, block),
    ensures
        again == words,
        forall|p: int|
            0 <= p < (rows / block) * columns ==> #[trigger] again_scales[p] == scales_out[p],
{
    assert forall|i: int| 0 <= i < rows * columns implies #[trigger] again_quants[i] == quants[i] by {
        assert(-7 <= quants[i] <= 7);
        let scale = scales[scale_place(i, columns, block)];
        assert((0 as real) < scale) by {
            lemma_scale_place(i, rows, columns, block);
        }
        lemma_q4_tensor_read_back(words, scales_out, quants, scales, rows, columns, block, i);
        assert(expanded_element(words, scales_out, rows, columns, block, i) == quants[i] as real
            * scale);
        assert((2 as real) * distance(
            elements[i],
            expanded_element(words, scales_out, rows, columns, block, i),
        ) < scale);
        assert(again_quants[i] == clamped(rounded[i]));
        lemma_kept_again(elements[i], scale, quants[i] as int, rounded[i], wholes[i]);
    }
    lemma_same_values_same_words(
        words,
        scales_out,
        quants,
        again,
        again_scales,
        again_quants,
        scales,
        rows,
        columns,
        block,
    );
}

/// What the packing kernel makes of elements where the division rounds: each value is clamped from the
/// whole number nearest to a quotient that is close to that of the element and its scale.
pub open spec fn quantized_with_rounding(
    quants: Seq<i32>,
    wholes: Seq<int>,
    rounded: Seq<u32>,
    quotients: Seq<real>,
    elements: Seq<real>,
    scales: Seq<real>,
    rows: int,
    columns: int,
    block: int,
) -> bool {
    forall|i: int|
        0 <= i < rows * columns ==> (#[trigger] quants[i]) == clamped(rounded[i]) && is_whole(
            rounded[i],
            wholes[i],
        ) && is_nearest(wholes[i], quotients[i], 1 as real) && is_close(
            quotients[i] * scales[scale_place(i, columns, block)],
            elements[i],
        )
}

/// Quantizing an expanded tensor again with the same scales gives the same words and the same scales,
/// in spite of the rounding in both the multiplication and the division.
pub proof fn lemma_q4_tensor_repacked_with_rounding(
    words: Seq<u32>,
    scales_out: Seq<real>,
    quants: Seq<i32>,
    again: Seq<u32>,
    again_scales: Seq<real>,
    again_quants: Seq<i32>,
    wholes: Seq<int>,
    rounded: Seq<u32>,
    quotients: Seq<real>,
    elements: Seq<real>,
    scales: Seq<real>,
    rows: int,
    columns: int,
    block: int,
)
    requires
        0 < rows,
        0 < columns,
        0 < block,
        rows % block == 0,
        columns % 8 == 0,
        forall|p: int| 0 <= p < (rows / block) * columns ==> (0 as real) < #[trigger] scales[p],
        forall|i: int| 0 <= i < rows * columns ==> -7 <= #[trigger] quants[i] <= 7,
        packed(words, scales_out, quants, scales, rows, columns, block),
        forall|i: int|
            0 <= i < rows * columns ==> is_close(
                #[trigger] elements[i],
                expanded_element(words, scales_out, rows, columns, block, i),
            ),
        quantized_with_rounding(
            again_quants,
            wholes,
            rounded,
            quotients,
            elements,
            scales,
            rows,
            columns,
            block,
        ),
        packed(again, again_scales, again_quants, scales, rows, columns, block),
    ensures
        again == words,
        forall|p: int|
            0 <= p < (rows / block) * columns ==> #[trigger] again_scales[p] == scales_out[p],
{
    assert forall|i: int| 0 <= i < rows * columns implies #[trigger] again_quants[i] == quants[i] by {
        assert(-7 <= quants[i] <= 7);
        let scale = scales[scale_place(i, columns, block)];
        assert((0 as real) < scale) by {
            lemma_scale_place(i, rows, columns, block);
        }
        lemma_q4_tensor_read_back(words, scales_out, quants, scales, rows, columns, block, i);
        assert(expanded_element(words, scales_out, rows, columns, block, i) == quants[i] as real
            * scale);
        assert(is_close(
            elements[i],
            expanded_element(words, scales_out, rows, columns, block, i),
        ));
        assert(again_quants[i] == clamped(rounded[i]));
        lemma_kept_again_rounded(
            elements[i],
            quotients[i],
            scale,
            quants[i] as int,
            rounded[i],
            wholes[i],
        );
    }
    lemma_same_values_same_words(
        words,
        scales_out,
        quants,
        again,
        again_scales,
        again_quants,
        scales,
        rows,
        columns,
        block,
    );
}

/// Two packings of the same values by the same scales are the same.
pub proof fn lemma_same_values_same_words<S>(
    words: Seq<u32>,
    scales_out: Seq<S>,
    quants: Seq<i32>,
    again: Seq<u32>,
    again_scales: Seq<S>,
    again_quants: Seq<i32>,
    scales: Seq<S>,
    rows: int,
    columns: int,
    block: int,
)
    requires
        0 < rows,
        0 < columns,
        0 < block,
        rows % block == 0,
        columns % 8 == 0,
        packed(words, scales_out, quants, scales, rows, columns, block),
        packed(again, again_scales, again_quants, scales, rows, columns, block),
        forall|i: int| 0 <= i < rows * columns ==> #[trigger] again_quants[i] == quants[i],
    ensures
        again == words,
        forall|p: int|
            0 <= p < (rows / block) * columns ==> #[trigger] again_scales[p] == scales_out[p],
{
    let width = columns / 8;
    assert(rows * columns == 8 * (rows * width)) by (nonlinear_arith)
        requires
            columns == 8 * width,
    ;
    assert forall|j: int| 0 <= j < words.len() implies again[j] == words[j] by {
        assert forall|k: int| 0 <= k < 8 implies #[trigger] q4_value(again[j], k) == q4_value(
            words[j],
            k,
        ) by {
            assert(again_quants[8 * j + k] == quants[8 * j + k]);
            assert(nibble(again[j], k as u32) == low_nibble(again_quants[8 * j + k] as int));
            assert(nibble(words[j], k as u32) == low_nibble(quants[8 * j + k] as int));
        }
        lemma_q4_word_determined(again[j], words[j]);
    }
    assert(again =~= words);
    assert forall|p: int| 0 <= p < (rows / block) * columns implies #[trigger] again_scales[p]
        == scales_out[p] by {
        lemma_split(p, rows / block, columns);
        let (scale_row, column) = (p / columns, p % columns);
        lemma_every_scale_copied(rows, columns, block, scale_row, column);
        let j = scale_row * block * width + column / 8;
        let k = column % 8;
        let place = (j / width / block) * columns + 8 * (j % width) + k;
        assert(place == p);
        assert(scales_out[(j / width / block) * columns + 8 * (j % width) + k] == scales[place]);
        assert(again_scales[(j / width / block) * columns + 8 * (j % width) + k] == scales[place]);
    }
}

/// The scale of an element is one of the scales.
pub proof fn lemma_scale_place(index: int, rows: int, columns: int, block: int)
    requires
        0 < rows,
        0 < columns,
        0 < block,
        rows % block == 0,
        0 <= index < rows * columns,
    ensures
        0 <= scale_place(index, columns, block) < (rows / block) * columns,
{
    lemma_split(index, rows, columns);
    vstd::arithmetic::div_mod::lemma_fundamental_div_mod(rows, block);
    assert(rows == (rows / block) * block) by (nonlinear_arith)
        requires
            rows == block * (rows / block) + rows % block,
            rows % block == 0,
    ;
    lemma_split(index / columns, rows / block, block);
    lemma_pair_bound(index / columns / block, rows / block, columns, index % columns);
    assert(0 <= (index / columns / block) * columns) by (nonlinear_arith)
        requires
            0 <= index / columns / block,
            0 < columns,
    ;
}

/// The scale of an element is that of its column and its block of rows, in the matrix it belongs
/// to: two elements of a matrix read one scale exactly when they share both.
pub proof fn lemma_scale_of_block(index: int, rows: int, columns: int, block: int)
    requires
        0 <= index,
        0 < rows,
        0 < columns,
        0 < block,
        rows % block == 0,
    ensures
        ({
            let scale = expanded(index, rows, columns, block).2;
            let scale_rows = rows / block;
            &&& scale % columns == index % columns
            &&& (scale / columns) % scale_rows == ((index / columns) % rows) / block
            &&& (scale / columns) / scale_rows == (index / columns) / rows
        }),
{
    let c = index % columns;
    let r = (index / columns) % rows;
    let m = (index / columns) / rows;
    let srs = rows / block;
    vstd::arithmetic::div_mod::lemma_fundamental_div_mod(rows, block);
    assert(rows == srs * block) by (nonlinear_arith)
        requires
            rows == block * srs + rows % block,
            rows % block == 0,
    ;
    vstd::arithmetic::div_mod::lemma_mod_bound(index, columns);
    vstd::arithmetic::div_mod::lemma_mod_bound(index / columns, rows);
    lemma_split(r, srs, block);
    lemma_pair(m * srs + r / block, columns, c);
    lemma_pair(m, srs, r / block);
}

/// The value that thread `unit` reads out of the words.
pub fn expanded_quant(unit: &ExpandUnit, words: &Vec<u32>) -> (quant: i32)
    requires
        unit.word < words@.len(),
        unit.place < 8,
    ensures
        quant == q4_value(words@[unit.word as int], unit.place as int),
{
    unpack_q4(words[unit.word], unit.place)
}

} // verus!
