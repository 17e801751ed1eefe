//! Elements that the threads of the row and element kernels read and write.

use vstd::prelude::*;

use crate::shape::{
    flat, lemma_pair, lemma_pair_bound, lemma_split, lemma_strided_bound, lemma_strided_partition,
    product, strided, strided_len, strided_positions,
};
use crate::tensor::{at3, at4, TensorInfo};

verus! {

/// Lanes of a SIMD group.
pub const GROUP: usize = 32;

/// The element of a thread in kernels that compute one element per thread: the thread's position
/// among all threads, `None` where no element is left for it.
pub fn element_unit(cube: u32, thread: u32, threads: u32, len: usize) -> (element: Option<usize>)
    ensures
        match element {
            Some(element) => element == cube * threads + thread && element < len,
            None => cube * threads + thread >= len,
        },
{
    assert(0 <= cube * threads <= 0xffff_fffe_0000_0001) by (nonlinear_arith)
        requires
            cube <= 0xffff_ffff,
            threads <= 0xffff_ffff,
    ;
    let position: u64 = cube as u64 * threads as u64 + thread as u64;
    if position < len as u64 {
        Some(position as usize)
    } else {
        None
    }
}

/// What one lane of the normalization kernel does: elements it squares and scales, and the entries
/// of `gamma` that it scales them by.
#[derive(Clone, Debug, PartialEq, Eq)]
pub struct RowUnit {
    /// Addresses in the input and in the output.
    pub elements: Vec<usize>,
    /// Addresses in `gamma`.
    pub columns: Vec<usize>,
}

/// What lane `lane` of the group for row `row` does. The columns of a row are shared out among the
/// lanes.
pub fn rms_norm_unit(row: usize, lane: usize, rows: usize, width: usize) -> (unit: RowUnit)
    requires
        row < rows,
        lane < GROUP,
        rows * width <= usize::MAX,
    ensures
        unit.columns@.len() == strided_len(lane as int, 32, width as int),
        unit.elements@.len() == unit.columns@.len(),
        forall|k: int|
            0 <= k < unit.columns@.len() ==> #[trigger] unit.columns@[k] == strided(
                lane as int,
                32,
                width as int,
            )[k],
        forall|k: int|
            0 <= k < unit.elements@.len() ==> #[trigger] unit.elements@[k] == row * width + strided(
                lane as int,
                32,
                width as int,
            )[k],
        forall|k: int|
            0 <= k < unit.elements@.len() ==> #[trigger] unit.elements@[k] < rows * width,
{
    let columns = strided_positions(lane, GROUP, width);
    let mut elements: Vec<usize> = Vec::with_capacity(columns.len());
    let mut k: usize = 0;
    while k < columns.len()
        invariant
            k <= columns@.len(),
            row < rows,
            rows * width <= usize::MAX,
            columns@.len() == strided_len(lane as int, 32, width as int),
            forall|j: int|
                0 <= j < columns@.len() ==> #[trigger] columns@[j] == strided(
                    lane as int,
                    32,
                    width as int,
                )[j],
            elements@.len() == k,
            forall|j: int|
                0 <= j < k ==> #[trigger] elements@[j] == row * width + columns@[j] && elements@[j]
                    < rows * width,
        decreases columns@.len() - k,
    {
        let column: usize = columns[k];
        proof {
            lemma_strided_bound(lane as int, 32, width as int, k as int);
            lemma_pair_bound(row as int, rows as int, width as int, column as int);
            assert(0 <= row * width) by (nonlinear_arith);
        }
        elements.push(row * width + column);
        k = k + 1;
    }
    RowUnit { elements, columns }
}

/// Every element of a tensor of `rows` rows is normalized by one lane of one group: element `i` by
/// lane `(i % width) % 32` of the group for row `i / width`.
pub proof fn lemma_rows_cover(rows: int, width: int, i: int)
    requires
        0 < width,
        0 <= i < rows * width,
    ensures
        ({
            let (row, column) = (i / width, i % width);
            let lane = column % 32;
            &&& 0 <= row < rows
            &&& 0 <= column / 32 < strided_len(lane, 32, width)
            &&& row * width + strided(lane, 32, width)[column / 32] == i
            &&& forall|other: int, start: int, k: int|
                0 <= start < 32 && 0 <= k < strided_len(start, 32, width) && #[trigger] (other * width)
                    + #[trigger] strided(start, 32, width)[k] == i ==> other == row && start == lane
                    && k == column / 32
        }),
{
    let (row, column) = (i / width, i % width);
    lemma_split(i, rows, width);
    lemma_strided_partition(32, width, column);
    assert forall|other: int, start: int, k: int|
        0 <= start < 32 && 0 <= k < strided_len(start, 32, width) && #[trigger] (other * width)
            + #[trigger] strided(start, 32, width)[k] == i implies other == row && start == column
        % 32 && k == column / 32 by {
        lemma_strided_bound(start, 32, width, k);
        lemma_pair(other, width, strided(start, 32, width)[k]);
        assert(strided(start, 32, width)[k] == column);
    }
}

/// What one thread of the rotary kernel reads.
#[derive(Clone, Copy, Debug, PartialEq, Eq, Structural)]
pub struct RopeUnit {
    /// Address of the first element of the pair.
    pub even: usize,
    /// Address of the second element of the pair.
    pub odd: usize,
    /// Address of the cosine.
    pub cosine: usize,
    /// Address of the sine.
    pub sine: usize,
    /// Whether the thread computes the first element of the pair, `even * cosine - odd * sine`;
    /// else it computes the second, `odd * cosine + even * sine`.
    pub first: bool,
}

/// Coordinates of element `index` in a tensor of four dimensions.
pub open spec fn coords4(shape: Seq<usize>, index: int) -> (int, int, int, int) {
    let (d1, d2, d3) = (shape[1] as int, shape[2] as int, shape[3] as int);
    (index / d3 / d2 / d1, index / d3 / d2 % d1, index / d3 % d2, index % d3)
}

/// The frequencies hold cosine and sine for every position and feature.
pub open spec fn covers_positions(
    frequencies: TensorInfo,
    input: Seq<usize>,
    sequence_dim: int,
) -> bool {
    &&& frequencies.addressable()
    &&& frequencies.shape@.len() == 3
    &&& frequencies.shape@[0] >= input[sequence_dim]
    &&& frequencies.shape@[1] >= input[3]
    &&& frequencies.shape@[2] >= 2
}

/// What the thread of the element at these coordinates reads: the pair that the feature belongs to,
/// and the cosine and sine of its position and feature.
pub open spec fn rotated(
    unit: RopeUnit,
    coords: (int, int, int, int),
    input: TensorInfo,
    frequencies: TensorInfo,
    sequence_dim: int,
) -> bool {
    let (batch, dim1, dim2, feature) = coords;
    let position = if sequence_dim == 1 {
        dim1
    } else {
        dim2
    };
    let pair = feature - feature % 2;
    &&& unit.even == at4(input.strides@, batch, dim1, dim2, pair)
    &&& unit.odd == at4(input.strides@, batch, dim1, dim2, pair + 1)
    &&& unit.cosine == at3(frequencies.strides@, position, feature, 0)
    &&& unit.sine == at3(frequencies.strides@, position, feature, 1)
    &&& unit.first == (feature % 2 == 0)
}

/// What the thread of element `index` reads; `None` past the last element. Features come in pairs,
/// so the width is even.
pub fn rope_unit(
    index: usize,
    len: usize,
    input: &TensorInfo,
    frequencies: &TensorInfo,
    sequence_dim: u32,
) -> (unit: Option<RopeUnit>)
    requires
        input.addressable(),
        input.shape@.len() == 4,
        len == product(input.shape@),
        input.shape@[3] % 2 == 0,
        sequence_dim == 1 || sequence_dim == 2,
        covers_positions(*frequencies, input.shape@, sequence_dim as int),
    ensures
        match unit {
            None => index >= len,
            Some(unit) => index < len && rotated(
                unit,
                coords4(input.shape@, index as int),
                *input,
                *frequencies,
                sequence_dim as int,
            ),
        },
{
    if index >= len {
        return None;
    }
    proof {
        lemma_coords4(input.shape@, index as int);
    }
    let width: usize = input.shape[3];
    let heads_or_sequence: usize = input.shape[2];
    let sequence_or_heads: usize = input.shape[1];
    let feature: usize = index % width;
    let index_without_feature: usize = index / width;
    let dim2: usize = index_without_feature % heads_or_sequence;
    let index_without_dim2: usize = index_without_feature / heads_or_sequence;
    let dim1: usize = index_without_dim2 % sequence_or_heads;
    let batch: usize = index_without_dim2 / sequence_or_heads;
    let sequence: usize = if sequence_dim == 1 {
        dim1
    } else {
        dim2
    };
    let pair_feature: usize = feature - feature % 2;
    Some(
        RopeUnit {
            even: input.at4(batch, dim1, dim2, pair_feature),
            odd: input.at4(batch, dim1, dim2, pair_feature + 1),
            cosine: frequencies.at3(sequence, feature, 0),
            sine: frequencies.at3(sequence, feature, 1),
            first: feature % 2 == 0,
        },
    )
}

/// The coordinates name an element of the tensor, and it is the one at that row-major address.
pub proof fn lemma_coords4(shape: Seq<usize>, index: int)
    requires
        shape.len() == 4,
        0 <= index < product(shape),
    ensures
        ({
            let c = coords4(shape, index);
            &&& 0 <= c.0 < shape[0]
            &&& 0 <= c.1 < shape[1]
            &&& 0 <= c.2 < shape[2]
            &&& 0 <= c.3 < shape[3]
            &&& flat(seq![c.0, c.1, c.2, c.3], shape) == index
            &&& shape[0] > 0 && shape[1] > 0 && shape[2] > 0 && shape[3] > 0
        }),
{
    let (d0, d1, d2, d3) = (shape[0] as int, shape[1] as int, shape[2] as int, shape[3] as int);
    let c = coords4(shape, index);
    assert(product(shape) == d0 * d1 * d2 * d3) by {
        reveal_with_fuel(product, 5);
        assert(shape.drop_last().drop_last().drop_last().drop_last() =~= Seq::<usize>::empty());
        assert(1 * shape[0] as nat * shape[1] as nat * shape[2] as nat * shape[3] as nat == d0 * d1
            * d2 * d3) by (nonlinear_arith)
            requires
                d0 == shape[0],
                d1 == shape[1],
                d2 == shape[2],
                d3 == shape[3],
        ;
    }
    assert(d0 * d1 >= 0 && d0 * d1 * d2 >= 0) by (nonlinear_arith)
        requires
            d0 >= 0,
            d1 >= 0,
            d2 >= 0,
    ;
    assert(d3 > 0) by (nonlinear_arith)
        requires
            index < (d0 * d1 * d2) * d3,
            index >= 0,
            d3 >= 0,
    ;
    lemma_split(index, d0 * d1 * d2, d3);
    let i2 = index / d3;
    assert(d2 > 0) by (nonlinear_arith)
        requires
            i2 < (d0 * d1) * d2,
            i2 >= 0,
            d2 >= 0,
    ;
    lemma_split(i2, d0 * d1, d2);
    let i1 = i2 / d2;
    assert(d1 > 0) by (nonlinear_arith)
        requires
            i1 < d0 * d1,
            i1 >= 0,
            d1 >= 0,
    ;
    lemma_split(i1, d0, d1);
    reveal_with_fuel(flat, 5);
    let s = seq![c.0, c.1, c.2, c.3];
    assert(s.drop_last().drop_last().drop_last().drop_last() =~= Seq::<int>::empty());
    assert(flat(s, shape) == ((0 * d0 + c.0) * d1 + c.1) * d2 * d3 + c.2 * d3 + c.3) by {
        let x = (0 * d0 + c.0) * d1 + c.1;
        assert((x * d2 + c.2) * d3 + c.3 == x * d2 * d3 + c.2 * d3 + c.3) by (nonlinear_arith);
    }
    assert(((0 * d0 + c.0) * d1 + c.1) * d2 * d3 + c.2 * d3 + c.3 == index) by (nonlinear_arith)
        requires
            c.0 * d1 + c.1 == i1,
            i1 * d2 + c.2 == i2,
            i2 * d3 + c.3 == index,
    ;
}

/// Neighbouring features make up a pair: both threads read the same two elements, and each
/// computes its own of the two.
pub proof fn lemma_pairs_rotate_together(
    first: RopeUnit,
    second: RopeUnit,
    coords: (int, int, int, int),
    input: TensorInfo,
    frequencies: TensorInfo,
    sequence_dim: int,
)
    requires
        coords.3 % 2 == 0,
        rotated(first, coords, input, frequencies, sequence_dim),
        rotated(
            second,
            (coords.0, coords.1, coords.2, coords.3 + 1),
            input,
            frequencies,
            sequence_dim,
        ),
    ensures
        first.even == second.even,
        first.odd == second.odd,
        first.first && !second.first,
{
}

} // verus!
