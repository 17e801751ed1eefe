//! Rearrangement of a tensor so that each quantization block becomes one contiguous row.

use burn_std::BlockSize;
use vstd::prelude::*;

use crate::reject::Rejection;
use crate::scheme::{block_dims, fitted};
use crate::shape::{
    flat, in_shape, lemma_flat_bound, lemma_flat_unflat, lemma_pair, lemma_pair_bound,
    lemma_split, lemma_unflat_flat, num_elements, product, unflat,
};

verus! {

/// Dimensions of a tensor whose axes are reordered: axis `i` is the former axis `axes[i]`.
pub open spec fn permuted_shape(shape: Seq<usize>, axes: Seq<usize>) -> Seq<usize> {
    Seq::new(axes.len(), |i: int| shape[axes[i] as int])
}

/// The element before reordering that stands at `coords` after it.
pub open spec fn source_coords(coords: Seq<int>, axes: Seq<usize>) -> Seq<int> {
    Seq::new(axes.len(), |d: int| coords[axes.index_of(d as usize)])
}

/// Row-major elements of the tensor with its axes reordered.
pub open spec fn permuted<T>(data: Seq<T>, shape: Seq<usize>, axes: Seq<usize>) -> Seq<T> {
    let dims = permuted_shape(shape, axes);
    Seq::new(product(dims), |k: int| data[flat(source_coords(unflat(k, dims), axes), shape)])
}

/// How many blocks lie along each dimension.
pub open spec fn block_counts(shape: Seq<usize>, widths: Seq<usize>) -> Seq<usize> {
    Seq::new(shape.len(), |d: int| (shape[d] / widths[d]) as usize)
}

/// Every dimension split into the number of blocks and the width of a block.
pub open spec fn split_shape(shape: Seq<usize>, widths: Seq<usize>) -> Seq<usize> {
    Seq::new(
        2 * shape.len(),
        |i: int|
            if i % 2 == 0 {
                (shape[i / 2] / widths[i / 2]) as usize
            } else {
                widths[i / 2]
            },
    )
}

/// All block counts first, then all block widths.
pub open spec fn block_axes(rank: nat) -> Seq<usize> {
    Seq::new(
        2 * rank,
        |i: int|
            if i < rank {
                (2 * i) as usize
            } else {
                (2 * (i - rank) + 1) as usize
            },
    )
}

/// The block that holds an element.
pub open spec fn block_of(coords: Seq<int>, widths: Seq<usize>) -> Seq<int> {
    Seq::new(coords.len(), |d: int| coords[d] / widths[d] as int)
}

/// The place of an element within its block.
pub open spec fn within_block(coords: Seq<int>, widths: Seq<usize>) -> Seq<int> {
    Seq::new(coords.len(), |d: int| coords[d] % widths[d] as int)
}

/// The element at a place within a block.
pub open spec fn element_of(block: Seq<int>, place: Seq<int>, widths: Seq<usize>) -> Seq<int> {
    Seq::new(block.len(), |d: int| block[d] * widths[d] as int + place[d])
}

/// Blocks of these widths tile the tensor.
pub open spec fn tiles(shape: Seq<usize>, widths: Seq<usize>) -> bool {
    &&& widths.len() == shape.len()
    &&& forall|d: int|
        0 <= d < shape.len() ==> #[trigger] widths[d] > 0 && shape[d] as int % widths[d] as int == 0
}

/// The tensor with each block as one row.
pub open spec fn block_rows<T>(data: Seq<T>, shape: Seq<usize>, widths: Seq<usize>) -> Seq<T> {
    permuted(data, split_shape(shape, widths), block_axes(shape.len()))
}

/// Where an element is found after the rearrangement: the row of its block, the column of its
/// place.
pub open spec fn row_address(coords: Seq<int>, shape: Seq<usize>, widths: Seq<usize>) -> int {
    flat(block_of(coords, widths), block_counts(shape, widths)) * product(widths) + flat(
        within_block(coords, widths),
        widths,
    )
}

// An element of the split tensor: block and place, dimension by dimension.
spec fn interleaved(block: Seq<int>, place: Seq<int>) -> Seq<int> {
    Seq::new(
        2 * block.len(),
        |i: int|
            if i % 2 == 0 {
                block[i / 2]
            } else {
                place[i / 2]
            },
    )
}

proof fn lemma_flat_concat(a: Seq<int>, s: Seq<usize>, b: Seq<int>, t: Seq<usize>)
    requires
        a.len() == s.len(),
        b.len() == t.len(),
    ensures
        flat(a + b, s + t) == flat(a, s) * product(t) + flat(b, t),
        product(s + t) == product(s) * product(t),
    decreases t.len(),
{
    if t.len() == 0 {
        assert(a + b =~= a);
        assert(s + t =~= s);
        assert(flat(a, s) * 1 == flat(a, s) && product(s) * 1 == product(s)) by (nonlinear_arith);
    } else {
        let b1 = b.drop_last();
        let t1 = t.drop_last();
        lemma_flat_concat(a, s, b1, t1);
        assert((a + b).drop_last() =~= a + b1);
        assert((s + t).drop_last() =~= s + t1);
        let (f, p, g, w) = (flat(a, s), product(t1) as int, flat(b1, t1), t.last() as int);
        let (q, last) = (product(s) as int, b.last());
        assert((f * p + g) * w + last == f * (p * w) + (g * w + last)) by (nonlinear_arith);
        assert((q * p) * w == q * (p * w)) by (nonlinear_arith);
        assert(flat(a + b, s + t) == (f * p + g) * w + last);
        assert(product(s + t) == (q * p) * w);
    }
}

proof fn lemma_flat_split(coords: Seq<int>, shape: Seq<usize>, widths: Seq<usize>)
    requires
        coords.len() == shape.len(),
        tiles(shape, widths),
    ensures
        flat(
            interleaved(block_of(coords, widths), within_block(coords, widths)),
            split_shape(shape, widths),
        ) == flat(coords, shape),
        product(split_shape(shape, widths)) == product(shape),
    decreases shape.len(),
{
    let x = interleaved(block_of(coords, widths), within_block(coords, widths));
    let s = split_shape(shape, widths);
    if shape.len() > 0 {
        let n = shape.len() - 1;
        let c1 = coords.drop_last();
        let s1 = shape.drop_last();
        let w1 = widths.drop_last();
        assert(tiles(s1, w1)) by {
            assert forall|d: int| 0 <= d < s1.len() implies #[trigger] w1[d] > 0 && s1[d] as int
                % w1[d] as int == 0 by {
                assert(widths[d] > 0);
            }
        }
        lemma_flat_split(c1, s1, w1);
        let x1 = interleaved(block_of(c1, w1), within_block(c1, w1));
        let y = x.drop_last();
        let t = s.drop_last();
        assert forall|i: int| 0 <= i < x1.len() implies #[trigger] y.drop_last()[i] == x1[i] by {
            assert(0 <= i / 2 < n);
            assert(block_of(coords, widths)[i / 2] == block_of(c1, w1)[i / 2]);
            assert(within_block(coords, widths)[i / 2] == within_block(c1, w1)[i / 2]);
        }
        assert(y.drop_last() =~= x1);
        assert(t.drop_last() =~= split_shape(s1, w1));
        let w = widths[n] as int;
        let count = shape[n] as int / w;
        let c = coords[n];
        assert(widths[n] > 0);
        assert(block_of(coords, widths)[n] == c / w && within_block(coords, widths)[n] == c % w);
        assert(x.last() == c % w && y.last() == c / w);
        assert(s.last() == w && t.last() == count);
        let f = flat(c1, s1);
        vstd::arithmetic::div_mod::lemma_fundamental_div_mod(c, w);
        vstd::arithmetic::div_mod::lemma_fundamental_div_mod(shape[n] as int, w);
        assert((f * count + c / w) * w + c % w == f * shape[n] as int + c) by (nonlinear_arith)
            requires
                c == w * (c / w) + c % w,
                shape[n] as int == w * count,
        ;
        assert(flat(y, t) == f * count + c / w);
        assert(flat(x, s) == flat(y, t) * w + c % w);
        let p = product(s1) as int;
        assert(product(t) == p * count);
        assert(p * count * w == p * shape[n] as int) by (nonlinear_arith)
            requires
                shape[n] as int == w * count,
        ;
    }
}

proof fn lemma_block_coords(coords: Seq<int>, shape: Seq<usize>, widths: Seq<usize>)
    requires
        in_shape(coords, shape),
        tiles(shape, widths),
    ensures
        in_shape(block_of(coords, widths), block_counts(shape, widths)),
        in_shape(within_block(coords, widths), widths),
{
    let b = block_of(coords, widths);
    let p = within_block(coords, widths);
    assert forall|d: int| 0 <= d < shape.len() implies 0 <= #[trigger] b[d] < block_counts(
        shape,
        widths,
    )[d] && 0 <= p[d] < widths[d] by {
        assert(widths[d] > 0 && coords[d] < shape[d]);
        let (c, n, w) = (coords[d], shape[d] as int, widths[d] as int);
        vstd::arithmetic::div_mod::lemma_fundamental_div_mod(n, w);
        assert(n == (n / w) * w) by (nonlinear_arith)
            requires
                n == w * (n / w) + n % w,
                n % w == 0,
        ;
        lemma_split(c, n / w, w);
        assert(b[d] == c / w);
        assert(block_counts(shape, widths)[d] == n / w);
        assert(p[d] == c % w);
    }
    assert forall|d: int| 0 <= d < widths.len() implies 0 <= #[trigger] p[d] < widths[d] by {
        assert(b[d] < block_counts(shape, widths)[d]);
    }
}

proof fn lemma_axes_index(rank: nat, d: int)
    requires
        0 <= d < 2 * rank <= usize::MAX,
    ensures
        block_axes(rank).index_of(d as usize) == if d % 2 == 0 {
            d / 2
        } else {
            rank + d / 2
        },
{
    let axes = block_axes(rank);
    let i = if d % 2 == 0 {
        d / 2
    } else {
        rank + d / 2
    };
    assert(axes[i] == d as usize);
    assert(axes.contains(d as usize));
    let j = axes.index_of(d as usize);
    assert(axes[j] == d as usize);
}

/// The rearranged tensor has one row per block and one column per place: the element at `coords`
/// is found in the row of its block, in the column of its place within the block.
pub proof fn lemma_blocks_become_rows<T>(
    data: Seq<T>,
    shape: Seq<usize>,
    widths: Seq<usize>,
    coords: Seq<int>,
)
    requires
        2 * shape.len() <= usize::MAX,
        data.len() == product(shape),
        tiles(shape, widths),
        in_shape(coords, shape),
    ensures
        product(block_counts(shape, widths)) * product(widths) == data.len(),
        block_rows(data, shape, widths).len() == data.len(),
        0 <= flat(block_of(coords, widths), block_counts(shape, widths)) < product(
            block_counts(shape, widths),
        ),
        0 <= flat(within_block(coords, widths), widths) < product(widths),
        block_rows(data, shape, widths)[row_address(coords, shape, widths)] == data[flat(
            coords,
            shape,
        )],
{
    let rank = shape.len();
    let counts = block_counts(shape, widths);
    let b = block_of(coords, widths);
    let p = within_block(coords, widths);
    let split = split_shape(shape, widths);
    let axes = block_axes(rank);
    let dims = permuted_shape(split, axes);
    assert(dims =~= counts + widths);
    lemma_block_coords(coords, shape, widths);
    lemma_flat_concat(b, counts, p, widths);
    lemma_flat_split(coords, shape, widths);
    lemma_flat_bound(b, counts);
    lemma_flat_bound(p, widths);
    let y = b + p;
    assert(in_shape(y, dims)) by {
        assert forall|i: int| 0 <= i < dims.len() implies 0 <= #[trigger] y[i] < dims[i] by {
            if i < rank {
                assert(b[i] < counts[i]);
            } else {
                assert(p[i - rank] < widths[i - rank]);
            }
        }
    }
    lemma_unflat_flat(y, dims);
    lemma_flat_bound(y, dims);
    assert(source_coords(y, axes) =~= interleaved(b, p)) by {
        assert forall|d: int| 0 <= d < 2 * rank implies source_coords(y, axes)[d] == interleaved(
            b,
            p,
        )[d] by {
            lemma_axes_index(rank, d);
        }
    }
    lemma_counts_times_widths(shape, widths);
}

proof fn lemma_counts_times_widths(shape: Seq<usize>, widths: Seq<usize>)
    requires
        tiles(shape, widths),
    ensures
        product(block_counts(shape, widths)) * product(widths) == product(shape),
    decreases shape.len(),
{
    let counts = block_counts(shape, widths);
    if shape.len() > 0 {
        let n = shape.len() - 1;
        let s1 = shape.drop_last();
        let w1 = widths.drop_last();
        assert(tiles(s1, w1)) by {
            assert forall|d: int| 0 <= d < s1.len() implies #[trigger] w1[d] > 0 && s1[d] as int
                % w1[d] as int == 0 by {
                assert(widths[d] > 0);
            }
        }
        lemma_counts_times_widths(s1, w1);
        assert(counts.drop_last() =~= block_counts(s1, w1));
        assert(widths[n] > 0);
        vstd::arithmetic::div_mod::lemma_fundamental_div_mod(shape[n] as int, widths[n] as int);
        let (a, b, c, w) = (
            product(block_counts(s1, w1)),
            product(w1),
            counts[n] as nat,
            widths[n] as nat,
        );
        assert((a * c) * (b * w) == (a * b) * (w * c)) by (nonlinear_arith);
        assert(shape[n] as nat == w * c);
        assert(product(counts) == a * c && product(widths) == b * w);
        assert(product(shape) == (a * b) * shape[n] as nat);
    } else {
        assert(product(counts) == 1 && product(widths) == 1);
        assert(1nat * 1nat == 1nat);
    }
}

/// Conversely, row `row` holds the elements of one block and of no other, in row-major order of
/// their places.
pub proof fn lemma_rows_are_blocks<T>(
    data: Seq<T>,
    shape: Seq<usize>,
    widths: Seq<usize>,
    row: int,
    column: int,
)
    requires
        2 * shape.len() <= usize::MAX,
        data.len() == product(shape),
        tiles(shape, widths),
        0 <= row < product(block_counts(shape, widths)),
        0 <= column < product(widths),
    ensures
        ({
            let block = unflat(row, block_counts(shape, widths));
            let coords = element_of(block, unflat(column, widths), widths);
            &&& in_shape(coords, shape)
            &&& block_of(coords, widths) == block
            &&& block_rows(data, shape, widths)[row * product(widths) + column] == data[flat(
                coords,
                shape,
            )]
        }),
{
    let counts = block_counts(shape, widths);
    let block = unflat(row, counts);
    let place = unflat(column, widths);
    let coords = element_of(block, place, widths);
    lemma_flat_unflat(row, counts);
    lemma_flat_unflat(column, widths);
    assert forall|d: int| 0 <= d < shape.len() implies 0 <= #[trigger] coords[d] < shape[d] && coords[d]
        / widths[d] as int == block[d] && coords[d] % widths[d] as int == place[d] by {
        assert(0 <= block[d] < counts[d] && 0 <= place[d] < widths[d] && widths[d] > 0);
        let (c, p, n, w) = (block[d], place[d], shape[d] as int, widths[d] as int);
        vstd::arithmetic::div_mod::lemma_fundamental_div_mod(n, w);
        assert(n == (n / w) * w) by (nonlinear_arith)
            requires
                n == w * (n / w) + n % w,
                n % w == 0,
        ;
        lemma_pair(c, w, p);
        lemma_pair_bound(c, n / w, w, p);
        assert(counts[d] == n / w);
        assert(coords[d] == c * w + p);
    }
    assert(in_shape(coords, shape));
    assert forall|d: int| 0 <= d < shape.len() implies block_of(coords, widths)[d] == block[d]
        && within_block(coords, widths)[d] == place[d] by {
        assert(coords[d] < shape[d]);
    }
    assert(block_of(coords, widths) =~= block);
    assert(within_block(coords, widths) =~= place);
    lemma_blocks_become_rows(data, shape, widths, coords);
}

/// The block occupies a suffix of the tensor: behind a dimension in which it is wider than one
/// entry, it takes whole dimensions.
pub open spec fn occupies_suffix(shape: Seq<usize>, widths: Seq<usize>) -> bool {
    forall|d: int, e: int|
        0 <= d < e < shape.len() ==> #[trigger] widths[d] == 1 || #[trigger] widths[e] == shape[e]
}

/// Where the block occupies a suffix of the tensor, blocks already are contiguous: the
/// rearrangement moves nothing, and a plain reshape does the same.
pub proof fn lemma_suffix_blocks_stay(shape: Seq<usize>, widths: Seq<usize>, coords: Seq<int>)
    requires
        tiles(shape, widths),
        in_shape(coords, shape),
        occupies_suffix(shape, widths),
    ensures
        row_address(coords, shape, widths) == flat(coords, shape),
{
    if exists|d: int| 0 <= d < shape.len() && #[trigger] widths[d] != 1 {
        let k = lemma_first_wide(widths, 0);
        assert forall|d: int| 0 <= d < shape.len() && d > k implies #[trigger] widths[d]
            == shape[d] by {
            assert(widths[k] != 1);
        }
        lemma_suffix_from(shape, widths, k, coords);
    } else {
        lemma_suffix_from(shape, widths, shape.len() as int, coords);
    }
}

// The first dimension in which the block is wider than one entry.
proof fn lemma_first_wide(widths: Seq<usize>, from: int) -> (k: int)
    requires
        0 <= from,
        forall|d: int| 0 <= d < from && d < widths.len() ==> #[trigger] widths[d] == 1,
        exists|d: int| 0 <= d < widths.len() && #[trigger] widths[d] != 1,
    ensures
        0 <= k < widths.len(),
        widths[k] != 1,
        forall|d: int| 0 <= d < k ==> #[trigger] widths[d] == 1,
    decreases widths.len() - from,
{
    let w = choose|d: int| 0 <= d < widths.len() && #[trigger] widths[d] != 1;
    assert(w >= from);
    if widths[from] != 1 {
        from
    } else {
        lemma_first_wide(widths, from + 1)
    }
}

/// Elsewhere a plain reshape mixes blocks: where a dimension wider than one entry has several
/// blocks along a later dimension behind it, some element is moved by the rearrangement.
pub proof fn lemma_other_blocks_move(shape: Seq<usize>, widths: Seq<usize>)
    requires
        tiles(shape, widths),
        forall|d: int| 0 <= d < shape.len() ==> #[trigger] shape[d] > 0,
        !occupies_suffix(shape, widths),
    ensures
        exists|coords: Seq<int>| #[trigger]
            in_shape(coords, shape) && row_address(coords, shape, widths) != flat(coords, shape),
{
    let (d, e) = choose|d: int, e: int|
        0 <= d < e < shape.len() && #[trigger] widths[d] != 1 && #[trigger] widths[e] != shape[e];
    let coords = unit_coords(shape.len(), d);
    assert forall|i: int| 0 <= i < shape.len() implies 0 <= #[trigger] coords[i] < shape[i]
        && widths[i] <= shape[i] by {
        assert(widths[i] > 0 && shape[i] > 0);
        lemma_width_fits(shape[i] as int, widths[i] as int);
    }
    assert(widths[d] > 1);
    assert forall|i: int| 0 <= i < shape.len() implies block_of(coords, widths)[i] == 0
        && within_block(coords, widths)[i] == coords[i] by {
        assert(widths[i] > 0);
        vstd::arithmetic::div_mod::lemma_basic_div(coords[i], widths[i] as int);
        vstd::arithmetic::div_mod::lemma_small_mod(coords[i] as nat, widths[i] as nat);
    }
    let counts = block_counts(shape, widths);
    assert(block_of(coords, widths) =~= Seq::new(shape.len(), |i: int| 0int));
    assert(within_block(coords, widths) =~= coords);
    lemma_flat_zero(counts);
    assert(flat(block_of(coords, widths), counts) == 0) by {
        assert(counts.len() == shape.len());
    }
    lemma_flat_unit(shape, d);
    lemma_flat_unit(widths, d);
    assert(0 * product(widths) as int == 0) by (nonlinear_arith);
    assert forall|i: int| 0 <= i < widths.skip(d + 1).len() implies 0 < #[trigger] widths.skip(
        d + 1,
    )[i] <= shape.skip(d + 1)[i] by {
        assert(0 <= coords[i + d + 1] < shape[i + d + 1]);
        assert(widths[i + d + 1] > 0);
    }
    lemma_product_less(widths.skip(d + 1), shape.skip(d + 1), e - d - 1);
    assert(in_shape(coords, shape));
}

// The element that is one step along dimension `d` from the first one.
spec fn unit_coords(rank: nat, d: int) -> Seq<int> {
    Seq::new(
        rank,
        |i: int|
            if i == d {
                1int
            } else {
                0int
            },
    )
}

proof fn lemma_width_fits(n: int, w: int)
    requires
        n > 0,
        w > 0,
        n % w == 0,
    ensures
        w <= n,
{
    if w > n {
        vstd::arithmetic::div_mod::lemma_small_mod(n as nat, w as nat);
    }
}

proof fn lemma_flat_zero(shape: Seq<usize>)
    ensures
        flat(Seq::new(shape.len(), |i: int| 0int), shape) == 0,
    decreases shape.len(),
{
    let zero = Seq::new(shape.len(), |i: int| 0int);
    if shape.len() > 0 {
        let s = shape.drop_last();
        lemma_flat_zero(s);
        assert(zero.drop_last() =~= Seq::new(s.len(), |i: int| 0int));
        assert(0 * shape.last() as int == 0) by (nonlinear_arith);
    }
}

proof fn lemma_flat_unit(shape: Seq<usize>, d: int)
    requires
        0 <= d < shape.len(),
    ensures
        flat(unit_coords(shape.len(), d), shape) == product(shape.skip(d + 1)),
    decreases shape.len(),
{
    let n = shape.len() - 1;
    let s = shape.drop_last();
    let coords = unit_coords(shape.len(), d);
    if d == n {
        lemma_flat_zero(s);
        assert(coords.drop_last() =~= Seq::new(s.len(), |i: int| 0int));
        assert(0 * shape.last() as int == 0) by (nonlinear_arith);
        assert(shape.skip(d + 1) =~= Seq::<usize>::empty());
        assert(product(shape.skip(d + 1)) == 1);
    } else {
        lemma_flat_unit(s, d);
        assert(coords.drop_last() =~= unit_coords(s.len(), d));
        assert(shape.skip(d + 1).drop_last() =~= s.skip(d + 1));
        assert(shape.skip(d + 1).last() == shape.last());
    }
}

// Narrower dimensions, one of them strictly, have fewer elements.
proof fn lemma_product_less(narrow: Seq<usize>, wide: Seq<usize>, e: int)
    requires
        narrow.len() == wide.len(),
        0 <= e < narrow.len(),
        forall|i: int| 0 <= i < narrow.len() ==> 0 < #[trigger] narrow[i] <= wide[i],
        narrow[e] < wide[e],
    ensures
        product(narrow) < product(wide),
    decreases narrow.len(),
{
    let (a, b) = (narrow.drop_last(), wide.drop_last());
    let n = narrow.len() - 1;
    let (x, y) = (narrow.last() as nat, wide.last() as nat);
    assert(0 < narrow[n] <= wide[n]);
    assert forall|i: int| 0 <= i < a.len() implies 0 < #[trigger] a[i] <= b[i] by {
        assert(0 < narrow[i] <= wide[i]);
    }
    if e < n {
        lemma_product_less(a, b, e);
        assert(product(a) * x < product(b) * y) by (nonlinear_arith)
            requires
                product(a) < product(b),
                0 < x <= y,
        ;
    } else {
        lemma_product_at_most(a, b);
        assert forall|i: int| 0 <= i < b.len() implies #[trigger] b[i] > 0 by {
            assert(0 < a[i] <= b[i]);
        }
        crate::shape::lemma_product_positive(b);
        assert(product(a) * x < product(b) * y) by (nonlinear_arith)
            requires
                product(a) <= product(b),
                product(b) > 0,
                0 < x < y,
        ;
    }
}

proof fn lemma_product_at_most(narrow: Seq<usize>, wide: Seq<usize>)
    requires
        narrow.len() == wide.len(),
        forall|i: int| 0 <= i < narrow.len() ==> 0 < #[trigger] narrow[i] <= wide[i],
    ensures
        product(narrow) <= product(wide),
    decreases narrow.len(),
{
    if narrow.len() > 0 {
        let (a, b) = (narrow.drop_last(), wide.drop_last());
        assert forall|i: int| 0 <= i < a.len() implies 0 < #[trigger] a[i] <= b[i] by {
            assert(0 < narrow[i] <= wide[i]);
        }
        lemma_product_at_most(a, b);
        let n = narrow.len() - 1;
        assert(0 < narrow[n] <= wide[n]);
        let (x, y) = (narrow.last() as nat, wide.last() as nat);
        assert(product(a) * x <= product(b) * y) by (nonlinear_arith)
            requires
                product(a) <= product(b),
                0 < x <= y,
        ;
    }
}

// With single entries before dimension `k` and whole dimensions behind it, nothing moves.
proof fn lemma_suffix_from(
    shape: Seq<usize>,
    widths: Seq<usize>,
    k: int,
    coords: Seq<int>,
)
    requires
        tiles(shape, widths),
        in_shape(coords, shape),
        forall|d: int| 0 <= d < shape.len() && d < k ==> #[trigger] widths[d] == 1,
        forall|d: int| 0 <= d < shape.len() && d > k ==> #[trigger] widths[d] == shape[d],
    ensures
        row_address(coords, shape, widths) == flat(coords, shape),
    decreases shape.len(),
{
    let counts = block_counts(shape, widths);
    let b = block_of(coords, widths);
    let p = within_block(coords, widths);
    if shape.len() > 0 {
        let n = shape.len() - 1;
        let (c1, s1, w1) = (coords.drop_last(), shape.drop_last(), widths.drop_last());
        assert(tiles(s1, w1)) by {
            assert forall|d: int| 0 <= d < s1.len() implies #[trigger] w1[d] > 0 && s1[d] as int
                % w1[d] as int == 0 by {
                assert(widths[d] > 0);
            }
        }
        assert(in_shape(c1, s1)) by {
            assert forall|d: int| 0 <= d < s1.len() implies 0 <= #[trigger] c1[d] < s1[d] by {
                assert(0 <= coords[d] < shape[d]);
            }
        }
        assert forall|d: int| 0 <= d < s1.len() && d < k implies #[trigger] w1[d] == 1 by {
            assert(widths[d] == 1);
        }
        assert forall|d: int| 0 <= d < s1.len() && d > k implies #[trigger] w1[d] == s1[d] by {
            assert(widths[d] == shape[d]);
        }
        lemma_suffix_from(s1, w1, k, c1);
        assert(counts.drop_last() =~= block_counts(s1, w1));
        assert(b.drop_last() =~= block_of(c1, w1));
        assert(p.drop_last() =~= within_block(c1, w1));
        let f = flat(block_of(c1, w1), block_counts(s1, w1));
        let g = flat(within_block(c1, w1), w1);
        let (c, m, w, x) = (coords[n], counts[n] as int, widths[n] as int, shape[n] as int);
        let v = product(w1) as int;
        assert(widths[n] > 0 && 0 <= coords[n] < shape[n]);
        assert(b.last() == c / w && p.last() == c % w);
        vstd::arithmetic::div_mod::lemma_fundamental_div_mod(c, w);
        vstd::arithmetic::div_mod::lemma_fundamental_div_mod(x, w);
        if n > k {
            assert(m == 1 && c / w == 0 && c % w == c) by {
                vstd::arithmetic::div_mod::lemma_div_by_self(x);
                vstd::arithmetic::div_mod::lemma_basic_div(c, w);
                vstd::arithmetic::div_mod::lemma_small_mod(c as nat, w as nat);
            }
            assert((f * 1 + 0) * (v * w) + (g * w + c) == (f * v + g) * w + c) by (nonlinear_arith);
        } else {
            assert(v == 1 && g == 0) by {
                lemma_unit_blocks(c1, w1);
            }
            assert((f * m + c / w) * (1 * w) + (0 * w + c % w) == f * x + c) by (nonlinear_arith)
                requires
                    c == w * (c / w) + c % w,
                    x == w * m,
            ;
            assert(f * v + g == f) by (nonlinear_arith)
                requires
                    v == 1,
                    g == 0,
            ;
        }
        assert(flat(b, counts) == f * m + c / w);
        assert(flat(p, widths) == g * w + c % w);
        assert(product(widths) == v * w);
    }
}

proof fn lemma_unit_blocks(coords: Seq<int>, widths: Seq<usize>)
    requires
        coords.len() == widths.len(),
        forall|d: int| 0 <= d < widths.len() ==> #[trigger] widths[d] == 1,
    ensures
        product(widths) == 1,
        flat(within_block(coords, widths), widths) == 0,
    decreases widths.len(),
{
    if widths.len() > 0 {
        let (c1, w1) = (coords.drop_last(), widths.drop_last());
        assert forall|d: int| 0 <= d < w1.len() implies #[trigger] w1[d] == 1 by {
            assert(widths[d] == 1);
        }
        lemma_unit_blocks(c1, w1);
        assert(widths[widths.len() - 1] == 1);
        assert(within_block(coords, widths).drop_last() =~= within_block(c1, w1));
        assert(within_block(coords, widths).last() == 0);
    }
}

/// Widths of a block in a tensor of this rank.
pub open spec fn block_widths(block: BlockSize, rank: nat) -> Seq<usize> {
    Seq::new(rank, |d: int| fitted(block_dims(block), rank)[d] as usize)
}

/// Some dimension of the block is empty.
pub open spec fn has_empty(widths: Seq<usize>) -> bool {
    exists|d: int| 0 <= d < widths.len() && #[trigger] widths[d] == 0
}

/// What is wrong with the block along one dimension.
pub open spec fn fault(shape: Seq<usize>, widths: Seq<usize>, d: int) -> Option<Rejection> {
    if widths[d] == 0 {
        Some(Rejection::ZeroBlock)
    } else if shape[d] as int % widths[d] as int != 0 {
        Some(Rejection::UnevenBlock)
    } else {
        None
    }
}

/// `reason` is the fault of the first dimension that has one.
pub open spec fn first_fault(shape: Seq<usize>, widths: Seq<usize>, reason: Rejection) -> bool {
    exists|d: int|
        0 <= d < shape.len() && #[trigger] fault(shape, widths, d) == Some(reason) && forall|c: int|
            0 <= c < d ==> #[trigger] fault(shape, widths, c) is None
}

/// How to rearrange a tensor: reshape it to `split_shape`, reorder its axes as `axes` says, and
/// reshape it to `[num_blocks, block_elems]`.
#[derive(Clone, Debug, PartialEq, Eq)]
pub struct BlocksPlan {
    /// Every dimension split into block count and block width.
    pub split_shape: Vec<usize>,
    /// Order of the split dimensions: counts, then widths.
    pub axes: Vec<usize>,
    /// Number of rows.
    pub num_blocks: usize,
    /// Length of a row.
    pub block_elems: usize,
}

impl BlocksPlan {
    /// The plan makes rows out of blocks of these widths.
    pub open spec fn makes_rows(self, shape: Seq<usize>, widths: Seq<usize>) -> bool {
        &&& self.split_shape@ == split_shape(shape, widths)
        &&& self.axes@ == block_axes(shape.len())
        &&& self.num_blocks == product(block_counts(shape, widths))
        &&& self.block_elems == product(widths)
    }
}

/// Plans the rearrangement of a tensor so that each block is one contiguous row. Every source
/// dimension is split into block count and block width, all counts move before all widths, and the
/// two groups are flattened.
pub fn blocks(shape: &Vec<usize>, block: &BlockSize) -> (plan: Result<BlocksPlan, Rejection>)
    ensures
        ({
            let widths = block_widths(*block, shape@.len());
            match plan {
                Ok(plan) => tiles(shape@, widths) && plan.makes_rows(shape@, widths),
                Err(Rejection::TooLarge) => tiles(shape@, widths) && (2 * shape@.len() > usize::MAX
                    || product(block_counts(shape@, widths)) > usize::MAX || product(widths)
                    > usize::MAX),
                Err(reason) => first_fault(shape@, widths, reason),
            }
        }),
{
    let rank: usize = shape.len();
    let dims = block.to_dim_vec(rank);
    let ghost widths = block_widths(*block, shape@.len());
    let mut split: Vec<usize> = Vec::new();
    let mut counts: Vec<usize> = Vec::new();
    let mut sizes: Vec<usize> = Vec::new();
    let mut d: usize = 0;
    while d < rank
        invariant
            rank == shape@.len(),
            dims@ == fitted(block_dims(*block), rank as nat),
            dims@.len() == rank,
            widths == block_widths(*block, shape@.len()),
            d <= rank,
            split@.len() == 2 * d,
            counts@.len() == d,
            sizes@.len() == d,
            forall|c: int| 0 <= c < d ==> #[trigger] fault(shape@, widths, c) is None,
            forall|c: int|
                0 <= c < d ==> #[trigger] counts@[c] == shape@[c] / widths[c] && sizes@[c]
                    == widths[c],
            forall|i: int| 0 <= i < 2 * d ==> #[trigger] split@[i] == split_shape(shape@, widths)[i],
        decreases rank - d,
    {
        let width: usize = dims[d] as usize;
        assert(width == widths[d as int]);
        if width == 0 {
            assert(fault(shape@, widths, d as int) == Some(Rejection::ZeroBlock));
            return Err(Rejection::ZeroBlock);
        }
        let dim: usize = shape[d];
        if dim % width != 0 {
            assert(fault(shape@, widths, d as int) == Some(Rejection::UnevenBlock));
            return Err(Rejection::UnevenBlock);
        }
        split.push(dim / width);
        split.push(width);
        counts.push(dim / width);
        sizes.push(width);
        d = d + 1;
    }
    proof {
        assert forall|c: int| 0 <= c < shape@.len() implies #[trigger] widths[c] > 0
            && shape@[c] as int % widths[c] as int == 0 by {
            assert(fault(shape@, widths, c) is None);
        }
        assert(split@ =~= split_shape(shape@, widths));
        assert(counts@ =~= block_counts(shape@, widths));
        assert forall|c: int| 0 <= c < rank implies #[trigger] sizes@[c] == widths[c] by {
            assert(counts@[c] == shape@[c] / widths[c]);
        }
        assert(sizes@ =~= widths);
    }
    if rank > usize::MAX / 2 {
        return Err(Rejection::TooLarge);
    }
    let mut axes: Vec<usize> = Vec::new();
    let mut i: usize = 0;
    while i < 2 * rank
        invariant
            rank <= usize::MAX / 2,
            i <= 2 * rank,
            axes@.len() == i,
            forall|j: int| 0 <= j < i ==> #[trigger] axes@[j] == block_axes(rank as nat)[j],
        decreases 2 * rank - i,
    {
        if i < rank {
            axes.push(2 * i);
        } else {
            axes.push(2 * (i - rank) + 1);
        }
        i = i + 1;
    }
    assert(axes@ =~= block_axes(rank as nat));
    match (num_elements(&counts), num_elements(&sizes)) {
        (Some(num_blocks), Some(block_elems)) => Ok(
            BlocksPlan { split_shape: split, axes, num_blocks, block_elems },
        ),
        _ => Err(Rejection::TooLarge),
    }
}

/// One value per row fills a tensor with one element per block, and the rows hold every element.
pub proof fn lemma_one_value_per_block(shape: Seq<usize>, widths: Seq<usize>, plan: BlocksPlan)
    requires
        tiles(shape, widths),
        plan.makes_rows(shape, widths),
    ensures
        product(block_counts(shape, widths)) == plan.num_blocks,
        plan.num_blocks * plan.block_elems == product(shape),
{
    lemma_counts_times_widths(shape, widths);
}

} // verus!
