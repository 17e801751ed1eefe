//! Shapes, row-major addresses and the positions that parallel units take in turn.

use vstd::arithmetic::div_mod::{lemma_fundamental_div_mod_converse, lemma_mod_bound};
use vstd::prelude::*;

verus! {

/// Number of elements of a tensor with these dimensions.
pub open spec fn product(dims: Seq<usize>) -> nat
    decreases dims.len(),
{
    if dims.len() == 0 {
        1
    } else {
        product(dims.drop_last()) * dims.last() as nat
    }
}

/// `coords` names an element of a tensor of this shape.
pub open spec fn in_shape(coords: Seq<int>, shape: Seq<usize>) -> bool {
    &&& coords.len() == shape.len()
    &&& forall|d: int| 0 <= d < shape.len() ==> 0 <= #[trigger] coords[d] < shape[d]
}

/// Row-major address of an element: the last dimension varies fastest.
pub open spec fn flat(coords: Seq<int>, shape: Seq<usize>) -> int
    decreases shape.len(),
{
    if shape.len() == 0 {
        0
    } else {
        flat(coords.drop_last(), shape.drop_last()) * shape.last() as int + coords.last()
    }
}

/// The element at a row-major address.
pub open spec fn unflat(address: int, shape: Seq<usize>) -> Seq<int>
    decreases shape.len(),
{
    if shape.len() == 0 {
        Seq::empty()
    } else {
        unflat(address / shape.last() as int, shape.drop_last()).push(
            address % shape.last() as int,
        )
    }
}

/// Dividing `i * b + j` by `b` gives back `i` and `j`.
pub proof fn lemma_pair(i: int, b: int, j: int)
    requires
        0 <= j < b,
    ensures
        (i * b + j) / b == i,
        (i * b + j) % b == j,
{
    lemma_fundamental_div_mod_converse(i * b + j, b, i, j);
}

/// A pair of a row and a place within the row has an address below rows times row length.
pub proof fn lemma_pair_bound(i: int, a: int, b: int, j: int)
    requires
        0 <= i < a,
        0 <= j < b,
    ensures
        0 <= i * b + j < a * b,
        i * b + j <= a * b - 1,
{
    assert(0 <= i * b && i * b + b <= a * b) by (nonlinear_arith)
        requires
            0 <= i < a,
            0 < b,
    ;
}

/// Splitting an address by the row length and putting it together again gives it back.
pub proof fn lemma_split(x: int, a: int, b: int)
    requires
        0 <= x < a * b,
        0 < b,
    ensures
        0 <= x / b < a,
        0 <= x % b < b,
        (x / b) * b + x % b == x,
{
    vstd::arithmetic::div_mod::lemma_fundamental_div_mod(x, b);
    lemma_mod_bound(x, b);
    let q = x / b;
    assert((x / b) * b == b * (x / b)) by (nonlinear_arith);
    assert(q < a) by (nonlinear_arith)
        requires
            q * b + x % b == x,
            x < a * b,
            0 <= x % b,
            0 < b,
    ;
    assert(q >= 0) by (nonlinear_arith)
        requires
            q * b + x % b == x,
            x >= 0,
            x % b < b,
            0 < b,
    ;
}

/// Every element has an address within the tensor.
pub proof fn lemma_flat_bound(coords: Seq<int>, shape: Seq<usize>)
    requires
        in_shape(coords, shape),
    ensures
        0 <= flat(coords, shape) < product(shape),
    decreases shape.len(),
{
    if shape.len() > 0 {
        let c = coords.drop_last();
        let s = shape.drop_last();
        assert(in_shape(c, s)) by {
            assert forall|d: int| 0 <= d < s.len() implies 0 <= #[trigger] c[d] < s[d] by {
                assert(coords[d] < shape[d]);
            }
        }
        lemma_flat_bound(c, s);
        assert(coords[shape.len() - 1] < shape[shape.len() - 1]);
        lemma_pair_bound(
            flat(c, s),
            product(s) as int,
            shape.last() as int,
            coords.last(),
        );
    }
}

/// The element at the address of an element is that element: no two elements share an address.
pub proof fn lemma_unflat_flat(coords: Seq<int>, shape: Seq<usize>)
    requires
        in_shape(coords, shape),
    ensures
        unflat(flat(coords, shape), shape) == coords,
    decreases shape.len(),
{
    if shape.len() > 0 {
        let c = coords.drop_last();
        let s = shape.drop_last();
        assert(in_shape(c, s)) by {
            assert forall|d: int| 0 <= d < s.len() implies 0 <= #[trigger] c[d] < s[d] by {
                assert(coords[d] < shape[d]);
            }
        }
        lemma_unflat_flat(c, s);
        assert(coords[shape.len() - 1] < shape[shape.len() - 1]);
        lemma_pair(flat(c, s), shape.last() as int, coords.last());
        assert(c.push(coords.last()) =~= coords);
    }
    assert(unflat(flat(coords, shape), shape) =~= coords);
}

/// Every address below the number of elements is that of an element.
pub proof fn lemma_flat_unflat(address: int, shape: Seq<usize>)
    requires
        0 <= address < product(shape),
    ensures
        in_shape(unflat(address, shape), shape),
        flat(unflat(address, shape), shape) == address,
    decreases shape.len(),
{
    if shape.len() > 0 {
        let s = shape.drop_last();
        let b = shape.last() as int;
        let a = product(s) as int;
        assert(b > 0) by (nonlinear_arith)
            requires
                0 <= address < a * b,
                b >= 0,
                a >= 0,
        ;
        lemma_split(address, a, b);
        lemma_flat_unflat(address / b, s);
        let c = unflat(address / b, s);
        let coords = unflat(address, shape);
        assert(coords.drop_last() =~= c);
        assert forall|d: int| 0 <= d < shape.len() implies 0 <= #[trigger] coords[d] < shape[d] by {
            if d < s.len() {
                assert(c[d] < s[d]);
            }
        }
    }
}

/// A tensor without an empty dimension has at least one element.
pub proof fn lemma_product_positive(dims: Seq<usize>)
    requires
        forall|d: int| 0 <= d < dims.len() ==> #[trigger] dims[d] > 0,
    ensures
        product(dims) > 0,
    decreases dims.len(),
{
    if dims.len() > 0 {
        let s = dims.drop_last();
        assert forall|d: int| 0 <= d < s.len() implies #[trigger] s[d] > 0 by {
            assert(dims[d] > 0);
        }
        lemma_product_positive(s);
        assert(dims[dims.len() - 1] > 0);
        assert(product(s) * dims.last() as nat > 0) by (nonlinear_arith)
            requires
                product(s) > 0,
                dims.last() > 0,
        ;
    }
}

/// A tensor with an empty dimension has no element.
pub proof fn lemma_product_zero(dims: Seq<usize>, d: int)
    requires
        0 <= d < dims.len(),
        dims[d] == 0,
    ensures
        product(dims) == 0,
    decreases dims.len(),
{
    if d < dims.len() - 1 {
        lemma_product_zero(dims.drop_last(), d);
    }
    assert(product(dims.drop_last()) * dims.last() as nat == 0) by (nonlinear_arith)
        requires
            product(dims.drop_last()) == 0 || dims.last() == 0,
    ;
}

// The first dimensions of a tensor without an empty one have no more elements than the whole.
proof fn lemma_product_prefix(dims: Seq<usize>, n: int)
    requires
        0 <= n <= dims.len(),
        forall|d: int| 0 <= d < dims.len() ==> #[trigger] dims[d] > 0,
    ensures
        product(dims.take(n)) <= product(dims),
    decreases dims.len(),
{
    if n == dims.len() {
        assert(dims.take(n) =~= dims);
    } else {
        let s = dims.drop_last();
        assert forall|d: int| 0 <= d < s.len() implies #[trigger] s[d] > 0 by {
            assert(dims[d] > 0);
        }
        lemma_product_prefix(s, n);
        assert(s.take(n) =~= dims.take(n));
        assert(dims[dims.len() - 1] > 0);
        assert(product(s) <= product(s) * dims.last() as nat) by (nonlinear_arith)
            requires
                dims.last() > 0,
        ;
    }
}

/// Number of elements, or `None` where it does not fit into a `usize`.
pub fn num_elements(dims: &Vec<usize>) -> (count: Option<usize>)
    ensures
        match count {
            Some(n) => n == product(dims@),
            None => product(dims@) > usize::MAX,
        },
{
    let mut i: usize = 0;
    while i < dims.len()
        invariant
            i <= dims@.len(),
            forall|d: int| 0 <= d < i ==> #[trigger] dims@[d] > 0,
        decreases dims@.len() - i,
    {
        if dims[i] == 0 {
            proof {
                lemma_product_zero(dims@, i as int);
            }
            return Some(0);
        }
        i = i + 1;
    }
    let mut count: usize = 1;
    i = 0;
    assert(dims@.take(0) =~= Seq::<usize>::empty());
    while i < dims.len()
        invariant
            i <= dims@.len(),
            forall|d: int| 0 <= d < dims@.len() ==> #[trigger] dims@[d] > 0,
            count == product(dims@.take(i as int)),
        decreases dims@.len() - i,
    {
        proof {
            assert(dims@.take(i + 1).drop_last() =~= dims@.take(i as int));
            assert(dims@.take(i + 1).last() == dims@[i as int]);
            lemma_product_prefix(dims@, i + 1);
        }
        match count.checked_mul(dims[i]) {
            Some(next) => {
                count = next;
            },
            None => {
                return None;
            },
        }
        i = i + 1;
    }
    assert(dims@.take(i as int) =~= dims@);
    Some(count)
}

/// A copy of some dimensions.
pub fn copied(dims: &Vec<usize>) -> (copy: Vec<usize>)
    ensures
        copy@ == dims@,
{
    let copy = dims.clone();
    assert(copy@ =~= dims@);
    copy
}

/// The quotient rounded up.
pub open spec fn ceil_div(n: int, d: int) -> int {
    (n + d - 1) / d
}

/// The quotient rounded up.
pub fn div_ceil(n: usize, d: usize) -> (q: usize)
    requires
        d > 0,
    ensures
        q == ceil_div(n as int, d as int),
{
    let q: usize = n / d;
    proof {
        vstd::arithmetic::div_mod::lemma_fundamental_div_mod(n as int, d as int);
        let (x, y, r) = (n as int, d as int, n as int % d as int);
        assert(x == y * (x / y) + r);
        if r == 0 {
            assert(x + y - 1 == (x / y) * y + (y - 1)) by (nonlinear_arith)
                requires
                    x == y * (x / y) + r,
                    r == 0,
            ;
            lemma_pair(x / y, y, y - 1);
        } else {
            assert(x + y - 1 == (x / y + 1) * y + (r - 1)) by (nonlinear_arith)
                requires
                    x == y * (x / y) + r,
            ;
            lemma_pair(x / y + 1, y, r - 1);
            assert(x / y < x || x < y) by (nonlinear_arith)
                requires
                    x == y * (x / y) + r,
                    0 < r < y,
                    x >= 0,
            ;
            if x < y {
                vstd::arithmetic::div_mod::lemma_basic_div(x, y);
            }
        }
    }
    if n % d == 0 {
        q
    } else {
        q + 1
    }
}

/// The low thirty-two bits of a count, which is what a launch is given.
pub open spec fn low_word(n: int) -> int {
    n % 0x1_0000_0000
}

/// The low thirty-two bits of a count.
pub fn truncate(n: usize) -> (word: u32)
    ensures
        word == low_word(n as int),
{
    let wide: u64 = n as u64;
    let word: u32 = (wide & 0xffff_ffff) as u32;
    assert((wide & 0xffff_ffff) == wide % 0x1_0000_0000 && (wide & 0xffff_ffff) <= 0xffff_ffff)
        by (bit_vector);
    word
}

/// The positions below `len` that the unit at `start` takes when it advances by `step`.
pub open spec fn strided(start: int, step: int, len: int) -> Seq<int> {
    Seq::new(strided_len(start, step, len), |k: int| start + k * step)
}

/// How many positions that are.
pub open spec fn strided_len(start: int, step: int, len: int) -> nat {
    if start < len {
        ceil_div(len - start, step) as nat
    } else {
        0
    }
}

/// Units that start at `0..step` and advance by `step` share out the positions below `len`: the
/// unit at `i % step` takes position `i`, in turn `i / step`, and no unit takes it otherwise.
pub proof fn lemma_strided_partition(step: int, len: int, i: int)
    requires
        0 < step,
        0 <= i < len,
    ensures
        0 <= i % step < step,
        0 <= i / step < strided_len(i % step, step, len),
        strided(i % step, step, len)[i / step] == i,
        forall|start: int, k: int|
            0 <= start < step && 0 <= k < strided_len(start, step, len) && #[trigger] strided(
                start,
                step,
                len,
            )[k] == i ==> start == i % step && k == i / step,
{
    lemma_strided_position(i % step, step, len, i / step);
    vstd::arithmetic::div_mod::lemma_fundamental_div_mod(i, step);
    lemma_mod_bound(i, step);
    vstd::arithmetic::div_mod::lemma_div_pos_is_pos(i, step);
    assert((i / step) * step == step * (i / step)) by (nonlinear_arith);
    assert forall|start: int, k: int|
        0 <= start < step && 0 <= k < strided_len(start, step, len) && #[trigger] strided(
            start,
            step,
            len,
        )[k] == i implies start == i % step && k == i / step by {
        lemma_pair(k, step, start);
    }
}

/// A unit takes positions below `len` only.
pub proof fn lemma_strided_bound(start: int, step: int, len: int, k: int)
    requires
        0 < step,
        0 <= start,
        0 <= k < strided_len(start, step, len),
    ensures
        0 <= strided(start, step, len)[k] < len,
{
    lemma_strided_position(start, step, len, k);
    assert(k * step >= 0) by (nonlinear_arith)
        requires
            k >= 0,
            step > 0,
    ;
}

/// Turn `k` exists exactly when its position is below `len`.
pub proof fn lemma_strided_position(start: int, step: int, len: int, k: int)
    requires
        0 < step,
        0 <= start,
        0 <= k,
    ensures
        k < strided_len(start, step, len) <==> start + k * step < len,
{
    assert(k * step >= 0) by (nonlinear_arith)
        requires
            k >= 0,
            step > 0,
    ;
    if start < len {
        let n = len - start;
        let q = ceil_div(n, step);
        vstd::arithmetic::div_mod::lemma_fundamental_div_mod(n + step - 1, step);
        lemma_mod_bound(n + step - 1, step);
        vstd::arithmetic::div_mod::lemma_div_pos_is_pos(n + step - 1, step);
        let r = (n + step - 1) % step;
        assert(k < q <==> k * step < n) by (nonlinear_arith)
            requires
                n + step - 1 == step * q + r,
                0 <= r < step,
                0 < step,
        ;
    }
}

/// The positions below `len` that the unit at `start` takes when it advances by `step`.
pub fn strided_positions(start: usize, step: usize, len: usize) -> (positions: Vec<usize>)
    requires
        step > 0,
    ensures
        positions@.len() == strided_len(start as int, step as int, len as int),
        forall|k: int|
            0 <= k < positions@.len() ==> #[trigger] positions@[k] == strided(
                start as int,
                step as int,
                len as int,
            )[k],
{
    let mut positions: Vec<usize> = Vec::new();
    let mut position: usize = start;
    let mut done = start >= len;
    proof {
        assert(0 * step == 0) by (nonlinear_arith);
    }
    while !done
        invariant
            step > 0,
            positions@.len() <= strided_len(start as int, step as int, len as int),
            forall|k: int|
                0 <= k < positions@.len() ==> #[trigger] positions@[k] == strided(
                    start as int,
                    step as int,
                    len as int,
                )[k],
            done ==> positions@.len() == strided_len(start as int, step as int, len as int),
            !done ==> position < len && position == start + positions@.len() * step,
        decreases
                (if done {
                    0
                } else {
                    len - position + 1
                }),
    {
        let ghost k = positions@.len();
        proof {
            lemma_strided_position(start as int, step as int, len as int, k as int);
            lemma_strided_position(start as int, step as int, len as int, (k + 1) as int);
            assert((k + 1) * step == k * step + step) by (nonlinear_arith);
        }
        positions.push(position);
        if step < len - position {
            position = position + step;
        } else {
            done = true;
        }
    }
    positions
}

} // verus!
