//! Tensors in memory: their size, their strides and the addresses of their elements.

use vstd::prelude::*;

use crate::laws::counts::{
    is_large, lemma_elements_of_four, lemma_elements_of_three,
    lemma_elements_of_two, lemma_small_tensors_fit,
};
use crate::plan::{check_parts, have_other_dims, plan_kernel, Kernel, Plan};
use crate::reject::Rejection;
use crate::scheme::DType;
use crate::shape::{
    div_ceil, in_shape, lemma_strided_bound, lemma_strided_partition, num_elements, product, strided,
    strided_positions, truncate,
};
use crate::tensor::{
    address, allocate, last_element, lemma_address_monotone, row_major, Allocation, Launch,
    QuantTensor, TensorInfo,
};

verus! {

/// A new tensor is what was asked for, without gaps: neighbours along the last dimension are next to
/// each other, and along any other dimension as far apart as the next dimension extends. It takes the
/// bytes of all its elements.
pub open spec fn is_allocated(
    allocation: Allocation,
    device: u64,
    dtype: DType,
    shape: Seq<usize>,
    element_bytes: usize,
) -> bool {
    let (tensor, rank) = (allocation.tensor, shape.len());
    &&& tensor.device == device
    &&& tensor.dtype == dtype
    &&& tensor.shape@ == shape
    &&& tensor.strides@.len() == rank
    &&& rank > 0 ==> tensor.strides@[rank - 1] == 1
    &&& forall|d: int|
        0 <= d < rank - 1 ==> #[trigger] tensor.strides@[d] == tensor.strides@[d + 1] * shape[d + 1]
    &&& allocation.bytes == product(shape) * element_bytes
}

// Strides without gaps, one from the next.
proof fn lemma_strides_chain(strides: Seq<usize>, shape: Seq<usize>)
    requires
        row_major(strides, shape),
    ensures
        shape.len() > 0 ==> strides[shape.len() - 1] == 1,
        forall|d: int|
            0 <= d < shape.len() - 1 ==> #[trigger] strides[d] == strides[d + 1] * shape[d + 1],
{
    let rank = shape.len() as int;
    if rank > 0 {
        assert(shape.skip(rank) =~= Seq::<usize>::empty());
        assert(strides[rank - 1] == product(shape.skip(rank - 1 + 1)));
    }
    assert forall|d: int| 0 <= d < rank - 1 implies #[trigger] strides[d] == strides[d + 1] * shape[d
        + 1] by {
        lemma_product_front(shape.skip(d + 1));
        assert(shape.skip(d + 1).drop_first() =~= shape.skip(d + 2));
        assert(strides[d + 1] == product(shape.skip(d + 1 + 1)));
        assert(shape.skip(d + 1)[0] == shape[d + 1]);
        let (a, b) = (shape[d + 1] as int, product(shape.skip(d + 2)) as int);
        assert(a * b == b * a) by (nonlinear_arith);
    }
}

// The number of elements, by the first dimension.
proof fn lemma_product_front(dims: Seq<usize>)
    requires
        dims.len() > 0,
    ensures
        product(dims) == dims[0] * product(dims.drop_first()),
    decreases dims.len(),
{
    if dims.len() == 1 {
        assert(dims.drop_last() =~= Seq::<usize>::empty());
        assert(dims.drop_first() =~= Seq::<usize>::empty());
        assert(1 * dims[0] as nat == dims[0] * 1) by (nonlinear_arith);
    } else {
        let front = dims.drop_last();
        lemma_product_front(front);
        assert(front.drop_first() =~= dims.drop_first().drop_last());
        let (a, b, c) = (
            dims[0] as int,
            product(front.drop_first()) as int,
            dims.last() as int,
        );
        assert((a * b) * c == a * (b * c)) by (nonlinear_arith);
    }
}

/// A tensor that fits the machine is created as asked for, and only one that is large is not.
pub proof fn lemma_allocate(
    device: u64,
    dtype: DType,
    shape: Vec<usize>,
    element_bytes: usize,
    answer: Option<Allocation>,
)
    requires
        call_ensures(allocate, (device, &dtype, shape), answer),
        call_ensures(DType::size, (&dtype,), element_bytes),
    ensures
        match answer {
            Some(allocation) => is_allocated(allocation, device, dtype, shape@, element_bytes)
                && product(shape@) * element_bytes <= usize::MAX,
            None => is_large(shape@, dtype),
        },
{
    if let Some(allocation) = answer {
        lemma_strides_chain(allocation.tensor.strides@, shape@);
    } else if !is_large(shape@, dtype) {
        lemma_small_tensors_fit(shape@, dtype);
    }
}

/// A planned kernel is the one asked for, with its launch and a new tensor.
pub proof fn lemma_plan_kernel(
    kernel: Kernel,
    launch: Launch,
    device: u64,
    dtype: DType,
    shape: Vec<usize>,
    element_bytes: usize,
    answer: Result<Plan, Rejection>,
)
    requires
        call_ensures(plan_kernel, (kernel, launch, device, &dtype, shape), answer),
        call_ensures(DType::size, (&dtype,), element_bytes),
    ensures
        match answer {
            Ok(plan) => {
                &&& plan.kernel == kernel
                &&& plan.launch == launch
                &&& is_allocated(plan.output, device, dtype, shape@, element_bytes)
            },
            Err(reason) => reason == Rejection::TooLarge && is_large(shape@, dtype),
        },
{
    if let Ok(plan) = answer {
        lemma_strides_chain(plan.output.tensor.strides@, shape@);
    } else if !is_large(shape@, dtype) {
        lemma_small_tensors_fit(shape@, dtype);
    }
}

/// Addresses add up coordinates times strides, in two, three and four dimensions.
pub proof fn lemma_addresses(
    tensor: TensorInfo,
    i: usize,
    j: usize,
    k: usize,
    l: usize,
    two: usize,
    three: usize,
    four: usize,
)
    requires
        call_ensures(TensorInfo::at2, (&tensor, i, j), two),
        call_ensures(TensorInfo::at3, (&tensor, i, j, k), three),
        call_ensures(TensorInfo::at4, (&tensor, i, j, k, l), four),
    ensures
        ({
            let s = tensor.strides@;
            &&& two == i * s[0] + j * s[1]
            &&& three == i * s[0] + j * s[1] + k * s[2]
            &&& four == i * s[0] + j * s[1] + k * s[2] + l * s[3]
        }),
{
}

/// A step along a dimension moves an address by the stride of that dimension, and the first element
/// comes first.
pub proof fn lemma_address_steps(
    tensor: TensorInfo,
    coords: Vec<usize>,
    next: Vec<usize>,
    d: int,
    found: usize,
    found_next: usize,
)
    requires
        coords@.len() == tensor.strides@.len(),
        0 <= d < coords@.len(),
        next@ == coords@.update(d, next@[d]),
        next@[d] == coords@[d] + 1,
        call_ensures(TensorInfo::address_of, (&tensor, &coords), found),
        call_ensures(TensorInfo::address_of, (&tensor, &next), found_next),
    ensures
        found_next == found + tensor.strides@[d],
        (forall|c: int| 0 <= c < coords@.len() ==> #[trigger] coords@[c] == 0) ==> found == 0,
{
    let a = coords@.map_values(|c: usize| c as int);
    let b = next@.map_values(|c: usize| c as int);
    assert(b =~= a.update(d, a[d] + 1));
    lemma_address_moves(a, tensor.strides@, d);
    if forall|c: int| 0 <= c < coords@.len() ==> #[trigger] coords@[c] == 0 {
        assert forall|c: int| 0 <= c < a.len() implies #[trigger] a[c] == 0 by {
            assert(coords@[c] == 0);
        }
        lemma_address_of_first(a, tensor.strides@);
    }
}

proof fn lemma_address_moves(coords: Seq<int>, strides: Seq<usize>, d: int)
    requires
        coords.len() == strides.len(),
        0 <= d < coords.len(),
    ensures
        address(coords.update(d, coords[d] + 1), strides) == address(coords, strides) + strides[d],
    decreases strides.len(),
{
    let n = strides.len() - 1;
    let moved = coords.update(d, coords[d] + 1);
    if d == n {
        assert(moved.drop_last() =~= coords.drop_last());
        let (x, s) = (coords[n], strides[n] as int);
        assert((x + 1) * s == x * s + s) by (nonlinear_arith);
    } else {
        lemma_address_moves(coords.drop_last(), strides.drop_last(), d);
        assert(moved.drop_last() =~= coords.drop_last().update(d, coords[d] + 1));
    }
}

proof fn lemma_address_of_first(coords: Seq<int>, strides: Seq<usize>)
    requires
        coords.len() == strides.len(),
        forall|c: int| 0 <= c < coords.len() ==> #[trigger] coords[c] == 0,
    ensures
        address(coords, strides) == 0,
    decreases strides.len(),
{
    if strides.len() > 0 {
        let front = coords.drop_last();
        assert forall|c: int| 0 <= c < front.len() implies #[trigger] front[c] == 0 by {
            assert(coords[c] == 0);
        }
        lemma_address_of_first(front, strides.drop_last());
        assert(coords[coords.len() - 1] == 0);
        assert(0 * strides.last() as int == 0) by (nonlinear_arith);
    }
}

/// Elements are counted by multiplying dimensions.
pub proof fn lemma_elements_counted(dims: Vec<usize>, answer: Option<usize>)
    requires
        call_ensures(num_elements, (&dims,), answer),
    ensures
        answer matches Some(count) ==> {
            let d = dims@;
            &&& d.len() == 0 ==> count == 1
            &&& d.len() == 1 ==> count == d[0]
            &&& d.len() == 2 ==> count == d[0] * d[1]
            &&& d.len() == 3 ==> count == d[0] * d[1] * d[2]
            &&& d.len() == 4 ==> count == d[0] * d[1] * d[2] * d[3]
            &&& d.len() > 0 ==> count == product(d.drop_last()) * (d.last() as nat)
        },
        answer is None ==> product(dims@) > usize::MAX,
{
    let d = dims@;
    if d.len() == 1 {
        assert(d.drop_last() =~= Seq::<usize>::empty());
        assert(product(d.drop_last()) == 1);
        assert(product(d) == 1 * d[0] as nat);
    } else if d.len() == 2 {
        lemma_elements_of_two(d);
    } else if d.len() == 3 {
        lemma_elements_of_three(d);
    } else if d.len() == 4 {
        lemma_elements_of_four(d);
    }
}

/// A quotient is rounded up: the least number of parts of `d` that hold `n`.
pub proof fn lemma_rounded_up(n: usize, d: usize, q: usize)
    requires
        d > 0,
        call_ensures(div_ceil, (n, d), q),
    ensures
        q * d >= n,
        (q - 1) * d < n,
{
    let (x, y) = (n + d - 1, d as int);
    let r = x % y;
    vstd::arithmetic::div_mod::lemma_fundamental_div_mod(x, y);
    vstd::arithmetic::div_mod::lemma_mod_bound(x, y);
    assert(q * y >= n && (q - 1) * y < n) by (nonlinear_arith)
        requires
            x == y * q + r,
            x == n + y - 1,
            0 <= r < y,
    ;
}

/// A count that fits one word is kept, and any other loses whole multiples of what one word counts.
pub proof fn lemma_truncated(n: usize, word: u32)
    requires
        call_ensures(truncate, (n,), word),
    ensures
        n < 0x1_0000_0000 ==> word == n,
        (n - word) % 0x1_0000_0000 == 0,
{
}

/// Units that start at different positions and advance by their number share out the positions.
pub proof fn lemma_positions_shared(
    start: usize,
    step: usize,
    len: usize,
    positions: Vec<usize>,
    i: int,
)
    requires
        start < step,
        call_ensures(strided_positions, (start, step, len), positions),
        0 <= i < len,
        i % step as int == start,
    ensures
        0 <= i / step as int,
        i / (step as int) < positions@.len(),
        positions@[i / step as int] == i,
        forall|k: int|
            0 <= k < positions@.len() ==> (#[trigger] positions@[k]) < len && positions@[k] == start
                + k * step,
{
    lemma_strided_partition(step as int, len as int, i);
    assert(positions@[i / step as int] == strided(start as int, step as int, len as int)[i
        / step as int]);
    assert forall|k: int| 0 <= k < positions@.len() implies (#[trigger] positions@[k]) < len
        && positions@[k] == start + k * step by {
        lemma_strided_bound(start as int, step as int, len as int, k);
        assert(positions@[k] == strided(start as int, step as int, len as int)[k]);
    }
}

/// A tensor has other first dimensions unless it has these.
pub proof fn lemma_dims_compared(tensor: TensorInfo, first: usize, second: usize, answer: bool)
    requires
        call_ensures(have_other_dims, (&tensor, first, second), answer),
    ensures
        answer <==> tensor.shape@.len() < 2 || tensor.shape@[0] != first || tensor.shape@[1]
            != second,
{
}

/// Kernels that go through an operand without its strides need it without gaps: the input of all
/// products, normalizations and gated products, what scales or biases it, the operands of sampling,
/// and the indices of a lookup. Rotation, attention and reading one row go by strides alone.
pub proof fn lemma_gaps_allowed(kernel: Kernel, operand: usize, answer: bool)
    requires
        call_ensures(Kernel::needs_contiguous, (&kernel, operand), answer),
    ensures
        kernel is Rope || kernel is AttentionShort || kernel is AttentionPartial
            || kernel is AttentionMerge || kernel is Q4EmbeddingRow ==> !answer,
        kernel is Q4Embedding ==> (answer <==> operand == 2),
        kernel is RmsNorm || kernel is SiluMul || kernel is Gemv ==> (answer <==> operand < 2),
        kernel is GemvBias || kernel is SampleTopk ==> (answer <==> operand < 3),
        kernel is Q8Gemv || kernel is Q4Gemv || kernel is Q4EmbeddingProjection ==> (answer
            <==> operand == 0),
        kernel is Q8GemvBias || kernel is Q4GemvBias ==> (answer <==> operand == 0 || operand == 3),
{
}

/// A tensor is addressable where it has a stride for every dimension and all its elements have an
/// address, the last of which is the highest.
pub proof fn lemma_addressable(tensor: TensorInfo, answer: bool, coords: Seq<int>)
    requires
        call_ensures(TensorInfo::is_addressable, (&tensor,), answer),
    ensures
        answer ==> tensor.strides@.len() == tensor.shape@.len(),
        answer && in_shape(coords, tensor.shape@) ==> address(coords, tensor.strides@)
            <= usize::MAX,
        !answer && tensor.strides@.len() == tensor.shape@.len() ==> exists|last: Seq<int>|
            in_shape(last, tensor.shape@) && #[trigger] address(last, tensor.strides@) > usize::MAX,
{
    let shape = tensor.shape@;
    let last = last_element(shape);
    if answer && in_shape(coords, shape) {
        assert forall|d: int| 0 <= d < shape.len() implies #[trigger] shape[d] > 0 && coords[d]
            <= last[d] by {
            assert(coords[d] < shape[d]);
        }
        assert forall|d: int| 0 <= d < shape.len() implies #[trigger] coords[d] <= last[d] by {
            assert(shape[d] > 0);
        }
        lemma_address_monotone(coords, last, tensor.strides@);
    }
    if !answer && tensor.strides@.len() == shape.len() {
        assert forall|d: int| 0 <= d < shape.len() implies 0 <= #[trigger] last[d] < shape[d] by {
            assert(shape[d] > 0);
        }
        assert(in_shape(last, shape));
        assert(address(last, tensor.strides@) > usize::MAX);
    }
}

/// Parts are checked for being there, for their first two dimensions and, where asked for, for words
/// and single-precision scales.
pub proof fn lemma_parts_checked(
    tensor: QuantTensor,
    typed: bool,
    values: (usize, usize),
    scales: (usize, usize),
    answer: Option<Rejection>,
)
    requires
        call_ensures(check_parts, (&tensor, typed, values, scales), answer),
    ensures
        answer == Some(Rejection::MissingParts) <==> tensor.parts is None,
        answer is None || answer == Some(Rejection::MissingParts) || answer == Some(
            Rejection::WrongParts,
        ),
        answer is None <==> (tensor.parts matches Some(parts) && {
            let (v, s) = (parts.values.shape@, parts.scales.shape@);
            &&& typed ==> parts.values.dtype is U32 && parts.scales.dtype is F32
            &&& v.len() >= 2 && v[0] == values.0 && v[1] == values.1
            &&& s.len() >= 2 && s[0] == scales.0 && s[1] == scales.1
        }),
{
}

} // verus!
