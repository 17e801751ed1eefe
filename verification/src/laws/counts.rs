//! Counting elements, threads and bytes.

use vstd::prelude::*;

use crate::elementwise::element_unit;
use crate::scheme::{dtype_size, DType};
use crate::shape::{ceil_div, lemma_product_positive, product};
use crate::tensor::{
    allocatable, elemwise, elemwise_launch, grouped, grouped_launch, Allocation, Launch,
};

verus! {

/// Number of elements of a matrix.
pub proof fn lemma_elements_of_two(shape: Seq<usize>)
    requires
        shape.len() == 2,
    ensures
        product(shape) == shape[0] * shape[1],
{
    reveal_with_fuel(product, 3);
    assert(shape.drop_last().drop_last() =~= Seq::<usize>::empty());
    assert(1 * shape[0] as nat * shape[1] as nat == shape[0] * shape[1]) by (nonlinear_arith);
}

/// Number of elements of a tensor of three dimensions.
pub proof fn lemma_elements_of_three(shape: Seq<usize>)
    requires
        shape.len() == 3,
    ensures
        product(shape) == shape[0] * shape[1] * shape[2],
        shape[0] * shape[1] >= 0,
{
    lemma_elements_of_two(shape.drop_last());
    let n = product(shape.drop_last()) as int;
    assert(n * shape[2] == shape[0] * shape[1] * shape[2] && shape[0] * shape[1] >= 0)
        by (nonlinear_arith)
        requires
            n == shape[0] * shape[1],
    ;
}

/// Number of elements of a tensor of four dimensions.
pub proof fn lemma_elements_of_four(shape: Seq<usize>)
    requires
        shape.len() == 4,
    ensures
        product(shape) == shape[0] * shape[1] * shape[2] * shape[3],
        shape[0] * shape[1] >= 0,
        shape[0] * shape[1] * shape[2] >= 0,
{
    lemma_elements_of_three(shape.drop_last());
    let n = product(shape.drop_last()) as int;
    assert(n * shape[3] == shape[0] * shape[1] * shape[2] * shape[3] && n >= 0 && shape[0] * shape[1]
        >= 0) by (nonlinear_arith)
        requires
            n == shape[0] * shape[1] * shape[2],
            n >= 0,
    ;
}

// Trailing dimensions of a tensor without an empty one hold no more elements than the whole.
proof fn lemma_suffix_smaller(shape: Seq<usize>, d: int)
    requires
        0 <= d <= shape.len(),
        forall|c: int| 0 <= c < shape.len() ==> #[trigger] shape[c] > 0,
    ensures
        product(shape.skip(d)) <= product(shape),
    decreases shape.len(),
{
    let s = shape.skip(d);
    if d == shape.len() {
        lemma_product_positive(shape);
        assert(s =~= Seq::<usize>::empty());
    } else {
        let front = shape.drop_last();
        assert forall|c: int| 0 <= c < front.len() implies #[trigger] front[c] > 0 by {
            assert(shape[c] > 0);
        }
        lemma_suffix_smaller(front, d);
        assert(s.drop_last() =~= front.skip(d));
        let (a, b, w) = (product(front.skip(d)), product(front), shape.last() as nat);
        assert(a * w <= b * w) by (nonlinear_arith)
            requires
                a <= b,
        ;
    }
}

/// The elements of the trailing dimensions from some dimension on cannot be counted, or all of them do
/// not fit the machine.
pub open spec fn is_large(shape: Seq<usize>, dtype: DType) -> bool {
    ||| exists|d: int| 0 <= d <= shape.len() && product(#[trigger] shape.skip(d)) > usize::MAX
    ||| product(shape) * dtype_size(dtype) > usize::MAX
}

/// Only large tensors cannot be created.
pub proof fn lemma_small_tensors_fit(shape: Seq<usize>, dtype: DType)
    requires
        !is_large(shape, dtype),
    ensures
        allocatable(shape, dtype),
{
}

/// A tensor without an empty dimension is not large where its elements, at eight bytes each, fit the
/// machine.
pub proof fn lemma_few_elements_are_not_large(shape: Seq<usize>, dtype: DType)
    requires
        forall|c: int| 0 <= c < shape.len() ==> #[trigger] shape[c] > 0,
        product(shape) * 8 <= usize::MAX,
    ensures
        !is_large(shape, dtype),
{
    assert forall|d: int| 0 <= d <= shape.len() implies product(#[trigger] shape.skip(d))
        <= usize::MAX by {
        lemma_suffix_smaller(shape, d);
    }
    let (n, size) = (product(shape), dtype_size(dtype));
    assert(size <= 8);
    assert(n * size <= n * 8) by (nonlinear_arith)
        requires
            size <= 8,
    ;
}

/// The memory of a new tensor holds all its elements, and no more.
pub open spec fn has_room(output: Allocation) -> bool {
    output.bytes == product(output.tensor.shape@) * dtype_size(output.tensor.dtype)
}

/// What can be created can be counted.
pub proof fn lemma_created_is_counted(shape: Seq<usize>, dtype: DType)
    requires
        allocatable(shape, dtype),
    ensures
        product(shape) <= usize::MAX,
{
    assert(shape.skip(0) =~= shape);
    assert(product(shape.skip(0)) <= usize::MAX);
}

/// A launch with a group for each of `groups` pieces of work, thirty-two lanes each.
pub proof fn lemma_groups_launched(groups: usize, launch: Launch)
    requires
        call_ensures(grouped_launch, (groups,), launch),
    ensures
        launch.cubes == groups as int % 0x1_0000_0000,
        groups < 0x1_0000_0000 ==> launch.cubes == groups,
        launch.threads == 32,
{
    lemma_grouped_count(groups as int);
}

/// Cubes are counted by their low word, and those that one word counts are counted right.
pub proof fn lemma_grouped_count(groups: int)
    requires
        0 <= groups,
    ensures
        grouped(groups).cubes == groups % 0x1_0000_0000,
        groups < 0x1_0000_0000 ==> grouped(groups).cubes == groups,
        grouped(groups).threads == 32,
{
    if groups < 0x1_0000_0000 {
        vstd::arithmetic::div_mod::lemma_small_mod(groups as nat, 0x1_0000_0000);
    }
}

/// Element `i` has a thread: number `i % launch.threads` of cube `i / launch.threads`, which exists.
pub open spec fn has_thread(launch: Launch, i: int) -> bool {
    &&& launch.threads > 0
    &&& 0 <= i / (launch.threads as int) < launch.cubes
}

/// The thread of an element takes that element.
pub proof fn lemma_thread_takes_element(
    cube: u32,
    thread: u32,
    threads: u32,
    len: usize,
    i: int,
    taken: Option<usize>,
)
    requires
        threads > 0,
        cube == i / threads as int,
        thread == i % threads as int,
        call_ensures(element_unit, (cube, thread, threads, len), taken),
    ensures
        0 <= i < len ==> taken == Some(i as usize),
        i >= len ==> taken is None,
{
    vstd::arithmetic::div_mod::lemma_fundamental_div_mod(i, threads as int);
    assert(cube * threads == threads * cube) by (nonlinear_arith);
}

/// Cubes of 256 threads, as few as have a thread for each of `count` elements. The number of cubes is
/// given by its low word.
pub open spec fn one_thread_each(launch: Launch, count: int) -> bool {
    &&& launch.threads == 256
    &&& count >= 0 ==> launch.cubes == ((count + 255) / 256) % 0x1_0000_0000
    &&& 0 <= count <= 256 * 0xffff_ffff ==> {
        &&& forall|i: int| 0 <= i < count ==> #[trigger] has_thread(launch, i)
        &&& 256 * launch.cubes < count + 256
    }
}

/// A launch with one thread per element has a thread for each of them, and no cube without any.
pub proof fn lemma_elements_have_threads(count: int, launch: Launch)
    requires
        launch == elemwise(count),
    ensures
        one_thread_each(launch, count),
{
    if 0 <= count <= 256 * 0xffff_ffff {
        vstd::arithmetic::div_mod::lemma_small_mod(ceil_div(count, 256) as nat, 0x1_0000_0000);
    }
}

/// A launch for a number of elements has a thread for each of them, and no cube without any.
pub proof fn lemma_elements_launched(len: usize, launch: Launch)
    requires
        call_ensures(elemwise_launch, (len,), launch),
    ensures
        one_thread_each(launch, len as int),
{
    lemma_elements_have_threads(len as int, launch);
}

/// No two threads take the same element.
pub proof fn lemma_threads_take_distinct_elements(
    cube: u32,
    thread: u32,
    other_cube: u32,
    other_thread: u32,
    threads: u32,
    len: usize,
    element: usize,
)
    requires
        thread < threads,
        other_thread < threads,
        call_ensures(element_unit, (cube, thread, threads, len), Some(element)),
        call_ensures(element_unit, (other_cube, other_thread, threads, len), Some(element)),
    ensures
        element < len,
        cube == other_cube,
        thread == other_thread,
{
    crate::shape::lemma_pair(cube as int, threads as int, thread as int);
    crate::shape::lemma_pair(other_cube as int, threads as int, other_thread as int);
}

} // verus!
