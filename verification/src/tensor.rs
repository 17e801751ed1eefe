//! What is known of a tensor besides its elements, and how kernels over it are launched.

use vstd::prelude::*;

use crate::scheme::{dtype_size, DType};
use crate::shape::{ceil_div, div_ceil, flat, in_shape, low_word, num_elements, product, truncate};

verus! {

/// Device, element type, dimensions and strides of a tensor. Strides count elements.
#[derive(Clone, Debug, PartialEq, Eq)]
pub struct TensorInfo {
    /// Identifies the device that holds the tensor.
    pub device: u64,
    /// Element type.
    pub dtype: DType,
    /// Dimensions, outermost first.
    pub shape: Vec<usize>,
    /// Distance between neighbours along each dimension.
    pub strides: Vec<usize>,
}

/// Address of an element in a tensor with these strides.
pub open spec fn address(coords: Seq<int>, strides: Seq<usize>) -> int
    decreases strides.len(),
{
    if strides.len() == 0 {
        0
    } else {
        address(coords.drop_last(), strides.drop_last()) + coords.last() * strides.last() as int
    }
}

/// The element with the largest coordinates.
pub open spec fn last_element(shape: Seq<usize>) -> Seq<int> {
    Seq::new(shape.len(), |d: int| shape[d] - 1)
}

/// Strides of a tensor without gaps, the last dimension varying fastest.
pub open spec fn row_major(strides: Seq<usize>, shape: Seq<usize>) -> bool {
    &&& strides.len() == shape.len()
    &&& forall|d: int|
        0 <= d < shape.len() ==> #[trigger] strides[d] == product(shape.skip(d + 1))
}

/// The number of elements that a range of trailing dimensions spans fits the machine.
pub open spec fn countable(shape: Seq<usize>) -> bool {
    forall|d: int| 0 <= d <= shape.len() ==> product(#[trigger] shape.skip(d)) <= usize::MAX
}

impl TensorInfo {
    /// The tensor has no element, or every element has an address.
    pub open spec fn addressable(self) -> bool {
        &&& self.strides@.len() == self.shape@.len()
        &&& (forall|d: int| 0 <= d < self.shape@.len() ==> #[trigger] self.shape@[d] > 0)
            ==> address(last_element(self.shape@), self.strides@) <= usize::MAX
    }

    /// One more than the highest address, for a tensor that has elements.
    pub open spec fn extent(self) -> int {
        address(last_element(self.shape@), self.strides@) + 1
    }

    /// The tensor has this device, element type and shape, and no gaps.
    pub open spec fn is_contiguous_as(self, device: u64, dtype: DType, shape: Seq<usize>) -> bool {
        self.device == device && self.dtype == dtype && self.shape@ == shape && row_major(
            self.strides@,
            shape,
        )
    }

    /// Whether every element has an address.
    pub fn is_addressable(&self) -> (result: bool)
        ensures
            result == self.addressable(),
    {
        if self.strides.len() != self.shape.len() {
            return false;
        }
        let mut i: usize = 0;
        while i < self.shape.len()
            invariant
                i <= self.shape@.len(),
                self.strides@.len() == self.shape@.len(),
                forall|c: int| 0 <= c < i ==> #[trigger] self.shape@[c] > 0,
            decreases self.shape@.len() - i,
        {
            if self.shape[i] == 0 {
                assert(!(self.shape@[i as int] > 0));
                return true;
            }
            i = i + 1;
        }
        let ghost last = last_element(self.shape@);
        let mut total: usize = 0;
        let mut d: usize = 0;
        while d < self.shape.len()
            invariant
                d <= self.shape@.len(),
                self.strides@.len() == self.shape@.len(),
                forall|c: int| 0 <= c < self.shape@.len() ==> #[trigger] self.shape@[c] > 0,
                last == last_element(self.shape@),
                total == address(last.take(d as int), self.strides@.take(d as int)),
            decreases self.shape@.len() - d,
        {
            proof {
                lemma_address_step(last, self.strides@, d as int);
                lemma_address_grows(last, self.strides@, d + 1);
            }
            let reach: usize = self.shape[d] - 1;
            match reach.checked_mul(self.strides[d]) {
                Some(part) => match total.checked_add(part) {
                    Some(next) => {
                        total = next;
                    },
                    None => {
                        return false;
                    },
                },
                None => {
                    proof {
                        lemma_address_nonnegative(last.take(d as int), self.strides@.take(d as int));
                    }
                    return false;
                },
            }
            d = d + 1;
        }
        assert(last.take(d as int) =~= last);
        assert(self.strides@.take(d as int) =~= self.strides@);
        true
    }

    /// Address of the element at `coords`.
    pub fn address_of(&self, coords: &Vec<usize>) -> (result: usize)
        requires
            self.addressable(),
            in_shape(coords@.map_values(|c: usize| c as int), self.shape@),
        ensures
            result == address(coords@.map_values(|c: usize| c as int), self.strides@),
            result < self.extent(),
    {
        let ghost values = coords@.map_values(|c: usize| c as int);
        let ghost last = last_element(self.shape@);
        proof {
            assert forall|d: int| 0 <= d < self.shape@.len() implies #[trigger] self.shape@[d] > 0
                && 0 <= values[d] <= last[d] by {
                assert(values[d] < self.shape@[d]);
            }
            lemma_address_monotone(values, last, self.strides@);
        }
        let mut total: usize = 0;
        let mut d: usize = 0;
        while d < coords.len()
            invariant
                d <= coords@.len(),
                coords@.len() == self.strides@.len(),
                values == coords@.map_values(|c: usize| c as int),
                address(values, self.strides@) <= usize::MAX,
                total == address(values.take(d as int), self.strides@.take(d as int)),
            decreases coords@.len() - d,
        {
            proof {
                lemma_address_step(values, self.strides@, d as int);
                lemma_address_grows(values, self.strides@, d + 1);
                lemma_address_nonnegative(values.take(d as int), self.strides@.take(d as int));
                assert(0 <= values[d as int] * self.strides@[d as int]) by (nonlinear_arith)
                    requires
                        values[d as int] >= 0,
                ;
            }
            total = total + coords[d] * self.strides[d];
            d = d + 1;
        }
        assert(values.take(d as int) =~= values);
        assert(self.strides@.take(d as int) =~= self.strides@);
        total
    }
}

/// Address in a tensor of two dimensions.
pub open spec fn at2(strides: Seq<usize>, i: int, j: int) -> int {
    i * strides[0] as int + j * strides[1] as int
}

/// Addresses in a matrix without gaps.
pub proof fn lemma_gapless(strides: Seq<usize>, width: int, i: int, j: int)
    requires
        0 <= width <= usize::MAX,
        strides == seq![width as usize, 1],
    ensures
        at2(strides, i, j) == i * width + j,
{
    let (s0, s1) = (strides[0] as int, strides[1] as int);
    assert(i * s0 + j * s1 == i * width + j) by (nonlinear_arith)
        requires
            s0 == width,
            s1 == 1,
    ;
}

/// Address in a tensor of three dimensions.
pub open spec fn at3(strides: Seq<usize>, i: int, j: int, k: int) -> int {
    i * strides[0] as int + j * strides[1] as int + k * strides[2] as int
}

/// Address in a tensor of four dimensions.
pub open spec fn at4(strides: Seq<usize>, i: int, j: int, k: int, l: int) -> int {
    i * strides[0] as int + j * strides[1] as int + k * strides[2] as int + l * strides[3] as int
}

// Addresses with few dimensions, written out.
proof fn lemma_address_small(coords: Seq<int>, strides: Seq<usize>)
    requires
        coords.len() == strides.len(),
        2 <= strides.len() <= 4,
    ensures
        address(coords, strides) == (if strides.len() == 2 {
            at2(strides, coords[0], coords[1])
        } else if strides.len() == 3 {
            at3(strides, coords[0], coords[1], coords[2])
        } else {
            at4(strides, coords[0], coords[1], coords[2], coords[3])
        }),
{
    reveal_with_fuel(address, 5);
}

// Zeros past the second dimension add nothing to an address.
proof fn lemma_address_leading(coords: Seq<int>, strides: Seq<usize>)
    requires
        coords.len() == strides.len(),
        strides.len() >= 2,
        forall|d: int| 2 <= d < coords.len() ==> #[trigger] coords[d] == 0,
    ensures
        address(coords, strides) == at2(strides, coords[0], coords[1]),
    decreases strides.len(),
{
    if strides.len() == 2 {
        lemma_address_small(coords, strides);
    } else {
        let (c, s) = (coords.drop_last(), strides.drop_last());
        assert forall|d: int| 2 <= d < c.len() implies #[trigger] c[d] == 0 by {
            assert(coords[d] == 0);
        }
        lemma_address_leading(c, s);
        assert(coords[coords.len() - 1] == 0);
        assert(0 * strides.last() as int == 0) by (nonlinear_arith);
    }
}

impl TensorInfo {
    /// The tensor has at least two dimensions, the first two at least this large, and none of the
    /// others is empty.
    pub open spec fn leads_with(self, rows: int, columns: int) -> bool {
        &&& self.shape@.len() >= 2
        &&& self.shape@[0] >= rows
        &&& self.shape@[1] >= columns
        &&& forall|d: int| 2 <= d < self.shape@.len() ==> #[trigger] self.shape@[d] > 0
    }

    /// Address of the first element in row `i` and column `j` of the first two dimensions.
    pub fn at2(&self, i: usize, j: usize) -> (result: usize)
        requires
            self.addressable(),
            self.leads_with(i + 1, j + 1),
        ensures
            result == at2(self.strides@, i as int, j as int),
            result < self.extent(),
    {
        let rank: usize = self.shape.len();
        let mut coords: Vec<usize> = vec![i, j];
        while coords.len() < rank
            invariant
                rank == self.shape@.len(),
                2 <= coords@.len() <= rank,
                coords@[0] == i,
                coords@[1] == j,
                forall|d: int| 2 <= d < coords@.len() ==> #[trigger] coords@[d] == 0,
            decreases rank - coords@.len(),
        {
            coords.push(0);
        }
        proof {
            let values = coords@.map_values(|c: usize| c as int);
            assert forall|d: int| 0 <= d < values.len() implies 0 <= #[trigger] values[d]
                < self.shape@[d] by {
                assert(values[d] == coords@[d]);
            }
            lemma_address_leading(values, self.strides@);
        }
        self.address_of(&coords)
    }

    /// Address in a tensor of three dimensions.
    pub fn at3(&self, i: usize, j: usize, k: usize) -> (result: usize)
        requires
            self.addressable(),
            self.shape@.len() == 3,
            i < self.shape@[0],
            j < self.shape@[1],
            k < self.shape@[2],
        ensures
            result == at3(self.strides@, i as int, j as int, k as int),
            result < self.extent(),
    {
        let coords = vec![i, j, k];
        proof {
            lemma_address_small(coords@.map_values(|c: usize| c as int), self.strides@);
        }
        self.address_of(&coords)
    }

    /// Address in a tensor of four dimensions.
    pub fn at4(&self, i: usize, j: usize, k: usize, l: usize) -> (result: usize)
        requires
            self.addressable(),
            self.shape@.len() == 4,
            i < self.shape@[0],
            j < self.shape@[1],
            k < self.shape@[2],
            l < self.shape@[3],
        ensures
            result == at4(self.strides@, i as int, j as int, k as int, l as int),
            result < self.extent(),
    {
        let coords = vec![i, j, k, l];
        proof {
            lemma_address_small(coords@.map_values(|c: usize| c as int), self.strides@);
        }
        self.address_of(&coords)
    }
}

/// A tensor of quantized values: its packed values and its scales, where it carries them.
#[derive(Clone, Debug, PartialEq, Eq)]
pub struct QuantTensor {
    /// The tensor that the values stand for.
    pub info: TensorInfo,
    /// Packed values and scales.
    pub parts: Option<QuantParts>,
}

/// What a quantized tensor is made of.
#[derive(Clone, Debug, PartialEq, Eq)]
pub struct QuantParts {
    /// Packed values.
    pub values: TensorInfo,
    /// Scales.
    pub scales: TensorInfo,
}

proof fn lemma_address_step(coords: Seq<int>, strides: Seq<usize>, d: int)
    requires
        0 <= d < strides.len(),
        coords.len() == strides.len(),
    ensures
        address(coords.take(d + 1), strides.take(d + 1)) == address(coords.take(d), strides.take(d))
            + coords[d] * strides[d] as int,
{
    assert(coords.take(d + 1).drop_last() =~= coords.take(d));
    assert(strides.take(d + 1).drop_last() =~= strides.take(d));
}

proof fn lemma_address_nonnegative(coords: Seq<int>, strides: Seq<usize>)
    requires
        coords.len() == strides.len(),
        forall|d: int| 0 <= d < coords.len() ==> #[trigger] coords[d] >= 0,
    ensures
        address(coords, strides) >= 0,
    decreases strides.len(),
{
    if strides.len() > 0 {
        let c = coords.drop_last();
        assert forall|d: int| 0 <= d < c.len() implies #[trigger] c[d] >= 0 by {
            assert(coords[d] >= 0);
        }
        lemma_address_nonnegative(c, strides.drop_last());
        assert(coords[strides.len() - 1] >= 0);
        assert(coords.last() * strides.last() as int >= 0) by (nonlinear_arith)
            requires
                coords.last() >= 0,
        ;
    }
}

proof fn lemma_address_grows(coords: Seq<int>, strides: Seq<usize>, n: int)
    requires
        coords.len() == strides.len(),
        0 <= n <= coords.len(),
        forall|d: int| 0 <= d < coords.len() ==> #[trigger] coords[d] >= 0,
    ensures
        address(coords.take(n), strides.take(n)) <= address(coords, strides),
    decreases strides.len(),
{
    if n == coords.len() {
        assert(coords.take(n) =~= coords);
        assert(strides.take(n) =~= strides);
    } else {
        let c = coords.drop_last();
        let s = strides.drop_last();
        assert forall|d: int| 0 <= d < c.len() implies #[trigger] c[d] >= 0 by {
            assert(coords[d] >= 0);
        }
        lemma_address_grows(c, s, n);
        assert(c.take(n) =~= coords.take(n));
        assert(s.take(n) =~= strides.take(n));
        assert(coords[strides.len() - 1] >= 0);
        assert(coords.last() * strides.last() as int >= 0) by (nonlinear_arith)
            requires
                coords.last() >= 0,
        ;
    }
}

/// Smaller coordinates have no larger address.
pub proof fn lemma_address_monotone(lower: Seq<int>, upper: Seq<int>, strides: Seq<usize>)
    requires
        lower.len() == strides.len(),
        upper.len() == strides.len(),
        forall|d: int| 0 <= d < strides.len() ==> #[trigger] lower[d] <= upper[d],
    ensures
        address(lower, strides) <= address(upper, strides),
    decreases strides.len(),
{
    if strides.len() > 0 {
        let (l, u, s) = (lower.drop_last(), upper.drop_last(), strides.drop_last());
        assert forall|d: int| 0 <= d < s.len() implies #[trigger] l[d] <= u[d] by {
            assert(lower[d] <= upper[d]);
        }
        lemma_address_monotone(l, u, s);
        assert(lower[strides.len() - 1] <= upper[strides.len() - 1]);
        assert(lower.last() * strides.last() as int <= upper.last() * strides.last() as int)
            by (nonlinear_arith)
            requires
                lower.last() <= upper.last(),
        ;
    }
}

/// Without gaps, the address of an element is its row-major address.
pub proof fn lemma_row_major_address(coords: Seq<int>, strides: Seq<usize>, shape: Seq<usize>)
    requires
        coords.len() == shape.len(),
        row_major(strides, shape),
    ensures
        address(coords, strides) == flat(coords, shape),
{
    lemma_scaled_address(coords, strides, shape, 1);
}

proof fn lemma_scaled_address(coords: Seq<int>, strides: Seq<usize>, shape: Seq<usize>, scale: int)
    requires
        coords.len() == shape.len(),
        strides.len() == shape.len(),
        forall|d: int|
            0 <= d < shape.len() ==> #[trigger] strides[d] == product(shape.skip(d + 1)) * scale,
    ensures
        address(coords, strides) == flat(coords, shape) * scale,
    decreases shape.len(),
{
    if shape.len() > 0 {
        let n = shape.len() - 1;
        let (c, s, t) = (coords.drop_last(), strides.drop_last(), shape.drop_last());
        let w = shape[n] as int;
        assert forall|d: int| 0 <= d < t.len() implies #[trigger] s[d] == product(t.skip(d + 1)) * (w
            * scale) by {
            assert(strides[d] == product(shape.skip(d + 1)) * scale);
            assert(shape.skip(d + 1).drop_last() =~= t.skip(d + 1));
            assert(shape.skip(d + 1).last() == shape[n]);
            let p = product(t.skip(d + 1)) as int;
            assert((p * w) * scale == p * (w * scale)) by (nonlinear_arith);
        }
        lemma_scaled_address(c, s, t, w * scale);
        assert(strides[n] == product(shape.skip(n + 1)) * scale);
        assert(shape.skip(n + 1) =~= Seq::<usize>::empty());
        assert(product(shape.skip(n + 1)) == 1);
        let f = flat(c, t);
        let x = coords[n];
        assert(f * (w * scale) + x * (1 * scale) == (f * w + x) * scale) by (nonlinear_arith);
    } else {
        assert(0 * scale == 0) by (nonlinear_arith);
    }
}

/// Whether both lists of dimensions are the same.
pub fn same_dims(a: &Vec<usize>, b: &Vec<usize>) -> (result: bool)
    ensures
        result == (a@ == b@),
{
    if a.len() != b.len() {
        return false;
    }
    let mut i: usize = 0;
    while i < a.len()
        invariant
            i <= a@.len(),
            a@.len() == b@.len(),
            forall|d: int| 0 <= d < i ==> a@[d] == b@[d],
        decreases a@.len() - i,
    {
        if a[i] != b[i] {
            return false;
        }
        i = i + 1;
    }
    assert(a@ =~= b@);
    true
}

/// A tensor to be created and the bytes that it takes.
#[derive(Clone, Debug, PartialEq, Eq)]
pub struct Allocation {
    /// The tensor, without gaps.
    pub tensor: TensorInfo,
    /// Size of its memory.
    pub bytes: usize,
}

/// Whether a tensor of this shape and element type can be created.
pub open spec fn allocatable(shape: Seq<usize>, dtype: DType) -> bool {
    countable(shape) && product(shape) * dtype_size(dtype) <= usize::MAX
}

/// A tensor with fewer columns can be created where the wider one can.
pub proof fn lemma_narrower_allocatable(shape: Seq<usize>, width: usize, dtype: DType)
    requires
        shape.len() > 0,
        width <= shape.last(),
        allocatable(shape, dtype),
    ensures
        allocatable(shape.update(shape.len() - 1, width), dtype),
{
    let n = shape.len() - 1;
    let narrow = shape.update(n, width);
    assert forall|d: int| 0 <= d <= narrow.len() implies product(#[trigger] narrow.skip(d))
        <= product(shape.skip(d)) by {
        let (a, b) = (narrow.skip(d), shape.skip(d));
        if d <= n {
            assert(a.drop_last() =~= b.drop_last());
            let p = product(a.drop_last());
            assert(a.last() == width && b.last() == shape.last());
            assert(p * width as nat <= p * shape.last() as nat) by (nonlinear_arith)
                requires
                    width <= shape.last(),
            ;
        } else {
            assert(a =~= b);
        }
    }
    assert forall|d: int| 0 <= d <= narrow.len() implies product(#[trigger] narrow.skip(d))
        <= usize::MAX by {
        assert(product(shape.skip(d)) <= usize::MAX);
    }
    assert(narrow.skip(0) =~= narrow && shape.skip(0) =~= shape);
    assert(product(narrow.skip(0)) <= product(shape.skip(0)));
    let (p, q, size) = (product(narrow), product(shape), dtype_size(dtype));
    assert(p * size <= q * size) by (nonlinear_arith)
        requires
            p <= q,
            size >= 0,
    ;
}

impl Allocation {
    /// The allocation is that of a tensor of this device, element type and shape.
    pub open spec fn is_for(self, device: u64, dtype: DType, shape: Seq<usize>) -> bool {
        self.tensor.is_contiguous_as(device, dtype, shape) && self.bytes == product(shape)
            * dtype_size(dtype)
    }
}

// Strides of a tensor without gaps, or `None` where a count does not fit.
fn contiguous_strides(shape: &Vec<usize>) -> (strides: Option<Vec<usize>>)
    ensures
        match strides {
            Some(strides) => countable(shape@) && row_major(strides@, shape@),
            None => !countable(shape@),
        },
{
    let rank: usize = shape.len();
    let mut reversed: Vec<usize> = Vec::with_capacity(rank);
    let mut d: usize = rank;
    let mut tail: Vec<usize> = Vec::new();
    assert(shape@.skip(rank as int) =~= Seq::<usize>::empty());
    assert(tail@ =~= shape@.skip(rank as int));
    while d > 0
        invariant
            d <= rank,
            rank == shape@.len(),
            reversed@.len() == rank - d,
            forall|c: int|
                d <= c < rank ==> reversed@[rank - 1 - c] == product(#[trigger] shape@.skip(c + 1)),
            forall|c: int| d < c <= rank ==> product(#[trigger] shape@.skip(c)) <= usize::MAX,
            tail@ == shape@.skip(d as int),
        decreases d,
    {
        match num_elements(&tail) {
            Some(count) => {
                reversed.push(count);
            },
            None => {
                assert(product(shape@.skip(d as int)) > usize::MAX);
                return None;
            },
        }
        d = d - 1;
        tail.insert(0, shape[d]);
        assert(tail@ =~= shape@.skip(d as int));
    }
    match num_elements(&tail) {
        Some(_) => {},
        None => {
            assert(product(shape@.skip(0)) > usize::MAX);
            return None;
        },
    }
    let mut strides: Vec<usize> = Vec::with_capacity(rank);
    let mut i: usize = 0;
    while i < rank
        invariant
            i <= rank,
            rank == shape@.len(),
            reversed@.len() == rank,
            strides@.len() == i,
            forall|c: int|
                0 <= c < rank ==> reversed@[rank - 1 - c] == product(#[trigger] shape@.skip(c + 1)),
            forall|c: int| 0 <= c < i ==> #[trigger] strides@[c] == reversed@[rank - 1 - c],
        decreases rank - i,
    {
        strides.push(reversed[rank - 1 - i]);
        i = i + 1;
    }
    proof {
        assert forall|c: int| 0 <= c < rank implies #[trigger] strides@[c] == product(
            shape@.skip(c + 1),
        ) by {}
    }
    Some(strides)
}

/// Prepares a new tensor without gaps, or returns `None` where it does not fit the machine.
pub fn allocate(device: u64, dtype: &DType, shape: Vec<usize>) -> (result: Option<Allocation>)
    ensures
        match result {
            Some(allocation) => allocatable(shape@, *dtype) && allocation.is_for(
                device,
                *dtype,
                shape@,
            ),
            None => !allocatable(shape@, *dtype),
        },
{
    let strides = match contiguous_strides(&shape) {
        Some(strides) => strides,
        None => {
            return None;
        },
    };
    proof {
        assert(shape@.skip(0) =~= shape@);
        assert(product(shape@.skip(0)) <= usize::MAX);
    }
    match num_elements(&shape) {
        Some(count) => match count.checked_mul(dtype.size()) {
            Some(bytes) => Some(
                Allocation { tensor: TensorInfo { device, dtype: *dtype, shape, strides }, bytes },
            ),
            None => None,
        },
        None => None,
    }
}

/// How many cubes a kernel runs on and how many threads each has.
#[derive(Clone, Copy, Debug, PartialEq, Eq, Structural)]
pub struct Launch {
    /// Number of cubes.
    pub cubes: u32,
    /// Threads of each cube.
    pub threads: u32,
}

/// Threads of a cube in kernels that compute one element per thread.
pub const ELEMWISE_THREADS: usize = 256;

/// The launch of a kernel that computes one element per thread.
pub open spec fn elemwise(count: int) -> Launch {
    Launch { cubes: low_word(ceil_div(count, 256)) as u32, threads: 256 }
}

/// The launch with one SIMD group per cube.
pub open spec fn grouped(count: int) -> Launch {
    Launch { cubes: low_word(count) as u32, threads: 32 }
}

/// The launch of a kernel that computes one of `rows` elements per thread.
pub fn elemwise_launch(rows: usize) -> (launch: Launch)
    ensures
        launch == elemwise(rows as int),
{
    Launch { cubes: truncate(div_ceil(rows, ELEMWISE_THREADS)), threads: 256 }
}

/// The launch with one SIMD group per cube and `groups` cubes.
pub fn grouped_launch(groups: usize) -> (launch: Launch)
    ensures
        launch == grouped(groups as int),
{
    Launch { cubes: truncate(groups), threads: 32 }
}

/// Where the number of cubes fits the launch, every element has exactly one thread: element `i`
/// belongs to thread `i % 256` of cube `i / 256`.
pub proof fn lemma_elemwise_covers(count: int, i: int)
    requires
        ceil_div(count, 256) < 0x1_0000_0000,
        0 <= i < count,
    ensures
        0 <= i / 256 < elemwise(count).cubes,
        0 <= i % 256 < elemwise(count).threads,
        forall|cube: int, thread: int|
            0 <= thread < 256 && #[trigger] (cube * 256 + thread) == i ==> cube == i / 256 && thread
                == i % 256,
{
}

} // verus!
