//! Quantization schemes and the element types of tensors.

use burn_std::BlockSize;
use vstd::prelude::*;

verus! {

/// The block size of `burn_std`: a short list of block dimensions, at most five.
#[verifier::external_type_specification]
#[verifier::external_body]
pub struct ExBlockSize(burn_std::BlockSize);

/// The dimensions that a block size lists, outermost first.
pub uninterp spec fn block_dims(block: BlockSize) -> Seq<u8>;

/// `dims` with as many dimensions as a tensor of rank `rank`: ones are put in front of a shorter
/// list, and a longer list keeps its first `rank` entries.
pub open spec fn fitted(dims: Seq<u8>, rank: nat) -> Seq<u8> {
    if dims.len() >= rank {
        dims.take(rank as int)
    } else {
        Seq::new((rank - dims.len()) as nat, |i: int| 1u8) + dims
    }
}

/// `burn_std::BlockSize::as_slice` hands out the listed dimensions, of which there are at most five.
pub assume_specification[ BlockSize::as_slice ](block: &BlockSize) -> (dims: &[u8])
    ensures
        dims@ == block_dims(*block),
        dims@.len() <= 5,
;

/// `burn_std::BlockSize::as_dim` copies the listed dimensions into an array of `N`, with ones in
/// front of a shorter list and only the first `N` of a longer one.
pub assume_specification<const N: usize>[ BlockSize::as_dim::<N> ](block: &BlockSize) -> (dims:
    [u8; N])
    ensures
        dims@ == fitted(block_dims(*block), N as nat),
;

/// `burn_std::BlockSize::to_dim_vec` does the same as `as_dim` for a length given at run time.
pub assume_specification[ BlockSize::to_dim_vec ](block: &BlockSize, len: usize) -> (dims: Vec<u8>)
    ensures
        dims@ == fitted(block_dims(*block), len as nat),
;

/// How quantized values are represented.
#[derive(Clone, Copy, Debug, PartialEq, Eq, Structural)]
pub enum QuantValue {
    /// Eight bits, full range.
    Q8F,
    /// Eight-bit floating point, e5m2.
    E5M2,
    /// Eight-bit floating point, e4m3.
    E4M3,
    /// Four bits, full range.
    Q4F,
    /// Four-bit floating point, e2m1.
    E2M1,
    /// Two bits, full range.
    Q2F,
    /// Eight bits, symmetric range.
    Q8S,
    /// Four bits, symmetric range.
    Q4S,
    /// Two bits, symmetric range.
    Q2S,
}

/// Precision of the scales.
#[derive(Clone, Copy, Debug, PartialEq, Eq, Structural)]
pub enum QuantParam {
    /// Full precision.
    F32,
    /// Half precision.
    F16,
    /// Brain half precision.
    BF16,
    /// Unsigned e8m0.
    UE8M0,
    /// Unsigned e4m3.
    UE4M3,
}

/// How quantized values are stored. A packed store names the dimension that it packs, counted from
/// the innermost one.
#[derive(Clone, Copy, Debug, PartialEq, Eq, Structural)]
pub enum QuantStore {
    /// One element per value.
    Native,
    /// Packed in a format that the device knows.
    PackedNative(usize),
    /// Packed into 32-bit words.
    PackedU32(usize),
}

/// Strategy by which values are quantized.
#[derive(Clone, Copy, Debug, PartialEq, Eq, Structural)]
pub enum QuantMode {
    /// Only a scale, no zero point.
    Symmetric,
}

/// Granularity of the scales.
#[derive(Clone, Copy, Debug, PartialEq, Eq)]
pub enum QuantLevel {
    /// One scale for the tensor.
    Tensor,
    /// One scale per block.
    Block(BlockSize),
    /// One scale per block and one for the tensor.
    BlockTensor(BlockSize),
}

/// A quantization scheme.
#[derive(Clone, Copy, Debug, PartialEq, Eq)]
pub struct QuantScheme {
    /// How values are represented.
    pub value: QuantValue,
    /// Precision of the scales.
    pub param: QuantParam,
    /// How values are stored.
    pub store: QuantStore,
    /// Granularity of the scales.
    pub level: QuantLevel,
    /// Strategy by which values are quantized.
    pub mode: QuantMode,
}

/// How booleans are stored.
#[derive(Clone, Copy, Debug, PartialEq, Eq, Structural)]
pub enum BoolStore {
    /// As the device's booleans.
    Native,
    /// One byte each.
    U8,
    /// One word each.
    U32,
}

/// Element type of a tensor.
#[allow(missing_docs)]
#[derive(Clone, Copy, Debug, PartialEq, Eq)]
pub enum DType {
    F64,
    F32,
    Flex32,
    F16,
    BF16,
    I64,
    I32,
    I16,
    I8,
    U64,
    U32,
    U16,
    U8,
    Bool(BoolStore),
    QFloat(QuantScheme),
}

/// Both levels have the same granularity and the same block dimensions.
pub open spec fn same_level(a: QuantLevel, b: QuantLevel) -> bool {
    match (a, b) {
        (QuantLevel::Tensor, QuantLevel::Tensor) => true,
        (QuantLevel::Block(x), QuantLevel::Block(y)) => block_dims(x) == block_dims(y),
        (QuantLevel::BlockTensor(x), QuantLevel::BlockTensor(y)) => block_dims(x) == block_dims(y),
        _ => false,
    }
}

/// Both schemes agree in every part.
pub open spec fn same_scheme(a: QuantScheme, b: QuantScheme) -> bool {
    a.value == b.value && a.param == b.param && a.store == b.store && a.mode == b.mode
        && same_level(a.level, b.level)
}

/// Both element types are the same; quantized ones also have the same scheme.
pub open spec fn same_dtype(a: DType, b: DType) -> bool {
    match (a, b) {
        (DType::QFloat(x), DType::QFloat(y)) => same_scheme(x, y),
        (DType::QFloat(_), _) => false,
        (_, DType::QFloat(_)) => false,
        _ => a == b,
    }
}

fn blocks_equal(a: &BlockSize, b: &BlockSize) -> (equal: bool)
    ensures
        equal == (block_dims(*a) == block_dims(*b)),
{
    let x = a.as_slice();
    let y = b.as_slice();
    if x.len() != y.len() {
        return false;
    }
    let mut i: usize = 0;
    while i < x.len()
        invariant
            i <= x@.len(),
            x@.len() == y@.len(),
            x@ == block_dims(*a),
            y@ == block_dims(*b),
            forall|j: int| 0 <= j < i ==> x@[j] == y@[j],
        decreases x@.len() - i,
    {
        if x[i] != y[i] {
            return false;
        }
        i = i + 1;
    }
    assert(x@ =~= y@);
    true
}

fn levels_equal(a: &QuantLevel, b: &QuantLevel) -> (equal: bool)
    ensures
        equal == same_level(*a, *b),
{
    match (a, b) {
        (QuantLevel::Tensor, QuantLevel::Tensor) => true,
        (QuantLevel::Block(x), QuantLevel::Block(y)) => blocks_equal(x, y),
        (QuantLevel::BlockTensor(x), QuantLevel::BlockTensor(y)) => blocks_equal(x, y),
        _ => false,
    }
}

/// Whether both element types are the same.
pub fn dtypes_equal(a: &DType, b: &DType) -> (equal: bool)
    ensures
        equal == same_dtype(*a, *b),
{
    match (a, b) {
        (DType::QFloat(x), DType::QFloat(y)) => x.value == y.value && x.param == y.param && x.store
            == y.store && x.mode == y.mode && levels_equal(&x.level, &y.level),
        (DType::F64, DType::F64) => true,
        (DType::F32, DType::F32) => true,
        (DType::Flex32, DType::Flex32) => true,
        (DType::F16, DType::F16) => true,
        (DType::BF16, DType::BF16) => true,
        (DType::I64, DType::I64) => true,
        (DType::I32, DType::I32) => true,
        (DType::I16, DType::I16) => true,
        (DType::I8, DType::I8) => true,
        (DType::U64, DType::U64) => true,
        (DType::U32, DType::U32) => true,
        (DType::U16, DType::U16) => true,
        (DType::U8, DType::U8) => true,
        (DType::Bool(x), DType::Bool(y)) => *x == *y,
        _ => false,
    }
}

/// Bytes per element; zero for quantized values narrower than a byte that are stored unpacked.
pub open spec fn dtype_size(dtype: DType) -> nat {
    match dtype {
        DType::F64 | DType::I64 | DType::U64 => 8,
        DType::F32 | DType::Flex32 | DType::I32 | DType::U32 => 4,
        DType::F16 | DType::BF16 | DType::I16 | DType::U16 => 2,
        DType::I8 | DType::U8 => 1,
        DType::Bool(store) => if store == BoolStore::U32 {
            4
        } else {
            1
        },
        DType::QFloat(scheme) => match scheme.store {
            QuantStore::PackedU32(_) => 4,
            QuantStore::PackedNative(_) => if scheme.value == QuantValue::E2M1 {
                1
            } else {
                0
            },
            QuantStore::Native => match scheme.value {
                QuantValue::Q4F | QuantValue::Q4S | QuantValue::Q2F | QuantValue::Q2S => 0,
                _ => 1,
            },
        },
    }
}

impl DType {
    /// Bytes per element.
    pub fn size(&self) -> (bytes: usize)
        ensures
            bytes == dtype_size(*self),
            bytes <= 8,
    {
        match self {
            DType::F64 | DType::I64 | DType::U64 => 8,
            DType::F32 | DType::Flex32 | DType::I32 | DType::U32 => 4,
            DType::F16 | DType::BF16 | DType::I16 | DType::U16 => 2,
            DType::I8 | DType::U8 => 1,
            DType::Bool(store) => match store {
                BoolStore::U32 => 4,
                BoolStore::Native | BoolStore::U8 => 1,
            },
            DType::QFloat(scheme) => match scheme.store {
                QuantStore::PackedU32(_) => 4,
                QuantStore::PackedNative(_) => match scheme.value {
                    QuantValue::E2M1 => 1,
                    _ => 0,
                },
                QuantStore::Native => match scheme.value {
                    QuantValue::Q4F | QuantValue::Q4S | QuantValue::Q2F | QuantValue::Q2S => 0,
                    _ => 1,
                },
            },
        }
    }
}

/// Symmetric values packed along the innermost dimension into 32-bit words, with full-precision
/// scales.
pub open spec fn packed_symmetric(scheme: QuantScheme) -> bool {
    scheme.param == QuantParam::F32 && scheme.store == QuantStore::PackedU32(0) && scheme.mode
        == QuantMode::Symmetric
}

/// The block of a scheme that has one scale per block and no other.
pub open spec fn single_level_block(scheme: QuantScheme) -> Option<Seq<u8>> {
    match scheme.level {
        QuantLevel::Block(block) => Some(block_dims(block)),
        _ => None,
    }
}

/// Four-bit embedding tables: blocks of thirty-two values along a row.
pub open spec fn q4_embedding(scheme: QuantScheme) -> bool {
    &&& scheme.value == QuantValue::Q4S
    &&& packed_symmetric(scheme)
    &&& single_level_block(scheme) matches Some(dims) && fitted(dims, 2) == seq![1u8, 32u8]
}

/// Block length along the input dimension of a four-bit `[input, output]` weight whose blocks are
/// one column wide; `None` for every other scheme.
pub open spec fn q4_block(scheme: QuantScheme) -> Option<usize> {
    match single_level_block(scheme) {
        Some(dims) => {
            let block = fitted(dims, 2);
            if scheme.value == QuantValue::Q4S && packed_symmetric(scheme) && block[0] != 0
                && block[1] == 1 {
                Some(block[0] as usize)
            } else {
                None
            }
        },
        None => None,
    }
}

/// Block length along the output dimension of an eight-bit `[input, output]` weight whose blocks
/// lie within one row and cover whole words; `None` for every other scheme.
pub open spec fn q8_block(scheme: QuantScheme) -> Option<usize> {
    match single_level_block(scheme) {
        Some(dims) => {
            let within_row = dims.len() == 1 || (dims.len() == 2 && dims[0] == 1);
            if (scheme.value == QuantValue::Q8F || scheme.value == QuantValue::Q8S)
                && packed_symmetric(scheme) && within_row && dims.last() != 0 && dims.last() % 4
                == 0 {
                Some(dims.last() as usize)
            } else {
                None
            }
        },
        None => None,
    }
}

fn is_packed_symmetric(scheme: &QuantScheme) -> (result: bool)
    ensures
        result == packed_symmetric(*scheme),
{
    scheme.param == QuantParam::F32 && scheme.store == QuantStore::PackedU32(0) && scheme.mode
        == QuantMode::Symmetric
}

/// Whether an embedding table of this scheme can be read without expanding it.
pub fn is_q4_embedding_scheme(scheme: &QuantScheme) -> (result: bool)
    ensures
        result == q4_embedding(*scheme),
{
    if scheme.value != QuantValue::Q4S || !is_packed_symmetric(scheme) {
        return false;
    }
    match &scheme.level {
        QuantLevel::Block(block) => {
            let dims = block.as_dim::<2>();
            proof {
                let expected = seq![1u8, 32u8];
                if dims@[0] == 1 && dims@[1] == 32 {
                    assert(dims@ =~= expected);
                }
                assert(expected[0] == 1 && expected[1] == 32);
            }
            dims[0] == 1 && dims[1] == 32
        },
        _ => false,
    }
}

/// The block length along the input dimension, where the four-bit matrix-vector kernel supports
/// the scheme.
pub fn q4_gemv_block_size(scheme: &QuantScheme) -> (result: Option<usize>)
    ensures
        result == q4_block(*scheme),
{
    if scheme.value != QuantValue::Q4S || !is_packed_symmetric(scheme) {
        return None;
    }
    match &scheme.level {
        QuantLevel::Block(block) => {
            let dims = block.as_dim::<2>();
            if dims[0] != 0 && dims[1] == 1 {
                Some(dims[0] as usize)
            } else {
                None
            }
        },
        _ => None,
    }
}

/// The block length along the input dimension, where the scheme is that of four-bit blocks one
/// column wide.
pub fn is_q4_k_block(scheme: &QuantScheme) -> (result: Option<usize>)
    ensures
        result == q4_block(*scheme),
{
    q4_gemv_block_size(scheme)
}

/// The block length along the output dimension, where the eight-bit matrix-vector kernel supports
/// the scheme.
pub fn q8_gemv_block_size(scheme: &QuantScheme) -> (result: Option<usize>)
    ensures
        result == q8_block(*scheme),
{
    if !matches!(scheme.value, QuantValue::Q8F | QuantValue::Q8S) || !is_packed_symmetric(scheme) {
        return None;
    }
    match &scheme.level {
        QuantLevel::Block(block) => {
            let dims = block.as_slice();
            let output: u8 = if dims.len() == 1 {
                dims[0]
            } else if dims.len() == 2 && dims[0] == 1 {
                dims[1]
            } else {
                return None;
            };
            if output != 0 && output % 4 == 0 {
                Some(output as usize)
            } else {
                None
            }
        },
        _ => None,
    }
}

/// No scheme is one of both matrix-vector kernels, so the order in which they are tried does not
/// matter.
pub proof fn lemma_gemv_schemes_disjoint(scheme: QuantScheme)
    ensures
        q8_block(scheme) is None || q4_block(scheme) is None,
{
}

/// A scheme of embedding tables is not one of the matrix-vector kernels.
pub proof fn lemma_embedding_scheme_is_not_gemv(scheme: QuantScheme)
    requires
        q4_embedding(scheme),
    ensures
        q8_block(scheme) is None,
        q4_block(scheme) is None,
{
    let dims = fitted(single_level_block(scheme).unwrap(), 2);
    assert(dims == seq![1u8, 32u8]);
    assert(dims[1] == 32);
}

} // verus!
