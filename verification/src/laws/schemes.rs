//! Schemes and element types: which kernel serves which, and how many bytes an element takes.

use vstd::prelude::*;

use crate::scheme::{
    block_dims, dtype_size, dtypes_equal, fitted, is_q4_embedding_scheme, is_q4_k_block,
    q4_block, q4_embedding, q4_gemv_block_size, q8_block, q8_gemv_block_size, BoolStore, DType,
    QuantLevel, QuantMode, QuantParam, QuantScheme, QuantStore, QuantValue,
};

verus! {

/// Rows and columns of a block in a matrix. A block with one dimension lies within a row.
pub open spec fn block_in_matrix(dims: Seq<u8>) -> (int, int) {
    if dims.len() >= 2 {
        (dims[0] as int, dims[1] as int)
    } else if dims.len() == 1 {
        (1, dims[0] as int)
    } else {
        (1, 1)
    }
}

/// Symmetric values in words along rows, with a scale in single precision for each block and no
/// other.
pub open spec fn packed_in_blocks(scheme: QuantScheme, dims: Seq<u8>) -> bool {
    &&& scheme.param == QuantParam::F32
    &&& scheme.store == QuantStore::PackedU32(0)
    &&& scheme.mode == QuantMode::Symmetric
    &&& scheme.level matches QuantLevel::Block(block)
    &&& block_dims(block) == dims
}

/// Dimensions of the blocks of a scheme that has blocks.
pub open spec fn dims_of(scheme: QuantScheme) -> Seq<u8> {
    match scheme.level {
        QuantLevel::Block(block) | QuantLevel::BlockTensor(block) => block_dims(block),
        QuantLevel::Tensor => Seq::empty(),
    }
}

/// Four-bit values with one scale per `block` rows of a column.
pub open spec fn q4_in_columns(scheme: QuantScheme, block: int) -> bool {
    &&& scheme.value == QuantValue::Q4S
    &&& packed_in_blocks(scheme, dims_of(scheme))
    &&& block > 0
    &&& block_in_matrix(dims_of(scheme)) == (block, 1int)
}

/// Eight-bit values with one scale per `block` columns of a row, which fill whole words.
pub open spec fn q8_in_rows(scheme: QuantScheme, block: int) -> bool {
    let dims = dims_of(scheme);
    &&& scheme.value == QuantValue::Q8S || scheme.value == QuantValue::Q8F
    &&& packed_in_blocks(scheme, dims)
    &&& dims.len() == 1 || dims.len() == 2
    &&& block > 0 && block % 4 == 0
    &&& block_in_matrix(dims) == (1int, block)
}

/// Four-bit values with one scale per thirty-two columns of a row.
pub open spec fn q4_in_rows(scheme: QuantScheme) -> bool {
    &&& scheme.value == QuantValue::Q4S
    &&& packed_in_blocks(scheme, dims_of(scheme))
    &&& block_in_matrix(dims_of(scheme)) == (1int, 32int)
}

// What a list of block dimensions is in a matrix.
proof fn lemma_fitted(dims: Seq<u8>)
    ensures
        fitted(dims, 2).len() == 2,
        fitted(dims, 2)[0] == block_in_matrix(dims).0,
        fitted(dims, 2)[1] == block_in_matrix(dims).1,
{
}

/// The block of four-bit columns, as the library keeps it.
pub proof fn lemma_q4_block(scheme: QuantScheme, block: int)
    ensures
        q4_in_columns(scheme, block) <==> (q4_block(scheme) matches Some(b) && b == block),
        q4_block(scheme) is None ==> !q4_in_columns(scheme, block),
        q4_block(scheme) matches Some(b) ==> 0 < b <= 255,
{
    lemma_fitted(dims_of(scheme));
}

/// The block of eight-bit rows, as the library keeps it.
pub proof fn lemma_q8_block(scheme: QuantScheme, block: int)
    ensures
        q8_in_rows(scheme, block) <==> (q8_block(scheme) matches Some(b) && b == block),
        q8_block(scheme) is None ==> !q8_in_rows(scheme, block),
        q8_block(scheme) matches Some(b) ==> 0 < b <= 255,
{
}

/// The scheme of four-bit tables, as the library keeps it.
pub proof fn lemma_q4_table(scheme: QuantScheme)
    ensures
        q4_in_rows(scheme) <==> q4_embedding(scheme),
{
    let dims = fitted(dims_of(scheme), 2);
    lemma_fitted(dims_of(scheme));
    let expected = seq![1u8, 32u8];
    assert(expected[0] == 1 && expected[1] == 32);
    if dims[0] == 1 && dims[1] == 32 {
        assert(dims =~= expected);
    }
}

/// The four-bit product serves columns of blocks, with the rows of a block.
pub proof fn lemma_q4_gemv_schemes(scheme: QuantScheme, answer: Option<usize>, block: int)
    requires
        call_ensures(q4_gemv_block_size, (&scheme,), answer),
    ensures
        answer == Some(block as usize) && 0 <= block <= usize::MAX <==> q4_in_columns(scheme, block),
        answer is None ==> !q4_in_columns(scheme, block),
{
    lemma_q4_block(scheme, block);
}

/// Four-bit quantization serves the same schemes.
pub proof fn lemma_q4_quantized_schemes(scheme: QuantScheme, answer: Option<usize>, block: int)
    requires
        call_ensures(is_q4_k_block, (&scheme,), answer),
    ensures
        answer == Some(block as usize) && 0 <= block <= usize::MAX <==> q4_in_columns(scheme, block),
        answer is None ==> !q4_in_columns(scheme, block),
{
    lemma_q4_block(scheme, block);
}

/// The eight-bit product serves rows of blocks, with the columns of a block.
pub proof fn lemma_q8_gemv_schemes(scheme: QuantScheme, answer: Option<usize>, block: int)
    requires
        call_ensures(q8_gemv_block_size, (&scheme,), answer),
    ensures
        answer == Some(block as usize) && 0 <= block <= usize::MAX <==> q8_in_rows(scheme, block),
        answer is None ==> !q8_in_rows(scheme, block),
{
    lemma_q8_block(scheme, block);
}

/// Tables are read without expansion where thirty-two columns of a row share a scale.
pub proof fn lemma_q4_table_schemes(scheme: QuantScheme, answer: bool)
    requires
        call_ensures(is_q4_embedding_scheme, (&scheme,), answer),
    ensures
        answer <==> q4_in_rows(scheme),
{
    lemma_q4_table(scheme);
}

/// Element types are compared: equal ones are the same, and those that are the same are equal but for
/// quantized ones, whose schemes then agree in every part.
pub proof fn lemma_element_types_compared(a: DType, b: DType, answer: bool)
    requires
        call_ensures(dtypes_equal, (&a, &b), answer),
    ensures
        a == b ==> answer,
        a matches DType::QFloat(x) && (b matches DType::QFloat(y) && x.value == y.value && x.param
            == y.param && x.store == y.store && x.mode == y.mode && dims_of(x) == dims_of(y) && (
        x.level is Tensor <==> y.level is Tensor) && (x.level is Block <==> y.level is Block))
            ==> answer,
        answer && !(a is QFloat) ==> a == b,
        answer ==> (a is QFloat <==> b is QFloat),
        answer ==> (a matches DType::QFloat(x) ==> b matches DType::QFloat(y) && x.value == y.value
            && x.param == y.param && x.store == y.store && x.mode == y.mode && dims_of(x) == dims_of(
            y,
        ) && (x.level is Tensor <==> y.level is Tensor) && (x.level is Block <==> y.level is Block)),
{
}

/// Bits that an element takes in memory. Unpacked quantized values narrower than a byte take none.
pub proof fn lemma_element_sizes(dtype: DType, bytes: usize)
    requires
        call_ensures(DType::size, (&dtype,), bytes),
    ensures
        dtype is F64 || dtype is I64 || dtype is U64 ==> bytes * 8 == 64,
        dtype is F32 || dtype is Flex32 || dtype is I32 || dtype is U32 ==> bytes * 8 == 32,
        dtype is F16 || dtype is BF16 || dtype is I16 || dtype is U16 ==> bytes * 8 == 16,
        dtype is I8 || dtype is U8 ==> bytes * 8 == 8,
        dtype matches DType::Bool(store) ==> bytes * 8 == (if store == BoolStore::U32 {
            32
        } else {
            8int
        }),
        dtype matches DType::QFloat(scheme) ==> match scheme.store {
            QuantStore::PackedU32(_) => bytes * 8 == 32,
            QuantStore::PackedNative(_) => bytes == (if scheme.value == QuantValue::E2M1 {
                1int
            } else {
                0
            }),
            QuantStore::Native => bytes == (match scheme.value {
                QuantValue::Q4F | QuantValue::Q4S | QuantValue::Q2F | QuantValue::Q2S => 0int,
                _ => 1,
            }),
        },
        bytes == dtype_size(dtype),
{
}

} // verus!
