//! What acceptance of the operands guarantees to the kernels: launches match the outputs, and every
//! tensor has the dimensions that the threads count on.

use vstd::prelude::*;

use crate::attention::{attends, holds_shards};
use crate::rules::{
    attention_rejection, gathered_shape, gemv_bias_rejection, gemv_rejection, partial_shape,
    product_shape, q4_embedding_rejection, q4_embedding_row_rejection, q4_gemv_bias_rejection,
    q4_gemv_rejection, q4_projection_rejection, q4_scale_height, q8_gemv_bias_rejection,
    q8_gemv_rejection, q8_scale_width, rms_norm_rejection, rope_rejection, silu_mul_rejection,
    word_products, LONG_CONTEXT, SHARDS,
};
use crate::embedding::table_parts;
use crate::gemv::q8_parts;
use crate::quantize::q4_parts;
use crate::scheme::DType;
use crate::shape::{in_shape, lemma_flat_bound, lemma_pair, product};
use crate::tensor::{
    grouped, last_element, lemma_row_major_address, row_major, QuantParts, QuantTensor, TensorInfo,
};

verus! {

/// Every element of a tensor without gaps has an address, and addresses lie below the number of
/// elements.
pub proof fn lemma_row_major_addressable(tensor: TensorInfo)
    requires
        row_major(tensor.strides@, tensor.shape@),
        product(tensor.shape@) <= usize::MAX,
    ensures
        tensor.addressable(),
        product(tensor.shape@) > 0 ==> tensor.extent() <= product(tensor.shape@),
{
    let shape = tensor.shape@;
    let last = last_element(shape);
    lemma_row_major_address(last, tensor.strides@, shape);
    if forall|d: int| 0 <= d < shape.len() ==> #[trigger] shape[d] > 0 {
        assert(in_shape(last, shape)) by {
            assert forall|d: int| 0 <= d < shape.len() implies 0 <= #[trigger] last[d] < shape[d] by {
                assert(shape[d] > 0);
            }
        }
        lemma_flat_bound(last, shape);
    } else {
        let d = choose|d: int| 0 <= d < shape.len() && !(#[trigger] shape[d] > 0);
        crate::shape::lemma_product_zero(shape, d);
    }
}

// The last dimension of a tensor counts the elements of its rows.
proof fn lemma_rows_times_width(shape: Seq<usize>)
    requires
        shape.len() > 0,
        shape.last() > 0,
    ensures
        product(shape) == (product(shape) as int / shape.last() as int) * shape.last(),
        product(shape) as int / shape.last() as int == product(shape.drop_last()),
{
    lemma_pair(product(shape.drop_last()) as int, shape.last() as int, 0);
}

proof fn lemma_grouped_cubes(count: int)
    requires
        0 <= count < 0x1_0000_0000,
    ensures
        grouped(count).cubes == count,
{
    vstd::arithmetic::div_mod::lemma_small_mod(count as nat, 0x1_0000_0000);
}

/// Accepted rows fill the tensor, and each has a group of its own.
pub proof fn lemma_rms_norm_accepted(input: TensorInfo, gamma: TensorInfo)
    requires
        rms_norm_rejection(input, gamma) is None,
    ensures
        ({
            let width = input.shape@.last() as int;
            let rows = product(input.shape@) as int / width;
            &&& width > 0
            &&& rows * width == product(input.shape@)
            &&& product(gamma.shape@) == width
            &&& product(input.shape@) <= usize::MAX
            &&& rows < 0x1_0000_0000 ==> grouped(rows).cubes == rows
        }),
{
    let shape = input.shape@;
    lemma_rows_times_width(shape);
    assert(shape.skip(0) =~= shape);
    assert(product(shape.skip(0)) <= usize::MAX);
    let rows = product(shape) as int / shape.last() as int;
    if rows < 0x1_0000_0000 {
        lemma_grouped_cubes(rows);
    }
}

/// An accepted gated product has operands of one shape, whose elements can be counted.
pub proof fn lemma_silu_mul_accepted(input: TensorInfo, gate: TensorInfo)
    requires
        silu_mul_rejection(input, gate) is None,
    ensures
        gate.shape@ == input.shape@,
        product(input.shape@) <= usize::MAX,
{
    assert(input.shape@.skip(0) =~= input.shape@);
    assert(product(input.shape@.skip(0)) <= usize::MAX);
}

/// Accepted rotary embeddings have an input of four dimensions, whose elements can be counted.
pub proof fn lemma_rope_accepted(input: TensorInfo, frequencies: TensorInfo)
    requires
        rope_rejection(input, frequencies) is None,
    ensures
        input.shape@.len() == 4,
        frequencies.shape@.len() == 3,
        product(input.shape@) <= usize::MAX,
{
    assert(input.shape@.skip(0) =~= input.shape@);
    assert(product(input.shape@.skip(0)) <= usize::MAX);
}

/// Accepted attention operands fit together, and the intermediate results of a long context have a
/// row per shard.
pub proof fn lemma_attention_accepted(
    query: TensorInfo,
    key: TensorInfo,
    value: TensorInfo,
    partials: TensorInfo,
)
    requires
        attention_rejection(query, key, value) is None,
        query.addressable(),
        key.addressable(),
        value.addressable(),
        key.shape@[2] >= LONG_CONTEXT ==> partials.is_contiguous_as(
            query.device,
            DType::F32,
            partial_shape(query.shape@),
        ),
    ensures
        attends(query, key, value),
        key.shape@[2] >= LONG_CONTEXT ==> holds_shards(partials, query.shape@),
        ({
            let heads = query.shape@[0] * query.shape@[1];
            &&& heads < 0x1_0000_0000 ==> grouped(heads).cubes == heads
            &&& heads * SHARDS < 0x1_0000_0000 ==> grouped(heads * SHARDS).cubes == heads * SHARDS
        }),
{
    let heads = query.shape@[0] * query.shape@[1];
    assert(heads >= 0) by (nonlinear_arith)
        requires
            heads == query.shape@[0] * query.shape@[1],
    ;
    if heads < 0x1_0000_0000 {
        lemma_grouped_cubes(heads);
    }
    if heads * SHARDS < 0x1_0000_0000 {
        lemma_grouped_cubes(heads * SHARDS);
    }
    if key.shape@[2] >= LONG_CONTEXT {
        let shape = partial_shape(query.shape@);
        assert(shape.skip(0) =~= shape);
        assert(product(shape.skip(0)) <= usize::MAX);
        lemma_row_major_addressable(partials);
    }
}

// The product of three dimensions.
proof fn lemma_triple_product(shape: Seq<usize>)
    requires
        shape.len() == 3,
    ensures
        product(shape) == (shape[0] * shape[1]) * shape[2],
        shape[0] * shape[1] >= 0,
{
    reveal_with_fuel(product, 4);
    assert(shape.drop_last().drop_last().drop_last() =~= Seq::<usize>::empty());
    assert(1 * shape[0] as nat * shape[1] as nat * shape[2] as nat == (shape[0] * shape[1])
        * shape[2] && shape[0] * shape[1] >= 0) by (nonlinear_arith);
}

/// An accepted product has one group per output element: `output_width` for each of the input rows.
pub proof fn lemma_gemv_accepted(input: TensorInfo, weight: TensorInfo, output_width: u32)
    requires
        gemv_rejection(input, weight, output_width) is None,
    ensures
        ({
            let rows = input.shape@[0] * input.shape@[1];
            let count = product(product_shape(input.shape@, output_width as int)) as int;
            &&& 0 < output_width <= weight.shape@[1]
            &&& weight.shape@[0] == input.shape@[2]
            &&& product(input.shape@) == rows * weight.shape@[0]
            &&& count == rows * output_width
            &&& count <= usize::MAX
            &&& count < 0x1_0000_0000 ==> grouped(count).cubes == count
        }),
{
    lemma_prefix_count(input, output_width as int);
    let shape = product_shape(input.shape@, output_width as int);
    assert(shape.skip(0) =~= shape);
    assert(product(shape.skip(0)) <= usize::MAX);
    if product(shape) < 0x1_0000_0000 {
        lemma_grouped_cubes(product(shape) as int);
    }
}

proof fn lemma_prefix_count(input: TensorInfo, output_width: int)
    requires
        input.shape@.len() == 3,
        0 <= output_width <= usize::MAX,
    ensures
        ({
            let rows = input.shape@[0] * input.shape@[1];
            &&& product(input.shape@) == rows * input.shape@[2]
            &&& product(product_shape(input.shape@, output_width)) == rows * output_width
            &&& rows >= 0
        }),
{
    lemma_triple_product(input.shape@);
    lemma_triple_product(product_shape(input.shape@, output_width));
}

/// An accepted product with a bias computes every column, and the bias has one entry per column.
pub proof fn lemma_gemv_bias_accepted(input: TensorInfo, weight: TensorInfo, bias: TensorInfo)
    requires
        gemv_bias_rejection(input, weight, bias) is None,
    ensures
        ({
            let rows = input.shape@[0] * input.shape@[1];
            let columns = weight.shape@[1];
            let count = product(product_shape(input.shape@, columns as int)) as int;
            &&& 0 < columns
            &&& weight.shape@[0] == input.shape@[2]
            &&& product(bias.shape@) == columns
            &&& count == rows * columns
            &&& count <= usize::MAX
            &&& count < 0x1_0000_0000 ==> grouped(count).cubes == count
        }),
{
    let columns = weight.shape@[1] as int;
    lemma_prefix_count(input, columns);
    let shape = product_shape(input.shape@, columns);
    assert(shape.skip(0) =~= shape);
    assert(product(shape.skip(0)) <= usize::MAX);
    if product(shape) < 0x1_0000_0000 {
        lemma_grouped_cubes(product(shape) as int);
    }
}

/// Words per row times rows is the number of groups.
pub proof fn lemma_word_groups(input: TensorInfo, weight: TensorInfo, output_width: int, per_word: int)
    requires
        input.shape@.len() == 3,
        weight.shape@[0] == input.shape@[2],
        weight.shape@[0] > 0,
        0 <= output_width <= usize::MAX,
        0 < per_word,
        output_width % per_word == 0,
    ensures
        ({
            let rows = input.shape@[0] * input.shape@[1];
            &&& rows >= 0
            &&& product(input.shape@) == rows * weight.shape@[0]
            &&& word_products(input, weight, output_width, per_word) == rows * (output_width
                / per_word)
        }),
{
    let rows = input.shape@[0] * input.shape@[1];
    lemma_prefix_count(input, output_width);
    lemma_pair(rows, weight.shape@[0] as int, 0);
    let words = output_width / per_word;
    vstd::arithmetic::div_mod::lemma_fundamental_div_mod(output_width, per_word);
    assert(rows * output_width == (rows * words) * per_word) by (nonlinear_arith)
        requires
            output_width == per_word * words + output_width % per_word,
            output_width % per_word == 0,
    ;
    lemma_pair(rows * words, per_word, 0);
}

/// Every element of packed values and scales has an address. Parts may have more than the two
/// dimensions that kernels go by, as long as none of the others is empty.
pub open spec fn are_readable(parts: QuantParts) -> bool {
    &&& parts.values.addressable()
    &&& parts.values.leads_with(0, 0)
    &&& parts.scales.addressable()
    &&& parts.scales.leads_with(0, 0)
}

/// An accepted product with eight-bit weights has one group per word of each input row, and its
/// parts have the dimensions that the lanes read.
pub proof fn lemma_q8_gemv_accepted(input: TensorInfo, weight: QuantTensor, output_width: u32)
    requires
        q8_gemv_rejection(input, weight, output_width) is None,
        weight.parts matches Some(parts) ==> are_readable(parts),
    ensures
        ({
            let rows = input.shape@[0] * input.shape@[1];
            let count = word_products(input, weight.info, output_width as int, 4);
            &&& weight.parts matches Some(parts) && q8_parts(
                parts.values,
                parts.scales,
                parts.values.shape@[0] as int,
                weight.info.shape@[1] as int,
                q8_scale_width(weight.info) as int,
            ) && rows * parts.values.shape@[0] <= usize::MAX
            &&& 0 < output_width <= weight.info.shape@[1]
            &&& output_width % 4 == 0
            &&& count == rows * (output_width as int / 4)
            &&& 0 <= count < 0x1_0000_0000 ==> grouped(count).cubes == count
        }),
{
    lemma_word_groups(input, weight.info, output_width as int, 4);
    let count = word_products(input, weight.info, output_width as int, 4);
    if 0 <= count < 0x1_0000_0000 {
        lemma_grouped_cubes(count);
    }
}

/// An accepted product with eight-bit weights and a bias computes every column.
pub proof fn lemma_q8_gemv_bias_accepted(input: TensorInfo, weight: QuantTensor, bias: TensorInfo)
    requires
        q8_gemv_bias_rejection(input, weight, bias) is None,
        weight.parts matches Some(parts) ==> are_readable(parts),
    ensures
        ({
            let rows = input.shape@[0] * input.shape@[1];
            let columns = weight.info.shape@[1];
            let count = word_products(input, weight.info, columns as int, 4);
            &&& weight.parts matches Some(parts) && q8_parts(
                parts.values,
                parts.scales,
                parts.values.shape@[0] as int,
                columns as int,
                q8_scale_width(weight.info) as int,
            ) && rows * parts.values.shape@[0] <= usize::MAX
            &&& 0 < columns
            &&& columns % 4 == 0
            &&& product(bias.shape@) == columns
            &&& count == rows * (columns as int / 4)
            &&& 0 <= count < 0x1_0000_0000 ==> grouped(count).cubes == count
        }),
{
    let columns = weight.info.shape@[1] as int;
    lemma_word_groups(input, weight.info, columns, 4);
    let count = word_products(input, weight.info, columns, 4);
    if 0 <= count < 0x1_0000_0000 {
        lemma_grouped_cubes(count);
    }
}

/// An accepted product with four-bit weights has one group per word of each input row, and its
/// parts have the dimensions that the lanes read.
pub proof fn lemma_q4_gemv_accepted(input: TensorInfo, weight: QuantTensor, output_width: u32)
    requires
        q4_gemv_rejection(input, weight, output_width) is None,
        weight.parts matches Some(parts) ==> are_readable(parts),
    ensures
        ({
            let rows = input.shape@[0] * input.shape@[1];
            let count = word_products(input, weight.info, output_width as int, 8);
            &&& weight.parts matches Some(parts) && q4_parts(
                parts.values,
                parts.scales,
                parts.values.shape@[0] as int,
                weight.info.shape@[1] as int,
                q4_scale_height(weight.info) as int,
            ) && rows * parts.values.shape@[0] <= usize::MAX
            &&& 0 < output_width <= weight.info.shape@[1]
            &&& output_width % 8 == 0
            &&& count == rows * (output_width as int / 8)
            &&& 0 <= count < 0x1_0000_0000 ==> grouped(count).cubes == count
        }),
{
    lemma_word_groups(input, weight.info, output_width as int, 8);
    let count = word_products(input, weight.info, output_width as int, 8);
    if 0 <= count < 0x1_0000_0000 {
        lemma_grouped_cubes(count);
    }
}

/// An accepted product with four-bit weights and a bias computes every column.
pub proof fn lemma_q4_gemv_bias_accepted(input: TensorInfo, weight: QuantTensor, bias: TensorInfo)
    requires
        q4_gemv_bias_rejection(input, weight, bias) is None,
        weight.parts matches Some(parts) ==> are_readable(parts),
    ensures
        ({
            let rows = input.shape@[0] * input.shape@[1];
            let columns = weight.info.shape@[1];
            let count = word_products(input, weight.info, columns as int, 8);
            &&& weight.parts matches Some(parts) && q4_parts(
                parts.values,
                parts.scales,
                parts.values.shape@[0] as int,
                columns as int,
                q4_scale_height(weight.info) as int,
            ) && rows * parts.values.shape@[0] <= usize::MAX
            &&& 0 < columns
            &&& columns % 8 == 0
            &&& product(bias.shape@) == columns
            &&& count == rows * (columns as int / 8)
            &&& 0 <= count < 0x1_0000_0000 ==> grouped(count).cubes == count
        }),
{
    let columns = weight.info.shape@[1] as int;
    lemma_word_groups(input, weight.info, columns, 8);
    let count = word_products(input, weight.info, columns, 8);
    if 0 <= count < 0x1_0000_0000 {
        lemma_grouped_cubes(count);
    }
}

/// An accepted lookup reads a table whose parts have the dimensions that the threads count on, and
/// writes a row per index.
pub proof fn lemma_q4_embedding_accepted(table: QuantTensor, indices: TensorInfo)
    requires
        q4_embedding_rejection(table, indices) is None,
        table.parts matches Some(parts) ==> are_readable(parts),
    ensures
        ({
            let columns = table.info.shape@[1];
            &&& table.parts matches Some(parts) && table_parts(
                parts.values,
                parts.scales,
                parts.values.shape@[0] as int,
                columns as int,
            )
            &&& product(gathered_shape(indices.shape@, columns)) == (indices.shape@[0]
                * indices.shape@[1]) * columns
        }),
{
    lemma_triple_product(gathered_shape(indices.shape@, table.info.shape@[1]));
}

/// An accepted row lies within a table whose parts have the dimensions that the threads count on.
pub proof fn lemma_q4_embedding_row_accepted(table: QuantTensor, row: u32)
    requires
        q4_embedding_row_rejection(table, row) is None,
        table.parts matches Some(parts) ==> are_readable(parts),
    ensures
        table.parts matches Some(parts) && table_parts(
            parts.values,
            parts.scales,
            parts.values.shape@[0] as int,
            table.info.shape@[1] as int,
        ) && row < parts.values.shape@[0],
{
}

/// An accepted projection onto a table whose rows are whole blocks reads within the table, and has
/// one group per input row and projected row.
pub proof fn lemma_q4_projection_accepted(
    input: TensorInfo,
    table: QuantTensor,
    semantic_start: u32,
    semantic_rows: u32,
    eos_row: u32,
)
    requires
        q4_projection_rejection(input, table, semantic_start, semantic_rows, eos_row) is None,
        table.info.shape@[1] % 32 == 0,
        table.parts matches Some(parts) ==> are_readable(parts),
    ensures
        ({
            let columns = table.info.shape@[1] as int;
            let rows = input.shape@[0] * input.shape@[1];
            let count = product(input.shape@) as int / columns * (semantic_rows + 1);
            &&& table.parts matches Some(parts) && table_parts(
                parts.values,
                parts.scales,
                parts.values.shape@[0] as int,
                8 * parts.values.shape@[1],
            ) && 8 * parts.values.shape@[1] == columns && semantic_start + semantic_rows
                <= parts.values.shape@[0] && eos_row < parts.values.shape@[0] && rows * (8
                * parts.values.shape@[1]) <= usize::MAX
            &&& count == rows * (semantic_rows + 1)
            &&& 0 <= count < 0x1_0000_0000 ==> grouped(count).cubes == count
        }),
{
    lemma_prefix_count(input, 0);
    let columns = table.info.shape@[1] as int;
    let rows = input.shape@[0] * input.shape@[1];
    lemma_pair(rows, columns, 0);
    let count = product(input.shape@) as int / columns * (semantic_rows + 1);
    if 0 <= count < 0x1_0000_0000 {
        lemma_grouped_cubes(count);
    }
}

} // verus!
