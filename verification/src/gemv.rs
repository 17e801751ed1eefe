//! Matrix-vector products: the terms that each lane sums up, for dense, eight-bit and four-bit
//! weights.

use vstd::prelude::*;

use crate::dequantize::expanded;
use crate::quantize::q4_parts;
use crate::shape::{
    ceil_div, lemma_pair, lemma_pair_bound, lemma_split, lemma_strided_bound,
    lemma_strided_partition, strided, strided_len, strided_positions,
};
use crate::tensor::{at2, lemma_gapless, TensorInfo};

verus! {

/// One term of a dense product: an input and the weight that it is multiplied by.
#[derive(Clone, Copy, Debug, PartialEq, Eq, Structural)]
pub struct Term {
    /// Address of the input.
    pub input: usize,
    /// Address of the weight.
    pub weight: usize,
}

/// The terms of lane `lane` for column `column` of an input row: every thirty-second row of the
/// weight.
pub open spec fn dense_terms(
    terms: Seq<Term>,
    row: int,
    column: int,
    lane: int,
    input_width: int,
    strides: Seq<usize>,
) -> bool {
    &&& terms.len() == strided_len(lane, 32, input_width)
    &&& forall|k: int|
        0 <= k < terms.len() ==> (#[trigger] terms[k]).input == row * input_width + strided(
            lane,
            32,
            input_width,
        )[k]
    &&& forall|k: int|
        0 <= k < terms.len() ==> (#[trigger] terms[k]).weight == at2(
            strides,
            strided(lane, 32, input_width)[k],
            column,
        )
}

/// What one lane of the dense kernel sums up for output element `output_index`, of which there are
/// `output_width` per input row.
pub fn gemv_unit(
    output_index: usize,
    lane: usize,
    rows: usize,
    output_width: usize,
    weight: &TensorInfo,
) -> (terms: Vec<Term>)
    requires
        weight.addressable(),
        weight.shape@.len() == 2,
        0 < output_width <= weight.shape@[1],
        output_index < rows * output_width,
        rows * weight.shape@[0] <= usize::MAX,
        lane < 32,
    ensures
        dense_terms(
            terms@,
            output_index as int / output_width as int,
            output_index as int % output_width as int,
            lane as int,
            weight.shape@[0] as int,
            weight.strides@,
        ),
{
    let input_width: usize = weight.shape[0];
    let row: usize = output_index / output_width;
    let column_out: usize = output_index % output_width;
    let columns_in = strided_positions(lane, 32, input_width);
    let mut terms: Vec<Term> = Vec::with_capacity(columns_in.len());
    let mut k: usize = 0;
    proof {
        lemma_split(output_index as int, rows as int, output_width as int);
    }
    while k < columns_in.len()
        invariant
            k <= columns_in@.len(),
            weight.addressable(),
            weight.shape@.len() == 2,
            input_width == weight.shape@[0],
            row < rows,
            column_out < weight.shape@[1],
            rows * input_width <= usize::MAX,
            columns_in@.len() == strided_len(lane as int, 32, input_width as int),
            forall|j: int|
                0 <= j < columns_in@.len() ==> #[trigger] columns_in@[j] == strided(
                    lane as int,
                    32,
                    input_width as int,
                )[j],
            terms@.len() == k,
            forall|j: int|
                0 <= j < k ==> (#[trigger] terms@[j]).input == row * input_width + strided(
                    lane as int,
                    32,
                    input_width as int,
                )[j],
            forall|j: int|
                0 <= j < k ==> (#[trigger] terms@[j]).weight == at2(
                    weight.strides@,
                    strided(lane as int, 32, input_width as int)[j],
                    column_out as int,
                ),
        decreases columns_in@.len() - k,
    {
        let column_in: usize = columns_in[k];
        proof {
            lemma_strided_bound(lane as int, 32, input_width as int, k as int);
            lemma_pair_bound(row as int, rows as int, input_width as int, column_in as int);
            assert(0 <= row * input_width) by (nonlinear_arith);
        }
        terms.push(
            Term {
                input: row * input_width + column_in,
                weight: weight.at2(column_in, column_out),
            },
        );
        k = k + 1;
    }
    terms
}

/// What one lane of the dense kernel with a bias sums up: weights are read as rows without gaps,
/// and the address of the bias is that of the column.
pub fn gemv_bias_unit(
    output_index: usize,
    lane: usize,
    rows: usize,
    input_width: usize,
    output_width: usize,
) -> (unit: (Vec<Term>, usize))
    requires
        0 < output_width,
        output_index < rows * output_width,
        rows * input_width <= usize::MAX,
        input_width * output_width <= usize::MAX,
        lane < 32,
    ensures
        dense_terms(
            unit.0@,
            output_index as int / output_width as int,
            output_index as int % output_width as int,
            lane as int,
            input_width as int,
            seq![output_width, 1],
        ),
        unit.1 == output_index as int % output_width as int,
{
    let row: usize = output_index / output_width;
    let column_out: usize = output_index % output_width;
    let columns_in = strided_positions(lane, 32, input_width);
    let mut terms: Vec<Term> = Vec::with_capacity(columns_in.len());
    let mut k: usize = 0;
    proof {
        lemma_split(output_index as int, rows as int, output_width as int);
    }
    while k < columns_in.len()
        invariant
            k <= columns_in@.len(),
            row < rows,
            column_out < output_width,
            rows * input_width <= usize::MAX,
            input_width * output_width <= usize::MAX,
            columns_in@.len() == strided_len(lane as int, 32, input_width as int),
            forall|j: int|
                0 <= j < columns_in@.len() ==> #[trigger] columns_in@[j] == strided(
                    lane as int,
                    32,
                    input_width as int,
                )[j],
            terms@.len() == k,
            forall|j: int|
                0 <= j < k ==> (#[trigger] terms@[j]).input == row * input_width + strided(
                    lane as int,
                    32,
                    input_width as int,
                )[j],
            forall|j: int|
                0 <= j < k ==> (#[trigger] terms@[j]).weight == at2(
                    seq![output_width, 1],
                    strided(lane as int, 32, input_width as int)[j],
                    column_out as int,
                ),
        decreases columns_in@.len() - k,
    {
        let column_in: usize = columns_in[k];
        proof {
            lemma_strided_bound(lane as int, 32, input_width as int, k as int);
            lemma_pair_bound(row as int, rows as int, input_width as int, column_in as int);
            lemma_pair_bound(
                column_in as int,
                input_width as int,
                output_width as int,
                column_out as int,
            );
            assert(0 <= row * input_width && 0 <= column_in * output_width) by (nonlinear_arith);
            lemma_gapless(
                seq![output_width, 1],
                output_width as int,
                column_in as int,
                column_out as int,
            );
        }
        terms.push(
            Term {
                input: row * input_width + column_in,
                weight: column_in * output_width + column_out,
            },
        );
        k = k + 1;
    }
    (terms, column_out)
}

/// The lanes of a group sum up every product once: row `i` of the weight is taken by lane `i % 32`,
/// in turn `i / 32`, and by no other.
pub proof fn lemma_lanes_sum_all(input_width: int, i: int)
    requires
        0 <= i < input_width,
    ensures
        0 <= i / 32 < strided_len(i % 32, 32, input_width),
        strided(i % 32, 32, input_width)[i / 32] == i,
        forall|lane: int, k: int|
            0 <= lane < 32 && 0 <= k < strided_len(lane, 32, input_width) && #[trigger] strided(
                lane,
                32,
                input_width,
            )[k] == i ==> lane == i % 32 && k == i / 32,
{
    lemma_strided_partition(32, input_width, i);
}

/// Every output element has one group and one place in its word: element `(row, column)` comes from
/// group `row * words + column / per_word`, at place `column % per_word`.
pub proof fn lemma_groups_cover_outputs(
    rows: int,
    output_width: int,
    per_word: int,
    row: int,
    column: int,
)
    requires
        0 < per_word,
        output_width % per_word == 0,
        0 <= row < rows,
        0 <= column < output_width,
    ensures
        ({
            let words = output_width / per_word;
            let group = row * words + column / per_word;
            &&& 0 <= group < rows * words
            &&& group / words == row
            &&& (group % words) * per_word + column % per_word == column
            &&& forall|other: int, place: int|
                #![trigger other / words, (other % words) * per_word + place]
                0 <= other < rows * words && 0 <= place < per_word && other / words == row && (other
                    % words) * per_word + place == column ==> other == group && place == column
                    % per_word
        }),
{
    let words = output_width / per_word;
    vstd::arithmetic::div_mod::lemma_fundamental_div_mod(output_width, per_word);
    assert(output_width == words * per_word) by (nonlinear_arith)
        requires
            output_width == per_word * words + output_width % per_word,
            output_width % per_word == 0,
    ;
    lemma_split(column, words, per_word);
    lemma_pair(row, words, column / per_word);
    lemma_pair_bound(row, rows, words, column / per_word);
    assert forall|other: int, place: int|
        #![trigger other / words, (other % words) * per_word + place]
        0 <= other < rows * words && 0 <= place < per_word && other / words == row && (other % words)
            * per_word + place == column implies other == row * words
        + column / per_word && place == column % per_word by {
        lemma_split(other, rows, words);
        lemma_pair(other % words, per_word, place);
    }
}

/// The leading columns are those of the whole product: the group of an output element has the same
/// input row and word column, and so sums up the same terms, whatever width is computed.
pub proof fn lemma_prefix_agrees(
    output_width: int,
    full_width: int,
    per_word: int,
    row: int,
    column: int,
)
    requires
        0 < per_word,
        output_width % per_word == 0,
        full_width % per_word == 0,
        0 <= row,
        0 <= column < output_width <= full_width,
    ensures
        ({
            let (some, all) = (output_width / per_word, full_width / per_word);
            let (group, whole) = (row * some + column / per_word, row * all + column / per_word);
            &&& group / some == row && whole / all == row
            &&& group % some == column / per_word && whole % all == column / per_word
        }),
{
    lemma_groups_cover_outputs(row + 1, output_width, per_word, row, column);
    lemma_groups_cover_outputs(row + 1, full_width, per_word, row, column);
    let (some, all) = (output_width / per_word, full_width / per_word);
    vstd::arithmetic::div_mod::lemma_fundamental_div_mod(output_width, per_word);
    vstd::arithmetic::div_mod::lemma_fundamental_div_mod(full_width, per_word);
    assert(output_width == some * per_word && full_width == all * per_word) by (nonlinear_arith)
        requires
            output_width == per_word * some + output_width % per_word,
            full_width == per_word * all + full_width % per_word,
            output_width % per_word == 0,
            full_width % per_word == 0,
    ;
    lemma_split(column, some, per_word);
    lemma_split(column, all, per_word);
    lemma_pair(row, some, column / per_word);
    lemma_pair(row, all, column / per_word);
}

/// For each input row every word is read once: the word in row `column_in` and column `word` of the
/// weight by lane `column_in % 32` of group `row * words + word`, in turn `column_in / 32`.
pub proof fn lemma_words_read_once(
    rows: int,
    words: int,
    input_width: int,
    row: int,
    word: int,
    column_in: int,
)
    requires
        0 <= row < rows,
        0 <= word < words,
        0 <= column_in < input_width,
    ensures
        ({
            let group = row * words + word;
            let (lane, turn) = (column_in % 32, column_in / 32);
            &&& 0 <= group < rows * words
            &&& group / words == row && group % words == word
            &&& 0 <= turn < strided_len(lane, 32, input_width)
            &&& strided(lane, 32, input_width)[turn] == column_in
            &&& forall|other: int, l: int, t: int|
                #![trigger other % words, strided(l, 32, input_width)[t]]
                0 <= other < rows * words && other / words == row && other % words == word && 0 <= l
                    < 32 && 0 <= t < strided_len(l, 32, input_width) && strided(
                    l,
                    32,
                    input_width,
                )[t] == column_in ==> other == group && l == lane && t == turn
        }),
{
    lemma_pair(row, words, word);
    lemma_pair_bound(row, rows, words, word);
    lemma_strided_partition(32, input_width, column_in);
    assert forall|other: int, l: int, t: int|
        #![trigger other % words, strided(l, 32, input_width)[t]]
        0 <= other < rows * words && other / words == row && other % words == word && 0 <= l < 32
            && 0 <= t < strided_len(l, 32, input_width) && strided(l, 32, input_width)[t]
            == column_in implies other == row * words + word && l == column_in % 32 && t == column_in
        / 32 by {
        lemma_split(other, rows, words);
    }
}

/// Where a group writes its outputs: the address of its first output and the column of it, which is
/// also the address of the first bias.
#[derive(Clone, Copy, Debug, PartialEq, Eq, Structural)]
pub struct WordOutputs {
    /// Address of the first output.
    pub offset: usize,
    /// Column of the first output.
    pub column: usize,
}

/// Where group `group` writes its outputs, `per_word` of them side by side.
pub fn word_outputs(group: usize, rows: usize, output_width: usize, per_word: usize) -> (outputs:
    WordOutputs)
    requires
        0 < per_word,
        output_width as int % per_word as int == 0,
        group < rows * (output_width as int / per_word as int),
        rows * output_width <= usize::MAX,
    ensures
        ({
            let words = output_width as int / per_word as int;
            &&& outputs.column == (group as int % words) * per_word
            &&& outputs.offset == (group as int / words) * output_width + outputs.column
            &&& outputs.column + per_word <= output_width
            &&& outputs.offset + per_word <= rows * output_width
        }),
{
    let words: usize = output_width / per_word;
    proof {
        lemma_word_column(group as int, rows as int, output_width as int, per_word as int);
    }
    let row: usize = group / words;
    let column: usize = group % words * per_word;
    WordOutputs { offset: row * output_width + column, column }
}

/// No group computes, or reads the weights of, a column past the output width.
pub proof fn lemma_word_column(group: int, rows: int, output_width: int, per_word: int)
    requires
        0 < per_word,
        0 <= output_width,
        output_width % per_word == 0,
        0 <= group < rows * (output_width / per_word),
    ensures
        ({
            let words = output_width / per_word;
            let column = (group % words) * per_word;
            &&& 0 < words
            &&& output_width == words * per_word
            &&& 0 <= group / words < rows
            &&& 0 <= group % words < words
            &&& 0 <= column
            &&& column + per_word <= output_width
            &&& 0 <= (group / words) * output_width
            &&& (group / words) * output_width + column + per_word <= rows * output_width
        }),
{
    let words = output_width / per_word;
    vstd::arithmetic::div_mod::lemma_fundamental_div_mod(output_width, per_word);
    assert(output_width == words * per_word) by (nonlinear_arith)
        requires
            output_width == per_word * words + output_width % per_word,
            output_width % per_word == 0,
    ;
    assert(words > 0) by (nonlinear_arith)
        requires
            0 <= group < rows * words,
            words * per_word >= 0,
            per_word > 0,
    ;
    lemma_split(group, rows, words);
    lemma_pair_bound(group % words, words, per_word, per_word - 1);
    lemma_pair_bound(group % words, words, per_word, 0);
    let column = (group % words) * per_word;
    lemma_pair_bound(group / words, rows, output_width, column + per_word - 1);
    assert(0 <= (group / words) * output_width) by (nonlinear_arith)
        requires
            group / words >= 0,
            output_width >= 0,
    ;
}

/// One term of an eight-bit product: an input, the word with four weights and their scale.
#[derive(Clone, Copy, Debug, PartialEq, Eq, Structural)]
pub struct Q8Term {
    /// Address of the input.
    pub input: usize,
    /// Address of the word.
    pub word: usize,
    /// Address of the scale.
    pub scale: usize,
}

/// A weight of `rows` by `columns` with one scale per `block` columns has words and scales of these
/// shapes.
pub open spec fn q8_parts(
    values: TensorInfo,
    scales: TensorInfo,
    rows: int,
    columns: int,
    block: int,
) -> bool {
    &&& 0 < block
    &&& block % 4 == 0
    &&& values.addressable()
    &&& values.leads_with(0, 0)
    &&& values.shape@[0] == rows
    &&& values.shape@[1] == columns / 4
    &&& scales.addressable()
    &&& scales.leads_with(0, 0)
    &&& scales.shape@[0] == rows
    &&& scales.shape@[1] == ceil_div(columns, block)
}

/// The terms of lane `lane` for word column `word_column` of an eight-bit weight.
pub open spec fn q8_terms(
    terms: Seq<Q8Term>,
    row: int,
    word_column: int,
    lane: int,
    block: int,
    values: TensorInfo,
    scales: TensorInfo,
) -> bool {
    let input_width = values.shape@[0] as int;
    &&& terms.len() == strided_len(lane, 32, input_width)
    &&& forall|k: int|
        0 <= k < terms.len() ==> ({
            let column_in = strided(lane, 32, input_width)[k];
            &&& (#[trigger] terms[k]).input == row * input_width + column_in
            &&& terms[k].word == at2(values.strides@, column_in, word_column)
            &&& terms[k].scale == at2(scales.strides@, column_in, 4 * word_column / block)
        })
}

/// What one lane of the eight-bit kernel sums up for group `group`. The weight has `columns`
/// columns, of which `output_width` are computed.
pub fn q8_gemv_unit(
    group: usize,
    lane: usize,
    rows: usize,
    columns: usize,
    output_width: usize,
    block_size: usize,
    values: &TensorInfo,
    scales: &TensorInfo,
) -> (terms: Vec<Q8Term>)
    requires
        q8_parts(*values, *scales, values.shape@[0] as int, columns as int, block_size as int),
        output_width <= columns,
        output_width % 4 == 0,
        group < rows * (output_width as int / 4),
        rows * values.shape@[0] <= usize::MAX,
        lane < 32,
    ensures
        ({
            let words = output_width as int / 4;
            q8_terms(
                terms@,
                group as int / words,
                group as int % words,
                lane as int,
                block_size as int,
                *values,
                *scales,
            )
        }),
{
    let packed_output_width: usize = output_width / 4;
    proof {
        lemma_word_column(group as int, rows as int, output_width as int, 4);
    }
    let row: usize = group / packed_output_width;
    let packed_column: usize = group % packed_output_width;
    let output_column: usize = packed_column * 4;
    let input_width: usize = values.shape[0];
    let scale_column: usize = output_column / block_size;
    proof {
        lemma_scale_column(output_column as int, columns as int, block_size as int);
    }
    let columns_in = strided_positions(lane, 32, input_width);
    let mut terms: Vec<Q8Term> = Vec::with_capacity(columns_in.len());
    let mut k: usize = 0;
    while k < columns_in.len()
        invariant
            k <= columns_in@.len(),
            q8_parts(*values, *scales, input_width as int, columns as int, block_size as int),
            input_width == values.shape@[0],
            row < rows,
            packed_column < columns / 4,
            scale_column == 4 * packed_column as int / block_size as int,
            scale_column < scales.shape@[1],
            rows * input_width <= usize::MAX,
            columns_in@.len() == strided_len(lane as int, 32, input_width as int),
            forall|j: int|
                0 <= j < columns_in@.len() ==> #[trigger] columns_in@[j] == strided(
                    lane as int,
                    32,
                    input_width as int,
                )[j],
            terms@.len() == k,
            forall|j: int|
                0 <= j < k ==> ({
                    let column_in = strided(lane as int, 32, input_width as int)[j];
                    &&& (#[trigger] terms@[j]).input == row * input_width + column_in
                    &&& terms@[j].word == at2(values.strides@, column_in, packed_column as int)
                    &&& terms@[j].scale == at2(scales.strides@, column_in, scale_column as int)
                }),
        decreases columns_in@.len() - k,
    {
        let column_in: usize = columns_in[k];
        proof {
            lemma_strided_bound(lane as int, 32, input_width as int, k as int);
            lemma_pair_bound(row as int, rows as int, input_width as int, column_in as int);
            assert(0 <= row * input_width) by (nonlinear_arith);
        }
        terms.push(
            Q8Term {
                input: row * input_width + column_in,
                word: values.at2(column_in, packed_column),
                scale: scales.at2(column_in, scale_column),
            },
        );
        k = k + 1;
    }
    terms
}

proof fn lemma_scale_column(column: int, columns: int, block: int)
    requires
        0 <= column < columns,
        0 < block,
    ensures
        0 <= column / block < ceil_div(columns, block),
{
    vstd::arithmetic::div_mod::lemma_fundamental_div_mod(column, block);
    vstd::arithmetic::div_mod::lemma_fundamental_div_mod(columns + block - 1, block);
    vstd::arithmetic::div_mod::lemma_mod_bound(columns + block - 1, block);
    vstd::arithmetic::div_mod::lemma_mod_bound(column, block);
    vstd::arithmetic::div_mod::lemma_div_pos_is_pos(column, block);
    let (q, c) = (column / block, ceil_div(columns, block));
    let (r, s) = (column % block, (columns + block - 1) % block);
    assert(q < c) by (nonlinear_arith)
        requires
            column == block * q + r,
            columns + block - 1 == block * c + s,
            column < columns,
            0 <= r,
            s < block,
            0 < block,
    ;
}

/// The four columns of a word lie in one block, so that one scale serves them all.
pub proof fn lemma_word_shares_scale(word_column: int, place: int, block: int)
    requires
        0 <= word_column,
        0 <= place < 4,
        0 < block,
        block % 4 == 0,
    ensures
        (4 * word_column + place) / block == 4 * word_column / block,
{
    let quarter = block / 4;
    vstd::arithmetic::div_mod::lemma_fundamental_div_mod(word_column, quarter);
    let (q, r) = (word_column / quarter, word_column % quarter);
    vstd::arithmetic::div_mod::lemma_mod_bound(word_column, quarter);
    assert(4 * word_column == q * block + 4 * r) by (nonlinear_arith)
        requires
            word_column == quarter * q + r,
            block == 4 * quarter,
    ;
    lemma_pair(q, block, 4 * r);
    lemma_pair(q, block, 4 * r + place);
}

/// The product reads each weight with the scale of its column: the term for row `column_in` takes
/// column `4 * word_column + place` from that place of its word, and scales it by the block that the
/// column lies in.
pub proof fn lemma_q8_product_reads_columns(
    terms: Seq<Q8Term>,
    k: int,
    row: int,
    word_column: int,
    place: int,
    lane: int,
    block: int,
    values: TensorInfo,
    scales: TensorInfo,
)
    requires
        q8_terms(terms, row, word_column, lane, block, values, scales),
        0 <= k < terms.len(),
        0 <= word_column,
        0 <= place < 4,
        0 < block,
        block % 4 == 0,
    ensures
        ({
            let column_in = strided(lane, 32, values.shape@[0] as int)[k];
            let column = 4 * word_column + place;
            &&& terms[k].word == at2(values.strides@, column_in, column / 4)
            &&& place == column % 4
            &&& terms[k].scale == at2(scales.strides@, column_in, column / block)
        }),
{
    lemma_word_shares_scale(word_column, place, block);
    assert(terms[k].input == row * values.shape@[0] + strided(
        lane,
        32,
        values.shape@[0] as int,
    )[k]);
}

/// One term of a four-bit product: an input, the word with eight weights and their scales.
#[derive(Clone, Debug, PartialEq, Eq)]
pub struct Q4Term {
    /// Address of the input.
    pub input: usize,
    /// Address of the word.
    pub word: usize,
    /// Addresses of the scales, one per column of the word.
    pub scales: Vec<usize>,
}

/// The term for row `column_in` of a four-bit weight and word column `word_column`.
pub open spec fn q4_term(
    term: Q4Term,
    row: int,
    word_column: int,
    column_in: int,
    block: int,
    values: TensorInfo,
    scales: TensorInfo,
) -> bool {
    &&& term.input == row * values.shape@[0] + column_in
    &&& term.word == at2(values.strides@, column_in, word_column)
    &&& term.scales@.len() == 8
    &&& forall|j: int|
        0 <= j < 8 ==> #[trigger] term.scales@[j] == at2(
            scales.strides@,
            column_in / block,
            8 * word_column + j,
        )
}

/// The terms of lane `lane` for word column `word_column` of a four-bit weight.
pub open spec fn q4_terms(
    terms: Seq<Q4Term>,
    row: int,
    word_column: int,
    lane: int,
    block: int,
    values: TensorInfo,
    scales: TensorInfo,
) -> bool {
    let input_width = values.shape@[0] as int;
    &&& terms.len() == strided_len(lane, 32, input_width)
    &&& forall|k: int|
        0 <= k < terms.len() ==> q4_term(
            #[trigger] terms[k],
            row,
            word_column,
            strided(lane, 32, input_width)[k],
            block,
            values,
            scales,
        )
}

// Addresses of the eight scales of a word.
fn word_scales(scale_row: usize, word_column: usize, scales: &TensorInfo) -> (addresses: Vec<usize>)
    requires
        scales.addressable(),
        scales.leads_with(0, 0),
        scale_row < scales.shape@[0],
        8 * word_column + 8 <= scales.shape@[1],
    ensures
        addresses@.len() == 8,
        forall|j: int|
            0 <= j < 8 ==> #[trigger] addresses@[j] == at2(
                scales.strides@,
                scale_row as int,
                8 * word_column + j,
            ),
{
    let mut addresses: Vec<usize> = Vec::with_capacity(8);
    let mut offset: usize = 0;
    while offset < 8
        invariant
            offset <= 8,
            scales.addressable(),
            scales.leads_with(0, 0),
            scale_row < scales.shape@[0],
            8 * word_column + 8 <= scales.shape@[1],
            addresses@.len() == offset,
            forall|j: int|
                0 <= j < offset ==> #[trigger] addresses@[j] == at2(
                    scales.strides@,
                    scale_row as int,
                    8 * word_column + j,
                ),
        decreases 8 - offset,
    {
        addresses.push(scales.at2(scale_row, word_column * 8 + offset));
        offset = offset + 1;
    }
    addresses
}

/// What one lane of the four-bit kernel sums up for group `group`. The weight has `columns`
/// columns, of which `output_width` are computed.
pub fn q4_gemv_unit(
    group: usize,
    lane: usize,
    rows: usize,
    columns: usize,
    output_width: usize,
    block_size: usize,
    values: &TensorInfo,
    scales: &TensorInfo,
) -> (terms: Vec<Q4Term>)
    requires
        q4_parts(*values, *scales, values.shape@[0] as int, columns as int, block_size as int),
        output_width <= columns,
        output_width % 8 == 0,
        group < rows * (output_width as int / 8),
        rows * values.shape@[0] <= usize::MAX,
        lane < 32,
    ensures
        ({
            let words = output_width as int / 8;
            q4_terms(
                terms@,
                group as int / words,
                group as int % words,
                lane as int,
                block_size as int,
                *values,
                *scales,
            )
        }),
{
    let packed_output_width: usize = output_width / 8;
    proof {
        lemma_word_column(group as int, rows as int, output_width as int, 8);
    }
    let row: usize = group / packed_output_width;
    let packed_column: usize = group % packed_output_width;
    let input_width: usize = values.shape[0];
    let columns_in = strided_positions(lane, 32, input_width);
    let mut terms: Vec<Q4Term> = Vec::with_capacity(columns_in.len());
    let mut k: usize = 0;
    while k < columns_in.len()
        invariant
            k <= columns_in@.len(),
            q4_parts(*values, *scales, input_width as int, columns as int, block_size as int),
            input_width == values.shape@[0],
            row < rows,
            8 * packed_column + 8 <= columns,
            rows * input_width <= usize::MAX,
            columns_in@.len() == strided_len(lane as int, 32, input_width as int),
            forall|j: int|
                0 <= j < columns_in@.len() ==> #[trigger] columns_in@[j] == strided(
                    lane as int,
                    32,
                    input_width as int,
                )[j],
            terms@.len() == k,
            forall|j: int|
                0 <= j < k ==> q4_term(
                    #[trigger] terms@[j],
                    row as int,
                    packed_column as int,
                    strided(lane as int, 32, input_width as int)[j],
                    block_size as int,
                    *values,
                    *scales,
                ),
        decreases columns_in@.len() - k,
    {
        let column_in: usize = columns_in[k];
        let scale_row: usize = column_in / block_size;
        proof {
            lemma_strided_bound(lane as int, 32, input_width as int, k as int);
            lemma_pair_bound(row as int, rows as int, input_width as int, column_in as int);
            assert(0 <= row * input_width) by (nonlinear_arith);
            let (n, b) = (input_width as int, block_size as int);
            vstd::arithmetic::div_mod::lemma_fundamental_div_mod(n, b);
            assert(n == (n / b) * b) by (nonlinear_arith)
                requires
                    n == b * (n / b) + n % b,
                    n % b == 0,
            ;
            lemma_split(column_in as int, n / b, b);
        }
        terms.push(
            Q4Term {
                input: row * input_width + column_in,
                word: values.at2(column_in, packed_column),
                scales: word_scales(scale_row, packed_column, scales),
            },
        );
        k = k + 1;
    }
    terms
}

/// The product reads the weights that expansion gives: for words and scales without gaps, the term
/// for row `column_in` takes the weight of every column from the word, the place and the scale that
/// the expansion of that element takes them from.
pub proof fn lemma_q4_product_matches_expansion(
    term: Q4Term,
    row: int,
    word_column: int,
    place: int,
    column_in: int,
    columns: int,
    block: int,
    values: TensorInfo,
    scales: TensorInfo,
)
    requires
        q4_parts(values, scales, values.shape@[0] as int, columns, block),
        columns % 8 == 0,
        values.strides@ == seq![(columns / 8) as usize, 1],
        scales.strides@ == seq![columns as usize, 1],
        0 <= columns <= usize::MAX,
        0 <= column_in < values.shape@[0],
        0 <= word_column < columns / 8,
        0 <= place < 8,
        q4_term(term, row, word_column, column_in, block, values, scales),
    ensures
        ({
            let element = column_in * columns + 8 * word_column + place;
            let unit = expanded(element, values.shape@[0] as int, columns, block);
            &&& term.word == unit.0
            &&& place == unit.1
            &&& term.scales@[place] == unit.2
        }),
{
    let rows = values.shape@[0] as int;
    let column = 8 * word_column + place;
    lemma_pair(column_in, columns, column);
    vstd::arithmetic::div_mod::lemma_small_mod(column_in as nat, rows as nat);
    vstd::arithmetic::div_mod::lemma_basic_div(column_in, rows);
    assert(0 * rows + column_in == column_in && 0 * (rows / block) + column_in / block == column_in
        / block) by (nonlinear_arith);
    assert(column / 8 == word_column && column % 8 == place);
    assert(term.scales@[place] == at2(scales.strides@, column_in / block, column));
    let element = column_in * columns + 8 * word_column + place;
    assert(element == column_in * columns + column);
    assert(element / columns == column_in && element % columns == column);
    assert((element / columns) % rows == column_in && (element / columns) / rows == 0);
    let unit = expanded(element, rows, columns, block);
    assert(unit.0 == (0 * rows + column_in) * (columns / 8) + column / 8);
    assert(unit.2 == (0 * (rows / block) + column_in / block) * columns + column);
    lemma_gapless(values.strides@, columns / 8, column_in, word_column);
    lemma_gapless(scales.strides@, columns, column_in / block, column);
}

/// Where an element of an eight-bit weight of `columns` columns is kept, elements counted row by row:
/// its word, the place in it, and its scale.
pub open spec fn q8_element(
    element: int,
    columns: int,
    block: int,
    values: TensorInfo,
    scales: TensorInfo,
) -> (int, int, int) {
    let (row, column) = (element / columns, element % columns);
    (
        at2(values.strides@, row, column / 4),
        column % 4,
        at2(scales.strides@, row, column / block),
    )
}

/// Where an element of a four-bit weight of `columns` columns is kept, elements counted row by row:
/// its word, the place in it, and its scale.
pub open spec fn q4_element(
    element: int,
    columns: int,
    block: int,
    values: TensorInfo,
    scales: TensorInfo,
) -> (int, int, int) {
    let (row, column) = (element / columns, element % columns);
    (
        at2(values.strides@, row, column / 8),
        column % 8,
        at2(scales.strides@, row / block, column),
    )
}

/// In a four-bit weight without gaps an element is kept where its expansion finds it.
pub proof fn lemma_q4_element_is_expanded(
    element: int,
    rows: int,
    columns: int,
    block: int,
    values: TensorInfo,
    scales: TensorInfo,
)
    requires
        0 < columns <= usize::MAX,
        columns % 8 == 0,
        0 < block,
        0 <= element < rows * columns,
        values.strides@ == seq![(columns / 8) as usize, 1],
        scales.strides@ == seq![columns as usize, 1],
    ensures
        q4_element(element, columns, block, values, scales) == expanded(
            element,
            rows,
            columns,
            block,
        ),
{
    lemma_split(element, rows, columns);
    let (row, column) = (element / columns, element % columns);
    vstd::arithmetic::div_mod::lemma_small_mod(row as nat, rows as nat);
    vstd::arithmetic::div_mod::lemma_basic_div(row, rows);
    assert(0 * rows + row == row && 0 * (rows / block) + row / block == row / block)
        by (nonlinear_arith);
    lemma_gapless(values.strides@, columns / 8, row, column / 8);
    lemma_gapless(scales.strides@, columns, row / block, column);
}

/// The group and the place in its words that compute an output element, and where it is written.
pub proof fn lemma_group_of_element(rows: int, columns: int, per_word: int, row: int, column: int)
    requires
        0 < per_word,
        columns % per_word == 0,
        0 <= row < rows,
        0 <= column < columns,
    ensures
        ({
            let words = columns / per_word;
            let group = row * words + column / per_word;
            &&& group / words == row
            &&& group % words == column / per_word
            &&& (column / per_word) * per_word + column % per_word == column
            &&& 0 <= column / per_word < words
            &&& (row * columns + column) / columns == row
            &&& (row * columns + column) % columns == column
        }),
{
    lemma_groups_cover_outputs(rows, columns, per_word, row, column);
    lemma_pair(row, columns, column);
    let words = columns / per_word;
    vstd::arithmetic::div_mod::lemma_fundamental_div_mod(columns, per_word);
    assert(columns == words * per_word) by (nonlinear_arith)
        requires
            columns == per_word * words + columns % per_word,
            columns % per_word == 0,
    ;
    lemma_split(column, words, per_word);
    lemma_pair(row, words, column / per_word);
}

/// A linear layer with a four-bit weight does what it does with the expanded weight: for every output
/// element, a lane takes the same inputs in the same turns, and takes each weight from the word, the
/// place and the scale where that weight is kept. The output and its bias are at the same addresses.
pub proof fn lemma_q4_linear_as_expanded(
    terms: Seq<Q4Term>,
    dense: Seq<Term>,
    k: int,
    rows: int,
    columns: int,
    row: int,
    column: int,
    lane: int,
    block: int,
    values: TensorInfo,
    scales: TensorInfo,
)
    requires
        0 < block,
        0 <= columns <= usize::MAX,
        columns % 8 == 0,
        0 <= row < rows,
        0 <= column < columns,
        0 <= lane < 32,
        ({
            let words = columns / 8;
            let group = row * words + column / 8;
            q4_terms(terms, group / words, group % words, lane, block, values, scales)
        }),
        ({
            let output_index = row * columns + column;
            dense_terms(
                dense,
                output_index / columns,
                output_index % columns,
                lane,
                values.shape@[0] as int,
                seq![columns as usize, 1],
            )
        }),
        0 <= k < terms.len(),
    ensures
        ({
            let words = columns / 8;
            let group = row * words + column / 8;
            &&& terms.len() == dense.len()
            &&& terms[k].input == dense[k].input
            &&& q4_element(dense[k].weight as int, columns, block, values, scales) == (
                terms[k].word as int,
                column % 8,
                terms[k].scales@[column % 8] as int,
            )
            &&& (group % words) * 8 + column % 8 == column
            &&& (group / words) * columns + column == row * columns + column
        }),
{
    let input_width = values.shape@[0] as int;
    let column_in = strided(lane, 32, input_width)[k];
    lemma_group_of_element(rows, columns, 8, row, column);
    lemma_strided_bound(lane, 32, input_width, k);
    assert(q4_term(terms[k], row, column / 8, column_in, block, values, scales));
    assert(dense[k].input == row * input_width + column_in);
    assert(dense[k].weight == at2(seq![columns as usize, 1], column_in, column));
    lemma_gapless(seq![columns as usize, 1], columns, column_in, column);
    lemma_pair(column_in, columns, column);
    assert(terms[k].scales@[column % 8] == at2(
        scales.strides@,
        column_in / block,
        8 * (column / 8) + column % 8,
    ));
}

/// A linear layer with an eight-bit weight does what it does with the expanded weight: for every
/// output element, a lane takes the same inputs in the same turns, and takes each weight from the
/// word, the place and the scale where that weight is kept. The output and its bias are at the same
/// addresses.
pub proof fn lemma_q8_linear_as_expanded(
    terms: Seq<Q8Term>,
    dense: Seq<Term>,
    k: int,
    rows: int,
    columns: int,
    row: int,
    column: int,
    lane: int,
    block: int,
    values: TensorInfo,
    scales: TensorInfo,
)
    requires
        0 < block,
        block % 4 == 0,
        0 <= columns <= usize::MAX,
        columns % 4 == 0,
        0 <= row < rows,
        0 <= column < columns,
        0 <= lane < 32,
        ({
            let words = columns / 4;
            let group = row * words + column / 4;
            q8_terms(terms, group / words, group % words, lane, block, values, scales)
        }),
        ({
            let output_index = row * columns + column;
            dense_terms(
                dense,
                output_index / columns,
                output_index % columns,
                lane,
                values.shape@[0] as int,
                seq![columns as usize, 1],
            )
        }),
        0 <= k < terms.len(),
    ensures
        ({
            let words = columns / 4;
            let group = row * words + column / 4;
            &&& terms.len() == dense.len()
            &&& terms[k].input == dense[k].input
            &&& q8_element(dense[k].weight as int, columns, block, values, scales) == (
                terms[k].word as int,
                column % 4,
                terms[k].scale as int,
            )
            &&& (group % words) * 4 + column % 4 == column
            &&& (group / words) * columns + column == row * columns + column
        }),
{
    let input_width = values.shape@[0] as int;
    let column_in = strided(lane, 32, input_width)[k];
    lemma_group_of_element(rows, columns, 4, row, column);
    lemma_strided_bound(lane, 32, input_width, k);
    assert(terms[k].input == row * input_width + column_in);
    assert(dense[k].input == row * input_width + column_in);
    assert(dense[k].weight == at2(seq![columns as usize, 1], column_in, column));
    lemma_gapless(seq![columns as usize, 1], columns, column_in, column);
    lemma_pair(column_in, columns, column);
    lemma_q8_product_reads_columns(
        terms,
        k,
        row,
        column / 4,
        column % 4,
        lane,
        block,
        values,
        scales,
    );
}

} // verus!
