//! Matrix-vector products as a whole, in exact arithmetic: what the lanes of a group add up to, with
//! dense and packed weights, and what leading columns depend on.

use vstd::prelude::*;

use crate::dequantize::expanded_element;
use crate::exact::{lemma_shared_sums, picked, shared_sums, sum};
use crate::gemv::{
    dense_terms, lemma_group_of_element, lemma_q4_element_is_expanded, lemma_q8_product_reads_columns,
    q4_term, q4_terms, q8_terms, Q4Term, Q8Term, Term,
};
use crate::ops::{lemma_linear_outputs_agree, linear_planned, linear_ranks_wrong, LinearPlan};
use crate::packing::{q4_value, q8_value};
use crate::plan::{scheme_of, Plan};
use crate::scheme::{lemma_gemv_schemes_disjoint, q4_block, q8_block};
use crate::shape::{lemma_pair, lemma_pair_bound, lemma_strided_bound, strided};
use crate::tensor::{at2, QuantParts, QuantTensor, TensorInfo};

verus! {

/// A weight as a function of its row and column.
pub type Weight = spec_fn(int, int) -> real;

/// A dense weight.
pub open spec fn dense_weight(strides: Seq<usize>, data: Seq<real>) -> Weight {
    |i: int, j: int| data[at2(strides, i, j)]
}

/// A four-bit weight with one scale per `block` rows of a column.
pub open spec fn q4_weight(
    words: Seq<u32>,
    scale_data: Seq<real>,
    block: int,
    values: TensorInfo,
    scales: TensorInfo,
) -> Weight {
    |i: int, j: int|
        q4_value(words[at2(values.strides@, i, j / 8)], j % 8) as real * scale_data[at2(
            scales.strides@,
            i / block,
            j,
        )]
}

/// An eight-bit weight with one scale per `block` columns of a row.
pub open spec fn q8_weight(
    words: Seq<u32>,
    scale_data: Seq<real>,
    block: int,
    values: TensorInfo,
    scales: TensorInfo,
) -> Weight {
    |i: int, j: int|
        q8_value(words[at2(values.strides@, i, j / 4)], j % 4) as real * scale_data[at2(
            scales.strides@,
            i,
            j / block,
        )]
}

/// The products of an input row with a column of a weight.
pub open spec fn products(
    inputs: Seq<real>,
    weight: Weight,
    input_width: nat,
    row: int,
    column: int,
) -> Seq<real> {
    Seq::new(input_width, |i: int| inputs[row * input_width + i] * weight(i, column))
}

/// What a linear layer gives for an input row and a column: the sum of products, and the bias.
pub open spec fn layer_output(
    inputs: Seq<real>,
    weight: Weight,
    bias: Option<Seq<real>>,
    input_width: nat,
    row: int,
    column: int,
) -> real {
    sum(products(inputs, weight, input_width, row, column)) + bias_of(bias, column)
}

/// The bias of a column, or zero.
pub open spec fn bias_of(bias: Option<Seq<real>>, column: int) -> real {
    match bias {
        Some(bias) => bias[column],
        None => 0 as real,
    }
}

/// What a lane sums up for a dense weight.
pub open spec fn dense_sum(terms: Seq<Term>, inputs: Seq<real>, weights: Seq<real>) -> real {
    sum(
        Seq::new(
            terms.len(),
            |k: int| inputs[terms[k].input as int] * weights[terms[k].weight as int],
        ),
    )
}

/// What a lane sums up for the column at `place` of a four-bit weight.
pub open spec fn q4_sum(
    terms: Seq<Q4Term>,
    place: int,
    inputs: Seq<real>,
    words: Seq<u32>,
    scale_data: Seq<real>,
) -> real {
    sum(
        Seq::new(
            terms.len(),
            |k: int|
                inputs[terms[k].input as int] * (q4_value(words[terms[k].word as int], place) as real
                    * scale_data[terms[k].scales@[place] as int]),
        ),
    )
}

/// What a lane sums up for the column at `place` of an eight-bit weight.
pub open spec fn q8_sum(
    terms: Seq<Q8Term>,
    place: int,
    inputs: Seq<real>,
    words: Seq<u32>,
    scale_data: Seq<real>,
) -> real {
    sum(
        Seq::new(
            terms.len(),
            |k: int|
                inputs[terms[k].input as int] * (q8_value(words[terms[k].word as int], place) as real
                    * scale_data[terms[k].scale as int]),
        ),
    )
}

/// The lanes of a group have the terms of the dense kernel for an output element.
pub open spec fn dense_group(
    lanes: Seq<Seq<Term>>,
    row: int,
    column: int,
    input_width: int,
    strides: Seq<usize>,
) -> bool {
    &&& lanes.len() == 32
    &&& forall|lane: int|
        0 <= lane < 32 ==> dense_terms(
            #[trigger] lanes[lane],
            row,
            column,
            lane,
            input_width,
            strides,
        )
}

/// What the lanes of a group write for a dense weight.
pub open spec fn dense_written(
    lanes: Seq<Seq<Term>>,
    inputs: Seq<real>,
    weights: Seq<real>,
    bias: real,
) -> real {
    sum(Seq::new(lanes.len(), |lane: int| dense_sum(lanes[lane], inputs, weights))) + bias
}

/// The lanes of a group have the terms of the four-bit kernel for a word column.
pub open spec fn q4_group(
    lanes: Seq<Seq<Q4Term>>,
    row: int,
    word_column: int,
    block: int,
    values: TensorInfo,
    scales: TensorInfo,
) -> bool {
    &&& lanes.len() == 32
    &&& forall|lane: int|
        0 <= lane < 32 ==> q4_terms(
            #[trigger] lanes[lane],
            row,
            word_column,
            lane,
            block,
            values,
            scales,
        )
}

/// What the lanes of a group write for the column at `place` of a four-bit weight.
pub open spec fn q4_written(
    lanes: Seq<Seq<Q4Term>>,
    place: int,
    inputs: Seq<real>,
    words: Seq<u32>,
    scale_data: Seq<real>,
    bias: real,
) -> real {
    sum(
        Seq::new(lanes.len(), |lane: int| q4_sum(lanes[lane], place, inputs, words, scale_data)),
    ) + bias
}

/// The lanes of a group have the terms of the eight-bit kernel for a word column.
pub open spec fn q8_group(
    lanes: Seq<Seq<Q8Term>>,
    row: int,
    word_column: int,
    block: int,
    values: TensorInfo,
    scales: TensorInfo,
) -> bool {
    &&& lanes.len() == 32
    &&& forall|lane: int|
        0 <= lane < 32 ==> q8_terms(
            #[trigger] lanes[lane],
            row,
            word_column,
            lane,
            block,
            values,
            scales,
        )
}

/// What the lanes of a group write for the column at `place` of an eight-bit weight.
pub open spec fn q8_written(
    lanes: Seq<Seq<Q8Term>>,
    place: int,
    inputs: Seq<real>,
    words: Seq<u32>,
    scale_data: Seq<real>,
    bias: real,
) -> real {
    sum(
        Seq::new(lanes.len(), |lane: int| q8_sum(lanes[lane], place, inputs, words, scale_data)),
    ) + bias
}

/// The lanes of a group add up the whole product: what the dense kernel writes is the output of the
/// layer.
pub proof fn lemma_dense_lanes_add_up(
    lanes: Seq<Seq<Term>>,
    row: int,
    column: int,
    input_width: nat,
    strides: Seq<usize>,
    inputs: Seq<real>,
    weights: Seq<real>,
    bias: Option<Seq<real>>,
)
    requires
        dense_group(lanes, row, column, input_width as int, strides),
    ensures
        dense_written(lanes, inputs, weights, bias_of(bias, column)) == layer_output(
            inputs,
            dense_weight(strides, weights),
            bias,
            input_width,
            row,
            column,
        ),
{
    let terms = products(inputs, dense_weight(strides, weights), input_width, row, column);
    let sums = Seq::new(lanes.len(), |lane: int| dense_sum(lanes[lane], inputs, weights));
    assert forall|lane: int| 0 <= lane < 32 implies sums[lane] == shared_sums(terms, 32)[lane] by {
        let own = lanes[lane];
        assert(dense_terms(own, row, column, lane, input_width as int, strides));
        let lane_products = Seq::new(
            own.len(),
            |k: int| inputs[own[k].input as int] * weights[own[k].weight as int],
        );
        let positions = strided(lane, 32, input_width as int);
        assert forall|k: int| 0 <= k < own.len() implies lane_products[k] == picked(
            terms,
            positions,
        )[k] by {
            lemma_strided_bound(lane, 32, input_width as int, k);
            assert(own[k].input == row * input_width + positions[k]);
            assert(own[k].weight == at2(strides, positions[k], column));
        }
        assert(lane_products =~= picked(terms, positions));
    }
    assert(sums =~= shared_sums(terms, 32));
    lemma_shared_sums(terms, 32);
}

/// What the four-bit kernel writes is the output of the layer.
pub proof fn lemma_q4_lanes_add_up(
    lanes: Seq<Seq<Q4Term>>,
    row: int,
    word_column: int,
    place: int,
    block: int,
    values: TensorInfo,
    scales: TensorInfo,
    inputs: Seq<real>,
    words: Seq<u32>,
    scale_data: Seq<real>,
    bias: Option<Seq<real>>,
)
    requires
        q4_group(lanes, row, word_column, block, values, scales),
        0 <= place < 8,
    ensures
        ({
            let column = 8 * word_column + place;
            q4_written(lanes, place, inputs, words, scale_data, bias_of(bias, column))
                == layer_output(
                inputs,
                q4_weight(words, scale_data, block, values, scales),
                bias,
                values.shape@[0] as nat,
                row,
                column,
            )
        }),
{
    let input_width = values.shape@[0] as nat;
    let column = 8 * word_column + place;
    let weight = q4_weight(words, scale_data, block, values, scales);
    let terms = products(inputs, weight, input_width, row, column);
    let sums = Seq::new(
        lanes.len(),
        |lane: int| q4_sum(lanes[lane], place, inputs, words, scale_data),
    );
    assert(column / 8 == word_column && column % 8 == place);
    assert forall|lane: int| 0 <= lane < 32 implies sums[lane] == shared_sums(terms, 32)[lane] by {
        let own = lanes[lane];
        assert(q4_terms(own, row, word_column, lane, block, values, scales));
        let lane_products = Seq::new(
            own.len(),
            |k: int|
                inputs[own[k].input as int] * (q4_value(words[own[k].word as int], place) as real
                    * scale_data[own[k].scales@[place] as int]),
        );
        let positions = strided(lane, 32, input_width as int);
        assert forall|k: int| 0 <= k < own.len() implies lane_products[k] == picked(
            terms,
            positions,
        )[k] by {
            lemma_strided_bound(lane, 32, input_width as int, k);
            assert(q4_term(own[k], row, word_column, positions[k], block, values, scales));
            assert(own[k].scales@[place] == at2(scales.strides@, positions[k] / block, column));
        }
        assert(lane_products =~= picked(terms, positions));
    }
    assert(sums =~= shared_sums(terms, 32));
    lemma_shared_sums(terms, 32);
}

/// What the eight-bit kernel writes is the output of the layer.
pub proof fn lemma_q8_lanes_add_up(
    lanes: Seq<Seq<Q8Term>>,
    row: int,
    word_column: int,
    place: int,
    block: int,
    values: TensorInfo,
    scales: TensorInfo,
    inputs: Seq<real>,
    words: Seq<u32>,
    scale_data: Seq<real>,
    bias: Option<Seq<real>>,
)
    requires
        q8_group(lanes, row, word_column, block, values, scales),
        0 <= word_column,
        0 <= place < 4,
        0 < block,
        block % 4 == 0,
    ensures
        ({
            let column = 4 * word_column + place;
            q8_written(lanes, place, inputs, words, scale_data, bias_of(bias, column))
                == layer_output(
                inputs,
                q8_weight(words, scale_data, block, values, scales),
                bias,
                values.shape@[0] as nat,
                row,
                column,
            )
        }),
{
    let input_width = values.shape@[0] as nat;
    let column = 4 * word_column + place;
    let weight = q8_weight(words, scale_data, block, values, scales);
    let terms = products(inputs, weight, input_width, row, column);
    let sums = Seq::new(
        lanes.len(),
        |lane: int| q8_sum(lanes[lane], place, inputs, words, scale_data),
    );
    assert(column / 4 == word_column && column % 4 == place);
    assert forall|lane: int| 0 <= lane < 32 implies sums[lane] == shared_sums(terms, 32)[lane] by {
        let own = lanes[lane];
        assert(q8_terms(own, row, word_column, lane, block, values, scales));
        let lane_products = Seq::new(
            own.len(),
            |k: int|
                inputs[own[k].input as int] * (q8_value(words[own[k].word as int], place) as real
                    * scale_data[own[k].scale as int]),
        );
        let positions = strided(lane, 32, input_width as int);
        assert forall|k: int| 0 <= k < own.len() implies lane_products[k] == picked(
            terms,
            positions,
        )[k] by {
            lemma_strided_bound(lane, 32, input_width as int, k);
            lemma_q8_product_reads_columns(
                own,
                k,
                row,
                word_column,
                place,
                lane,
                block,
                values,
                scales,
            );
            assert(own[k].input == row * input_width + positions[k]);
        }
        assert(lane_products =~= picked(terms, positions));
    }
    assert(sums =~= shared_sums(terms, 32));
    lemma_shared_sums(terms, 32);
}

/// Expansion of a four-bit weight without gaps gives the weight.
pub proof fn lemma_q4_weight_is_expanded(
    words: Seq<u32>,
    scale_data: Seq<real>,
    rows: int,
    columns: int,
    block: int,
    values: TensorInfo,
    scales: TensorInfo,
    i: int,
    j: int,
)
    requires
        0 <= i < rows,
        0 <= j < columns <= usize::MAX,
        columns % 8 == 0,
        0 < block,
        values.strides@ == seq![(columns / 8) as usize, 1],
        scales.strides@ == seq![columns as usize, 1],
    ensures
        expanded_element(words, scale_data, rows, columns, block, i * columns + j) == q4_weight(
            words,
            scale_data,
            block,
            values,
            scales,
        )(i, j),
{
    lemma_pair(i, columns, j);
    lemma_pair_bound(i, rows, columns, j);
    lemma_q4_element_is_expanded(i * columns + j, rows, columns, block, values, scales);
}

// Layers with weights that agree in a column give the same output there.
proof fn lemma_same_column(
    inputs: Seq<real>,
    a: Weight,
    b: Weight,
    bias: Option<Seq<real>>,
    input_width: nat,
    row: int,
    column: int,
)
    requires
        forall|i: int| 0 <= i < input_width ==> #[trigger] a(i, column) == b(i, column),
    ensures
        layer_output(inputs, a, bias, input_width, row, column) == layer_output(
            inputs,
            b,
            bias,
            input_width,
            row,
            column,
        ),
{
    assert(products(inputs, a, input_width, row, column) =~= products(
        inputs,
        b,
        input_width,
        row,
        column,
    ));
}

/// A linear layer with a four-bit weight equals the one with the expanded weight, with or without a
/// bias: both fill tensors of the same shape, and the groups of both kernels write the same number
/// for every input row and column.
pub proof fn lemma_q4_linear_equals_expanded(
    input: TensorInfo,
    weight: QuantTensor,
    dense: QuantTensor,
    bias: Option<TensorInfo>,
    plan: Plan,
    dense_plan: Plan,
    parts: QuantParts,
    block: usize,
    lanes: Seq<Seq<Q4Term>>,
    dense_lanes: Seq<Seq<Term>>,
    inputs: Seq<real>,
    words: Seq<u32>,
    scale_data: Seq<real>,
    strides: Seq<usize>,
    weights: Seq<real>,
    bias_data: Option<Seq<real>>,
    row: int,
    column: int,
)
    requires
        !linear_ranks_wrong(input, weight, bias),
        scheme_of(weight.info) matches Some(scheme) && q4_block(scheme) == Some(block),
        weight.parts == Some(parts),
        scheme_of(dense.info) is None,
        dense.info.shape@ == weight.info.shape@,
        weight.info.shape@[1] <= u32::MAX,
        linear_planned(Ok(LinearPlan::Fused(plan)), input, weight, bias),
        linear_planned(Ok(LinearPlan::Fused(dense_plan)), input, dense, bias),
        0 <= column < weight.info.shape@[1],
        q4_group(lanes, row, column / 8, block as int, parts.values, parts.scales),
        dense_group(dense_lanes, row, column, weight.info.shape@[0] as int, strides),
        forall|i: int, j: int|
            #![trigger at2(strides, i, j)]
            0 <= i < weight.info.shape@[0] && 0 <= j < weight.info.shape@[1]
                ==> weights[at2(strides, i, j)] == q4_weight(
                words,
                scale_data,
                block as int,
                parts.values,
                parts.scales,
            )(i, j),
    ensures
        plan.output.tensor.shape@ == dense_plan.output.tensor.shape@,
        plan.output.tensor.dtype == dense_plan.output.tensor.dtype,
        q4_written(lanes, column % 8, inputs, words, scale_data, bias_of(bias_data, column))
            == dense_written(dense_lanes, inputs, weights, bias_of(bias_data, column)),
{
    lemma_linear_outputs_agree(input, weight, dense, bias, plan, dense_plan);
    let scheme = scheme_of(weight.info)->Some_0;
    lemma_gemv_schemes_disjoint(scheme);
    let input_width = weight.info.shape@[0] as nat;
    assert(parts.values.shape@[0] == input_width);
    lemma_q4_lanes_add_up(
        lanes,
        row,
        column / 8,
        column % 8,
        block as int,
        parts.values,
        parts.scales,
        inputs,
        words,
        scale_data,
        bias_data,
    );
    lemma_dense_lanes_add_up(
        dense_lanes,
        row,
        column,
        input_width,
        strides,
        inputs,
        weights,
        bias_data,
    );
    let packed = q4_weight(words, scale_data, block as int, parts.values, parts.scales);
    let plain = dense_weight(strides, weights);
    assert forall|i: int| 0 <= i < input_width implies #[trigger] packed(i, column) == plain(
        i,
        column,
    ) by {
        assert(weights[at2(strides, i, column)] == packed(i, column));
    }
    lemma_same_column(inputs, packed, plain, bias_data, input_width, row, column);
}

/// A linear layer with an eight-bit weight equals the one with the expanded weight, with or without a
/// bias: both fill tensors of the same shape, and the groups of both kernels write the same number
/// for every input row and column.
pub proof fn lemma_q8_linear_equals_expanded(
    input: TensorInfo,
    weight: QuantTensor,
    dense: QuantTensor,
    bias: Option<TensorInfo>,
    plan: Plan,
    dense_plan: Plan,
    parts: QuantParts,
    block: usize,
    lanes: Seq<Seq<Q8Term>>,
    dense_lanes: Seq<Seq<Term>>,
    inputs: Seq<real>,
    words: Seq<u32>,
    scale_data: Seq<real>,
    strides: Seq<usize>,
    weights: Seq<real>,
    bias_data: Option<Seq<real>>,
    row: int,
    column: int,
)
    requires
        !linear_ranks_wrong(input, weight, bias),
        scheme_of(weight.info) matches Some(scheme) && q8_block(scheme) == Some(block),
        weight.parts == Some(parts),
        scheme_of(dense.info) is None,
        dense.info.shape@ == weight.info.shape@,
        weight.info.shape@[1] <= u32::MAX,
        linear_planned(Ok(LinearPlan::Fused(plan)), input, weight, bias),
        linear_planned(Ok(LinearPlan::Fused(dense_plan)), input, dense, bias),
        0 <= column < weight.info.shape@[1],
        q8_group(lanes, row, column / 4, block as int, parts.values, parts.scales),
        dense_group(dense_lanes, row, column, weight.info.shape@[0] as int, strides),
        forall|i: int, j: int|
            #![trigger at2(strides, i, j)]
            0 <= i < weight.info.shape@[0] && 0 <= j < weight.info.shape@[1]
                ==> weights[at2(strides, i, j)] == q8_weight(
                words,
                scale_data,
                block as int,
                parts.values,
                parts.scales,
            )(i, j),
    ensures
        plan.output.tensor.shape@ == dense_plan.output.tensor.shape@,
        plan.output.tensor.dtype == dense_plan.output.tensor.dtype,
        q8_written(lanes, column % 4, inputs, words, scale_data, bias_of(bias_data, column))
            == dense_written(dense_lanes, inputs, weights, bias_of(bias_data, column)),
{
    lemma_linear_outputs_agree(input, weight, dense, bias, plan, dense_plan);
    let input_width = weight.info.shape@[0] as nat;
    assert(parts.values.shape@[0] == input_width);
    lemma_q8_lanes_add_up(
        lanes,
        row,
        column / 4,
        column % 4,
        block as int,
        parts.values,
        parts.scales,
        inputs,
        words,
        scale_data,
        bias_data,
    );
    lemma_dense_lanes_add_up(
        dense_lanes,
        row,
        column,
        input_width,
        strides,
        inputs,
        weights,
        bias_data,
    );
    let packed = q8_weight(words, scale_data, block as int, parts.values, parts.scales);
    let plain = dense_weight(strides, weights);
    assert forall|i: int| 0 <= i < input_width implies #[trigger] packed(i, column) == plain(
        i,
        column,
    ) by {
        assert(weights[at2(strides, i, column)] == packed(i, column));
    }
    lemma_same_column(inputs, packed, plain, bias_data, input_width, row, column);
}

/// Leading columns of a dense layer are those of the whole layer and depend on no other column: for
/// an input row and a leading column, a lane has the same terms in the same order whether `width` or
/// all `columns` columns are computed, and reads the same weights from a weight that agrees in the
/// leading columns, whatever it holds in the others.
pub proof fn lemma_dense_prefix_is_slice<S>(
    prefix: Seq<Term>,
    whole: Seq<Term>,
    width: int,
    columns: int,
    row: int,
    column: int,
    lane: int,
    input_width: int,
    strides: Seq<usize>,
    data: Seq<S>,
    other: Seq<S>,
)
    requires
        0 <= row,
        0 <= column < width <= columns,
        0 <= lane < 32,
        ({
            let index = row * width + column;
            dense_terms(prefix, index / width, index % width, lane, input_width, strides)
        }),
        ({
            let index = row * columns + column;
            dense_terms(whole, index / columns, index % columns, lane, input_width, strides)
        }),
        forall|i: int, j: int|
            #![trigger at2(strides, i, j)]
            0 <= i < input_width && 0 <= j < width ==> data[at2(strides, i, j)] == other[at2(
                strides,
                i,
                j,
            )],
    ensures
        prefix == whole,
        forall|k: int|
            0 <= k < prefix.len() ==> data[(#[trigger] prefix[k]).weight as int]
                == other[prefix[k].weight as int],
{
    lemma_pair(row, width, column);
    lemma_pair(row, columns, column);
    assert forall|k: int| 0 <= k < prefix.len() implies prefix[k] == whole[k]
        && data[(#[trigger] prefix[k]).weight as int] == other[prefix[k].weight as int] by {
        let position = strided(lane, 32, input_width)[k];
        lemma_strided_bound(lane, 32, input_width, k);
        assert(prefix[k].input == row * input_width + position);
        assert(whole[k].input == row * input_width + position);
        assert(prefix[k].weight == at2(strides, position, column));
        assert(whole[k].weight == at2(strides, position, column));
    }
    assert(prefix =~= whole);
}

/// Leading columns of a layer with eight-bit weights are those of the whole layer and depend on no
/// other column: a lane has the same terms whether `width` or all `columns` columns are computed, and
/// reads the same words and scales from a weight that agrees in the leading columns.
pub proof fn lemma_q8_prefix_is_slice<S>(
    prefix: Seq<Q8Term>,
    whole: Seq<Q8Term>,
    width: int,
    columns: int,
    row: int,
    column: int,
    lane: int,
    block: int,
    values: TensorInfo,
    scales: TensorInfo,
    words: Seq<u32>,
    other_words: Seq<u32>,
    scale_data: Seq<S>,
    other_scales: Seq<S>,
)
    requires
        0 < block,
        block % 4 == 0,
        0 <= row,
        0 <= column < width <= columns,
        width % 4 == 0,
        columns % 4 == 0,
        0 <= lane < 32,
        ({
            let group = row * (width / 4) + column / 4;
            q8_terms(prefix, group / (width / 4), group % (width / 4), lane, block, values, scales)
        }),
        ({
            let group = row * (columns / 4) + column / 4;
            q8_terms(
                whole,
                group / (columns / 4),
                group % (columns / 4),
                lane,
                block,
                values,
                scales,
            )
        }),
        forall|i: int, j: int|
            #![trigger at2(values.strides@, i, j / 4)]
            0 <= i < values.shape@[0] && 0 <= j < width ==> words[at2(values.strides@, i, j / 4)]
                == other_words[at2(values.strides@, i, j / 4)],
        forall|i: int, j: int|
            #![trigger at2(scales.strides@, i, j / block)]
            0 <= i < values.shape@[0] && 0 <= j < width ==> scale_data[at2(
                scales.strides@,
                i,
                j / block,
            )] == other_scales[at2(scales.strides@, i, j / block)],
    ensures
        prefix == whole,
        forall|k: int|
            0 <= k < prefix.len() ==> words[(#[trigger] prefix[k]).word as int]
                == other_words[prefix[k].word as int] && scale_data[prefix[k].scale as int]
                == other_scales[prefix[k].scale as int],
{
    lemma_group_of_element(row + 1, width, 4, row, column);
    lemma_group_of_element(row + 1, columns, 4, row, column);
    let input_width = values.shape@[0] as int;
    assert forall|k: int| 0 <= k < prefix.len() implies prefix[k] == whole[k] && words[(
    #[trigger] prefix[k]).word as int] == other_words[prefix[k].word as int]
        && scale_data[prefix[k].scale as int] == other_scales[prefix[k].scale as int] by {
        let position = strided(lane, 32, input_width)[k];
        lemma_strided_bound(lane, 32, input_width, k);
        assert(prefix[k].input == row * input_width + position);
        assert(whole[k].input == row * input_width + position);
        let first = 4 * (column / 4);
        assert(first / 4 == column / 4);
        assert(prefix[k].word == at2(values.strides@, position, first / 4));
        assert(prefix[k].scale == at2(scales.strides@, position, first / block));
    }
    assert(prefix =~= whole);
}

/// Leading columns of a layer with four-bit weights are those of the whole layer and depend on no
/// other column: a lane has the same terms whether `width` or all `columns` columns are computed, and
/// reads the same words and scales from a weight that agrees in the leading columns.
pub proof fn lemma_q4_prefix_is_slice<S>(
    prefix: Seq<Q4Term>,
    whole: Seq<Q4Term>,
    k: int,
    width: int,
    columns: int,
    row: int,
    column: int,
    lane: int,
    block: int,
    values: TensorInfo,
    scales: TensorInfo,
    words: Seq<u32>,
    other_words: Seq<u32>,
    scale_data: Seq<S>,
    other_scales: Seq<S>,
)
    requires
        0 < block,
        0 <= row,
        0 <= column < width <= columns,
        width % 8 == 0,
        columns % 8 == 0,
        0 <= lane < 32,
        ({
            let group = row * (width / 8) + column / 8;
            q4_terms(prefix, group / (width / 8), group % (width / 8), lane, block, values, scales)
        }),
        ({
            let group = row * (columns / 8) + column / 8;
            q4_terms(
                whole,
                group / (columns / 8),
                group % (columns / 8),
                lane,
                block,
                values,
                scales,
            )
        }),
        0 <= k < prefix.len(),
        forall|i: int, j: int|
            #![trigger at2(values.strides@, i, j / 8)]
            0 <= i < values.shape@[0] && 0 <= j < width ==> words[at2(values.strides@, i, j / 8)]
                == other_words[at2(values.strides@, i, j / 8)],
        forall|i: int, j: int|
            #![trigger at2(scales.strides@, i / block, j)]
            0 <= i < values.shape@[0] && 0 <= j < width ==> scale_data[at2(
                scales.strides@,
                i / block,
                j,
            )] == other_scales[at2(scales.strides@, i / block, j)],
    ensures
        prefix.len() == whole.len(),
        prefix[k].input == whole[k].input,
        prefix[k].word == whole[k].word,
        prefix[k].scales@ == whole[k].scales@,
        words[prefix[k].word as int] == other_words[prefix[k].word as int],
        scale_data[prefix[k].scales@[column % 8] as int]
            == other_scales[prefix[k].scales@[column % 8] as int],
{
    lemma_group_of_element(row + 1, width, 8, row, column);
    lemma_group_of_element(row + 1, columns, 8, row, column);
    let input_width = values.shape@[0] as int;
    let position = strided(lane, 32, input_width)[k];
    lemma_strided_bound(lane, 32, input_width, k);
    assert(q4_term(prefix[k], row, column / 8, position, block, values, scales));
    assert(q4_term(whole[k], row, column / 8, position, block, values, scales));
    assert forall|j: int| 0 <= j < 8 implies prefix[k].scales@[j] == whole[k].scales@[j] by {
        let address = at2(scales.strides@, position / block, 8 * (column / 8) + j);
        assert(prefix[k].scales@[j] == address && whole[k].scales@[j] == address);
    }
    assert(prefix[k].scales@ =~= whole[k].scales@);
    assert(prefix[k].scales@[column % 8] == at2(scales.strides@, position / block, column));
    assert(prefix[k].word == at2(values.strides@, position, column / 8));
}

} // verus!
