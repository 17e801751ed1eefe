//! The terms of linear layers: what the lanes of a planned launch read for every output element, and
//! what they add up to.

use vstd::prelude::*;

use crate::exact::sum;
use crate::gemv::{
    dense_terms, gemv_bias_unit, gemv_unit, lemma_group_of_element, lemma_groups_cover_outputs,
    lemma_q8_product_reads_columns, q4_gemv_unit, q4_term, q4_terms, q8_gemv_unit, q8_terms,
    word_outputs, Q4Term, Q8Term, Term, WordOutputs,
};
use crate::laws::linear::{
    has_q4_block, has_q8_block, lemma_linear, q4_arguments, q8_arguments, rows_of,
};
use crate::ops::{linear, LinearPlan};
use crate::packing::{q4_value, q8_value};
use crate::plan::{Kernel, Plan};
use crate::products::{
    bias_of, dense_written, lemma_dense_lanes_add_up, lemma_q4_lanes_add_up, lemma_q8_lanes_add_up,
    products, q4_written, q8_written,
};
use crate::reject::Rejection;
use crate::shape::{lemma_pair, lemma_pair_bound, lemma_strided_partition, strided};
use crate::tensor::{QuantParts, QuantTensor, TensorInfo};

verus! {

/// Where a group writes: the column at `place` of the words `per_word` columns wide goes to row `row`
/// and that column of the output, and takes the bias of that column.
pub proof fn lemma_word_written(
    group: usize,
    rows: usize,
    width: usize,
    per_word: usize,
    row: int,
    column: int,
    outputs: WordOutputs,
)
    requires
        0 < per_word,
        width as int % per_word as int == 0,
        0 <= row < rows,
        0 <= column < width,
        group == row * (width as int / per_word as int) + column / per_word as int,
        call_ensures(word_outputs, (group, rows, width, per_word), outputs),
    ensures
        outputs.offset + column % per_word as int == row * width + column,
        outputs.column + column % per_word as int == column,
{
    lemma_group_of_element(rows as int, width as int, per_word as int, row, column);
}

// The group of an output element is one of those launched.
proof fn lemma_group_exists(rows: int, width: int, per_word: int, row: int, column: int)
    requires
        0 < per_word,
        width % per_word == 0,
        0 <= row < rows,
        0 <= column < width,
    ensures
        row * (width / per_word) + column / per_word < rows * (width / per_word),
{
    lemma_groups_cover_outputs(rows, width, per_word, row, column);
}

/// Whatever leading columns are computed, lane `i % 32` of the group of a row and column of a dense
/// product takes input `i` of the row and the weight in row `i` and that column, in turn `i / 32`.
pub proof fn lemma_dense_unit_reads(
    rows: usize,
    width: usize,
    weight: TensorInfo,
    row: int,
    column: int,
    i: int,
    group: usize,
    lane: usize,
    terms: Vec<Term>,
)
    requires
        0 <= row < rows,
        0 <= column < width,
        0 <= i < weight.shape@[0],
        group == row * width + column,
        lane == i % 32,
        call_ensures(gemv_unit, (group, lane, rows, width, &weight), terms),
    ensures
        i / 32 < terms@.len(),
        terms@[i / 32].input == row * weight.shape@[0] + i,
        terms@[i / 32].weight == i * weight.strides@[0] + column * weight.strides@[1],
        forall|k: int|
            0 <= k < terms@.len() ==> (#[trigger] terms@[k]).input == row * weight.shape@[0] + lane + 32
                * k && lane + 32 * k < weight.shape@[0],
{
    let input_width = weight.shape@[0] as int;
    lemma_pair(row, width as int, column);
    lemma_strided_partition(32, input_width, i);
    assert(terms@[i / 32].input == row * input_width + strided(lane as int, 32, input_width)[i / 32]);
    assert forall|k: int| 0 <= k < terms@.len() implies (#[trigger] terms@[k]).input == row
        * weight.shape@[0] + lane + 32 * k && lane + 32 * k < weight.shape@[0] by {
        crate::shape::lemma_strided_bound(lane as int, 32, input_width, k);
        assert(strided(lane as int, 32, input_width)[k] == lane + k * 32);
    }
}

/// Whatever leading columns are computed, lane `i % 32` of the group of a row and column of an eight-bit
/// product takes input `i` of the row, the word of that column in row `i` and the scale of the block of
/// columns that it lies in, in turn `i / 32`.
pub proof fn lemma_q8_unit_reads(
    rows: usize,
    columns: usize,
    width: usize,
    block: usize,
    values: TensorInfo,
    scales: TensorInfo,
    row: int,
    column: int,
    i: int,
    group: usize,
    lane: usize,
    terms: Vec<Q8Term>,
)
    requires
        width % 4 == 0,
        block > 0,
        block % 4 == 0,
        0 <= row < rows,
        0 <= column < width,
        0 <= i < values.shape@[0],
        group == row * (width as int / 4) + column / 4,
        lane == i % 32,
        call_ensures(
            q8_gemv_unit,
            (group, lane, rows, columns, width, block, &values, &scales),
            terms,
        ),
    ensures
        i / 32 < terms@.len(),
        terms@[i / 32].input == row * values.shape@[0] + i,
        terms@[i / 32].word == i * values.strides@[0] + (column / 4) * values.strides@[1],
        terms@[i / 32].scale == i * scales.strides@[0] + (column / block as int)
            * scales.strides@[1],
        forall|k: int|
            0 <= k < terms@.len() ==> (#[trigger] terms@[k]).input == row * values.shape@[0] + lane + 32
                * k && lane + 32 * k < values.shape@[0],
{
    let input_width = values.shape@[0] as int;
    lemma_group_of_element(rows as int, width as int, 4, row, column);
    lemma_strided_partition(32, input_width, i);
    assert(terms@[i / 32].input == row * input_width + strided(lane as int, 32, input_width)[i / 32]);
    lemma_q8_product_reads_columns(
        terms@,
        i / 32,
        row,
        column / 4,
        column % 4,
        lane as int,
        block as int,
        values,
        scales,
    );
    assert(4 * (column / 4) + column % 4 == column);
    assert forall|k: int| 0 <= k < terms@.len() implies (#[trigger] terms@[k]).input == row
        * values.shape@[0] + lane + 32 * k && lane + 32 * k < values.shape@[0] by {
        crate::shape::lemma_strided_bound(lane as int, 32, input_width, k);
        assert(strided(lane as int, 32, input_width)[k] == lane + k * 32);
    }
}

/// Whatever leading columns are computed, lane `i % 32` of the group of a row and column of a four-bit
/// product takes input `i` of the row, the word of that column in row `i` and the scale of that column
/// and of the block of rows that row `i` lies in, in turn `i / 32`.
pub proof fn lemma_q4_unit_reads(
    rows: usize,
    columns: usize,
    width: usize,
    block: usize,
    values: TensorInfo,
    scales: TensorInfo,
    row: int,
    column: int,
    i: int,
    group: usize,
    lane: usize,
    terms: Vec<Q4Term>,
)
    requires
        width % 8 == 0,
        block > 0,
        0 <= row < rows,
        0 <= column < width,
        0 <= i < values.shape@[0],
        group == row * (width as int / 8) + column / 8,
        lane == i % 32,
        call_ensures(
            q4_gemv_unit,
            (group, lane, rows, columns, width, block, &values, &scales),
            terms,
        ),
    ensures
        i / 32 < terms@.len(),
        terms@[i / 32].input == row * values.shape@[0] + i,
        terms@[i / 32].word == i * values.strides@[0] + (column / 8) * values.strides@[1],
        terms@[i / 32].scales@.len() == 8,
        terms@[i / 32].scales@[column % 8] == (i / block as int) * scales.strides@[0] + column
            * scales.strides@[1],
        terms@.len() == (values.shape@[0] - lane + 31) / 32,
{
    let input_width = values.shape@[0] as int;
    lemma_group_of_element(rows as int, width as int, 8, row, column);
    lemma_strided_partition(32, input_width, i);
    assert(q4_term(
        terms@[i / 32],
        row,
        column / 8,
        strided(lane as int, 32, input_width)[i / 32],
        block as int,
        values,
        scales,
    ));
    assert(8 * (column / 8) + column % 8 == column);
    let address = crate::tensor::at2(
        scales.strides@,
        i / block as int,
        8 * (column / 8) + column % 8,
    );
    assert(terms@[i / 32].scales@[column % 8] == address);
}

/// A four-bit layer reads, for every input row, input `i` and column, the value in row `i` and that
/// column of the weight and the scale of the block of rows that row `i` lies in, by the scheme of the
/// weight: a lane of a launched group does so in turn `i / 32`.
pub proof fn lemma_q4_layer_reads(
    input: TensorInfo,
    weight: QuantTensor,
    bias: Option<&TensorInfo>,
    plan: Plan,
    parts: QuantParts,
    block: int,
    planned_width: usize,
    planned_block: usize,
    rows: usize,
    row: int,
    column: int,
    i: int,
    group: usize,
    lane: usize,
    terms: Vec<Q4Term>,
)
    requires
        call_ensures(
            linear,
            (&input, &weight, bias),
            Ok::<LinearPlan, Rejection>(LinearPlan::Fused(plan)),
        ),
        weight.info.shape@[1] <= u32::MAX,
        has_q4_block(weight.info, block),
        weight.parts == Some(parts),
        q4_arguments(plan.kernel, bias is Some) == Some((planned_width as int, planned_block as int)),
        rows == rows_of(input),
        rows * (weight.info.shape@[1] as int / 8) < 0x1_0000_0000,
        0 <= row < rows,
        0 <= column < weight.info.shape@[1],
        0 <= i < weight.info.shape@[0],
        group == row * (weight.info.shape@[1] as int / 8) + column / 8,
        lane == i % 32,
        call_ensures(
            q4_gemv_unit,
            (
                group,
                lane,
                rows,
                weight.info.shape@[1],
                planned_width,
                planned_block,
                &parts.values,
                &parts.scales,
            ),
            terms,
        ),
    ensures
        group < plan.launch.cubes,
        lane < plan.launch.threads,
        i / 32 < terms@.len(),
        ({
            let (term, v, s) = (terms@[i / 32], parts.values.strides@, parts.scales.strides@);
            &&& term.input == row * weight.info.shape@[0] + i
            &&& term.word == i * v[0] + (column / 8) * v[1]
            &&& term.scales@.len() == 8
            &&& term.scales@[column % 8] == (i / block) * s[0] + column * s[1]
        }),
{
    let columns = weight.info.shape@[1] as int;
    lemma_linear(input, weight, bias, Ok(LinearPlan::Fused(plan)));
    lemma_one_q4_block(weight.info, block, planned_block as int);
    lemma_group_exists(rows as int, columns, 8, row, column);
    lemma_group_of_element(rows as int, columns, 8, row, column);
    let input_width = parts.values.shape@[0] as int;
    lemma_strided_partition(32, input_width, i);
    assert(q4_term(
        terms@[i / 32],
        row,
        column / 8,
        strided(lane as int, 32, input_width)[i / 32],
        planned_block as int,
        parts.values,
        parts.scales,
    ));
    assert(8 * (column / 8) + column % 8 == column);
    let address = crate::tensor::at2(parts.scales.strides@, i / block, 8 * (column / 8) + column % 8);
    assert(terms@[i / 32].scales@[column % 8] == address);
}

// A scheme has one block.
proof fn lemma_one_q4_block(weight: TensorInfo, a: int, b: int)
    requires
        has_q4_block(weight, a),
        has_q4_block(weight, b),
    ensures
        a == b,
        a > 0,
{
}

// A scheme has one block.
proof fn lemma_one_q8_block(weight: TensorInfo, a: int, b: int)
    requires
        has_q8_block(weight, a),
        has_q8_block(weight, b),
    ensures
        a == b,
        a > 0,
        a % 4 == 0,
{
}

/// An eight-bit layer reads, for every input row, input `i` and column, the value in row `i` and that
/// column of the weight and the scale of the block of columns that the column lies in, by the scheme
/// of the weight: a lane of a launched group does so in turn `i / 32`.
pub proof fn lemma_q8_layer_reads(
    input: TensorInfo,
    weight: QuantTensor,
    bias: Option<&TensorInfo>,
    plan: Plan,
    parts: QuantParts,
    block: int,
    planned_width: usize,
    planned_block: usize,
    rows: usize,
    row: int,
    column: int,
    i: int,
    group: usize,
    lane: usize,
    terms: Vec<Q8Term>,
)
    requires
        call_ensures(
            linear,
            (&input, &weight, bias),
            Ok::<LinearPlan, Rejection>(LinearPlan::Fused(plan)),
        ),
        weight.info.shape@[1] <= u32::MAX,
        has_q8_block(weight.info, block),
        weight.parts == Some(parts),
        q8_arguments(plan.kernel, bias is Some) == Some((planned_width as int, planned_block as int)),
        rows == rows_of(input),
        rows * (weight.info.shape@[1] as int / 4) < 0x1_0000_0000,
        0 <= row < rows,
        0 <= column < weight.info.shape@[1],
        0 <= i < weight.info.shape@[0],
        group == row * (weight.info.shape@[1] as int / 4) + column / 4,
        lane == i % 32,
        call_ensures(
            q8_gemv_unit,
            (
                group,
                lane,
                rows,
                weight.info.shape@[1],
                planned_width,
                planned_block,
                &parts.values,
                &parts.scales,
            ),
            terms,
        ),
    ensures
        group < plan.launch.cubes,
        lane < plan.launch.threads,
        i / 32 < terms@.len(),
        ({
            let (term, v, s) = (terms@[i / 32], parts.values.strides@, parts.scales.strides@);
            &&& term.input == row * weight.info.shape@[0] + i
            &&& term.word == i * v[0] + (column / 4) * v[1]
            &&& term.scale == i * s[0] + (column / block) * s[1]
        }),
{
    let columns = weight.info.shape@[1] as int;
    lemma_linear(input, weight, bias, Ok(LinearPlan::Fused(plan)));
    lemma_one_q8_block(weight.info, block, planned_block as int);
    lemma_group_exists(rows as int, columns, 4, row, column);
    lemma_group_of_element(rows as int, columns, 4, row, column);
    let input_width = parts.values.shape@[0] as int;
    lemma_strided_partition(32, input_width, i);
    assert(terms@[i / 32].input == row * input_width + strided(lane as int, 32, input_width)[i / 32]);
    lemma_q8_product_reads_columns(
        terms@,
        i / 32,
        row,
        column / 4,
        column % 4,
        lane as int,
        block,
        parts.values,
        parts.scales,
    );
    assert(4 * (column / 4) + column % 4 == column);
}

/// A dense layer without a bias reads, for every input row, input `i` and column, the weight in row
/// `i` and that column: a lane of a launched group does so in turn `i / 32`.
pub proof fn lemma_dense_layer_reads(
    input: TensorInfo,
    weight: QuantTensor,
    plan: Plan,
    planned_width: u32,
    rows: usize,
    row: int,
    column: int,
    i: int,
    group: usize,
    lane: usize,
    terms: Vec<Term>,
)
    requires
        call_ensures(
            linear,
            (&input, &weight, None),
            Ok::<LinearPlan, Rejection>(LinearPlan::Fused(plan)),
        ),
        weight.info.shape@[1] <= u32::MAX,
        plan.kernel == (Kernel::Gemv { output_width: planned_width }),
        rows == rows_of(input),
        rows * weight.info.shape@[1] < 0x1_0000_0000,
        0 <= row < rows,
        0 <= column < weight.info.shape@[1],
        0 <= i < weight.info.shape@[0],
        group == row * weight.info.shape@[1] + column,
        lane == i % 32,
        call_ensures(gemv_unit, (group, lane, rows, planned_width as usize, &weight.info), terms),
    ensures
        group < plan.launch.cubes,
        lane < plan.launch.threads,
        i / 32 < terms@.len(),
        terms@[i / 32].input == row * weight.info.shape@[0] + i,
        terms@[i / 32].weight == i * weight.info.strides@[0] + column * weight.info.strides@[1],
{
    let columns = weight.info.shape@[1] as int;
    lemma_linear(input, weight, None, Ok(LinearPlan::Fused(plan)));
    lemma_pair(row, columns, column);
    lemma_pair_bound(row, rows as int, columns, column);
    let input_width = weight.info.shape@[0] as int;
    lemma_strided_partition(32, input_width, i);
    assert(terms@[i / 32].input == row * input_width + strided(lane as int, 32, input_width)[i / 32]);
}

/// A dense layer with a bias reads, for every input row, input `i` and column, the weight in row `i`
/// and that column of a matrix without gaps, and the bias of the column.
pub proof fn lemma_dense_bias_layer_reads(
    input: TensorInfo,
    weight: QuantTensor,
    bias: TensorInfo,
    plan: Plan,
    rows: usize,
    row: int,
    column: int,
    i: int,
    group: usize,
    lane: usize,
    unit: (Vec<Term>, usize),
)
    requires
        call_ensures(
            linear,
            (&input, &weight, Some(&bias)),
            Ok::<LinearPlan, Rejection>(LinearPlan::Fused(plan)),
        ),
        weight.info.shape@[1] <= u32::MAX,
        plan.kernel == Kernel::GemvBias,
        rows == rows_of(input),
        rows * weight.info.shape@[1] < 0x1_0000_0000,
        0 <= row < rows,
        0 <= column < weight.info.shape@[1],
        0 <= i < weight.info.shape@[0],
        group == row * weight.info.shape@[1] + column,
        lane == i % 32,
        call_ensures(
            gemv_bias_unit,
            (group, lane, rows, weight.info.shape@[0], weight.info.shape@[1]),
            unit,
        ),
    ensures
        group < plan.launch.cubes,
        lane < plan.launch.threads,
        i / 32 < unit.0@.len(),
        unit.0@[i / 32].input == row * weight.info.shape@[0] + i,
        unit.0@[i / 32].weight == i * weight.info.shape@[1] + column,
        unit.1 == column,
{
    let columns = weight.info.shape@[1] as int;
    lemma_linear(input, weight, Some(&bias), Ok(LinearPlan::Fused(plan)));
    lemma_pair(row, columns, column);
    lemma_pair_bound(row, rows as int, columns, column);
    let input_width = weight.info.shape@[0] as int;
    lemma_strided_partition(32, input_width, i);
    let (terms, place) = (unit.0@, strided(lane as int, 32, input_width)[i / 32]);
    assert(terms[i / 32].input == row * input_width + place);
    assert(terms[i / 32].weight == crate::tensor::at2(
        seq![weight.info.shape@[1], 1],
        place,
        column,
    ));
    crate::tensor::lemma_gapless(seq![weight.info.shape@[1], 1], columns, i, column);
}

/// What the thirty-two lanes of the group of a row and column of a four-bit layer write is the sum,
/// over all inputs of the row, of the input times the value of the weight times the scale of its block
/// by the weight's scheme, and the bias of the column: what the layer gives with the expanded weight.
pub proof fn lemma_q4_layer_is_product(
    input: TensorInfo,
    weight: QuantTensor,
    bias: Option<&TensorInfo>,
    plan: Plan,
    parts: QuantParts,
    block: int,
    planned_width: usize,
    planned_block: usize,
    rows: usize,
    row: int,
    column: int,
    group: usize,
    lanes: Seq<Vec<Q4Term>>,
    inputs: Seq<real>,
    words: Seq<u32>,
    scale_data: Seq<real>,
    bias_data: Option<Seq<real>>,
)
    requires
        call_ensures(
            linear,
            (&input, &weight, bias),
            Ok::<LinearPlan, Rejection>(LinearPlan::Fused(plan)),
        ),
        weight.info.shape@[1] <= u32::MAX,
        has_q4_block(weight.info, block),
        weight.parts == Some(parts),
        q4_arguments(plan.kernel, bias is Some) == Some((planned_width as int, planned_block as int)),
        rows == rows_of(input),
        0 <= row < rows,
        0 <= column < weight.info.shape@[1],
        group == row * (weight.info.shape@[1] as int / 8) + column / 8,
        lanes.len() == 32,
        forall|lane: int|
            0 <= lane < 32 ==> call_ensures(
                q4_gemv_unit,
                (
                    group,
                    lane as usize,
                    rows,
                    weight.info.shape@[1],
                    planned_width,
                    planned_block,
                    &parts.values,
                    &parts.scales,
                ),
                #[trigger] lanes[lane],
            ),
    ensures
        ({
            let (v, s) = (parts.values.strides@, parts.scales.strides@);
            let width = weight.info.shape@[0];
            q4_written(
                lanes.map_values(|terms: Vec<Q4Term>| terms@),
                column % 8,
                inputs,
                words,
                scale_data,
                bias_of(bias_data, column),
            ) == sum(
                Seq::new(
                    width as nat,
                    |i: int|
                        inputs[row * width + i] * (q4_value(
                            words[i * v[0] + (column / 8) * v[1]],
                            column % 8,
                        ) as real * scale_data[(i / block) * s[0] + column * s[1]]),
                ),
            ) + (match bias_data {
                Some(bias) => bias[column],
                None => 0 as real,
            })
        }),
{
    let columns = weight.info.shape@[1] as int;
    lemma_linear(input, weight, bias, Ok(LinearPlan::Fused(plan)));
    lemma_one_q4_block(weight.info, block, planned_block as int);
    lemma_group_of_element(rows as int, columns, 8, row, column);
    let own = lanes.map_values(|terms: Vec<Q4Term>| terms@);
    assert forall|lane: int| 0 <= lane < 32 implies q4_terms(
        #[trigger] own[lane],
        row,
        column / 8,
        lane,
        block,
        parts.values,
        parts.scales,
    ) by {
        assert(own[lane] == lanes[lane]@);
    }
    lemma_q4_lanes_add_up(
        own,
        row,
        column / 8,
        column % 8,
        block,
        parts.values,
        parts.scales,
        inputs,
        words,
        scale_data,
        bias_data,
    );
    let (v, s) = (parts.values.strides@, parts.scales.strides@);
    let width = weight.info.shape@[0];
    let packed = crate::products::q4_weight(words, scale_data, block, parts.values, parts.scales);
    assert(8 * (column / 8) + column % 8 == column);
    assert(products(inputs, packed, width as nat, row, column) =~= Seq::new(
        width as nat,
        |i: int|
            inputs[row * width + i] * (q4_value(
                words[i * v[0] + (column / 8) * v[1]],
                column % 8,
            ) as real * scale_data[(i / block) * s[0] + column * s[1]]),
    ));
}

/// What the thirty-two lanes of the group of a row and column of an eight-bit layer write is the sum,
/// over all inputs of the row, of the input times the value of the weight times the scale of its block
/// by the weight's scheme, and the bias of the column.
pub proof fn lemma_q8_layer_is_product(
    input: TensorInfo,
    weight: QuantTensor,
    bias: Option<&TensorInfo>,
    plan: Plan,
    parts: QuantParts,
    block: int,
    planned_width: usize,
    planned_block: usize,
    rows: usize,
    row: int,
    column: int,
    group: usize,
    lanes: Seq<Vec<Q8Term>>,
    inputs: Seq<real>,
    words: Seq<u32>,
    scale_data: Seq<real>,
    bias_data: Option<Seq<real>>,
)
    requires
        call_ensures(
            linear,
            (&input, &weight, bias),
            Ok::<LinearPlan, Rejection>(LinearPlan::Fused(plan)),
        ),
        weight.info.shape@[1] <= u32::MAX,
        has_q8_block(weight.info, block),
        weight.parts == Some(parts),
        q8_arguments(plan.kernel, bias is Some) == Some((planned_width as int, planned_block as int)),
        rows == rows_of(input),
        0 <= row < rows,
        0 <= column < weight.info.shape@[1],
        group == row * (weight.info.shape@[1] as int / 4) + column / 4,
        lanes.len() == 32,
        forall|lane: int|
            0 <= lane < 32 ==> call_ensures(
                q8_gemv_unit,
                (
                    group,
                    lane as usize,
                    rows,
                    weight.info.shape@[1],
                    planned_width,
                    planned_block,
                    &parts.values,
                    &parts.scales,
                ),
                #[trigger] lanes[lane],
            ),
    ensures
        ({
            let (v, s) = (parts.values.strides@, parts.scales.strides@);
            let width = weight.info.shape@[0];
            q8_written(
                lanes.map_values(|terms: Vec<Q8Term>| terms@),
                column % 4,
                inputs,
                words,
                scale_data,
                bias_of(bias_data, column),
            ) == sum(
                Seq::new(
                    width as nat,
                    |i: int|
                        inputs[row * width + i] * (q8_value(
                            words[i * v[0] + (column / 4) * v[1]],
                            column % 4,
                        ) as real * scale_data[i * s[0] + (column / block) * s[1]]),
                ),
            ) + (match bias_data {
                Some(bias) => bias[column],
                None => 0 as real,
            })
        }),
{
    let columns = weight.info.shape@[1] as int;
    lemma_linear(input, weight, bias, Ok(LinearPlan::Fused(plan)));
    lemma_one_q8_block(weight.info, block, planned_block as int);
    lemma_group_of_element(rows as int, columns, 4, row, column);
    let own = lanes.map_values(|terms: Vec<Q8Term>| terms@);
    assert forall|lane: int| 0 <= lane < 32 implies q8_terms(
        #[trigger] own[lane],
        row,
        column / 4,
        lane,
        block,
        parts.values,
        parts.scales,
    ) by {
        assert(own[lane] == lanes[lane]@);
    }
    lemma_q8_lanes_add_up(
        own,
        row,
        column / 4,
        column % 4,
        block,
        parts.values,
        parts.scales,
        inputs,
        words,
        scale_data,
        bias_data,
    );
    let (v, s) = (parts.values.strides@, parts.scales.strides@);
    let width = weight.info.shape@[0];
    let packed = crate::products::q8_weight(words, scale_data, block, parts.values, parts.scales);
    assert(4 * (column / 4) + column % 4 == column);
    assert(products(inputs, packed, width as nat, row, column) =~= Seq::new(
        width as nat,
        |i: int|
            inputs[row * width + i] * (q8_value(
                words[i * v[0] + (column / 4) * v[1]],
                column % 4,
            ) as real * scale_data[i * s[0] + (column / block) * s[1]]),
    ));
}

/// What the thirty-two lanes of the group of a row and column of a dense layer write is the scalar
/// product of the input row and the column of the weight.
pub proof fn lemma_dense_layer_is_product(
    input: TensorInfo,
    weight: QuantTensor,
    plan: Plan,
    planned_width: u32,
    rows: usize,
    row: int,
    column: int,
    group: usize,
    lanes: Seq<Vec<Term>>,
    inputs: Seq<real>,
    weights: Seq<real>,
)
    requires
        call_ensures(
            linear,
            (&input, &weight, None),
            Ok::<LinearPlan, Rejection>(LinearPlan::Fused(plan)),
        ),
        weight.info.shape@[1] <= u32::MAX,
        plan.kernel == (Kernel::Gemv { output_width: planned_width }),
        rows == rows_of(input),
        0 <= row < rows,
        0 <= column < weight.info.shape@[1],
        group == row * weight.info.shape@[1] + column,
        lanes.len() == 32,
        forall|lane: int|
            0 <= lane < 32 ==> call_ensures(
                gemv_unit,
                (group, lane as usize, rows, planned_width as usize, &weight.info),
                #[trigger] lanes[lane],
            ),
    ensures
        ({
            let (s, width) = (weight.info.strides@, weight.info.shape@[0]);
            dense_written(lanes.map_values(|terms: Vec<Term>| terms@), inputs, weights, 0 as real)
                == sum(
                Seq::new(
                    width as nat,
                    |i: int| inputs[row * width + i] * weights[i * s[0] + column * s[1]],
                ),
            )
        }),
{
    let columns = weight.info.shape@[1] as int;
    lemma_linear(input, weight, None, Ok(LinearPlan::Fused(plan)));
    lemma_pair(row, columns, column);
    let (s, width) = (weight.info.strides@, weight.info.shape@[0]);
    let own = lanes.map_values(|terms: Vec<Term>| terms@);
    assert forall|lane: int| 0 <= lane < 32 implies dense_terms(
        #[trigger] own[lane],
        row,
        column,
        lane,
        width as int,
        s,
    ) by {
        assert(own[lane] == lanes[lane]@);
    }
    lemma_dense_lanes_add_up(own, row, column, width as nat, s, inputs, weights, None);
    let plain = crate::products::dense_weight(s, weights);
    assert(products(inputs, plain, width as nat, row, column) =~= Seq::new(
        width as nat,
        |i: int| inputs[row * width + i] * weights[i * s[0] + column * s[1]],
    ));
}

} // verus!
