//! Four-bit embedding tables: where the threads of a lookup or a projection find their values.

use vstd::prelude::*;

use crate::packing::q4_value;
use crate::shape::{
    lemma_pair, lemma_pair_bound, lemma_split, lemma_strided_bound, strided, strided_len,
    strided_positions,
};
use crate::tensor::{at2, lemma_gapless, TensorInfo};

verus! {

/// Where one value of a table is found.
#[derive(Clone, Copy, Debug, PartialEq, Eq, Structural)]
pub struct TableEntry {
    /// Address of the word.
    pub word: usize,
    /// Place within the word.
    pub place: usize,
    /// Address of the scale.
    pub scale: usize,
}

/// A table of `rows` by `columns` has words and scales of these shapes: eight columns to a word and
/// thirty-two to a scale.
pub open spec fn table_parts(values: TensorInfo, scales: TensorInfo, rows: int, columns: int) -> bool {
    &&& columns % 32 == 0
    &&& values.addressable()
    &&& values.leads_with(0, 0)
    &&& values.shape@[0] == rows
    &&& values.shape@[1] == columns / 8
    &&& scales.addressable()
    &&& scales.leads_with(0, 0)
    &&& scales.shape@[0] == rows
    &&& scales.shape@[1] == columns / 32
}

/// Where the value in a row and column of a table is found.
pub open spec fn entry_at(
    entry: TableEntry,
    row: int,
    column: int,
    values: TensorInfo,
    scales: TensorInfo,
) -> bool {
    &&& entry.word == at2(values.strides@, row, column / 8)
    &&& entry.place == column % 8
    &&& entry.scale == at2(scales.strides@, row, column / 32)
}

// Finds the value in a row and column of a table.
fn table_entry(row: usize, column: usize, values: &TensorInfo, scales: &TensorInfo) -> (entry:
    TableEntry)
    requires
        table_parts(*values, *scales, values.shape@[0] as int, 32 * scales.shape@[1]),
        row < values.shape@[0],
        column < 32 * scales.shape@[1],
    ensures
        entry_at(entry, row as int, column as int, *values, *scales),
        entry.place < 8,
{
    TableEntry {
        word: values.at2(row, column / 8),
        place: column % 8,
        scale: scales.at2(row, column / 32),
    }
}

/// Which index, out of the list of indices, the thread of element `index` looks up, and which
/// column; `None` past the last element.
pub fn gathered_position(index: usize, len: usize, hidden_width: usize) -> (position: Option<
    (usize, usize),
>)
    requires
        len > 0 ==> hidden_width > 0,
    ensures
        match position {
            None => index >= len,
            Some((index_row, feature)) => index < len && index_row == index as int
                / hidden_width as int && feature == index as int % hidden_width as int && feature
                < hidden_width,
        },
{
    if index >= len {
        None
    } else {
        Some((index / hidden_width, index % hidden_width))
    }
}

/// What the thread of element `index` reads, where the index that it looks up names row
/// `weight_row`; `None` past the last element.
pub fn q4_embedding_unit(
    index: usize,
    len: usize,
    weight_row: usize,
    hidden_width: usize,
    values: &TensorInfo,
    scales: &TensorInfo,
) -> (entry: Option<TableEntry>)
    requires
        table_parts(*values, *scales, values.shape@[0] as int, hidden_width as int),
        len > 0 ==> hidden_width > 0,
        weight_row < values.shape@[0],
    ensures
        match entry {
            None => index >= len,
            Some(entry) => index < len && entry_at(
                entry,
                weight_row as int,
                index as int % hidden_width as int,
                *values,
                *scales,
            ),
        },
{
    match gathered_position(index, len, hidden_width) {
        None => None,
        Some((_, feature)) => Some(table_entry(weight_row, feature, values, scales)),
    }
}

/// What the thread of column `feature` reads of row `row`; `None` past the last column.
pub fn q4_embedding_row_unit(
    feature: usize,
    row: usize,
    hidden_width: usize,
    values: &TensorInfo,
    scales: &TensorInfo,
) -> (entry: Option<TableEntry>)
    requires
        table_parts(*values, *scales, values.shape@[0] as int, hidden_width as int),
        row < values.shape@[0],
    ensures
        match entry {
            None => feature >= hidden_width,
            Some(entry) => feature < hidden_width && entry_at(
                entry,
                row as int,
                feature as int,
                *values,
                *scales,
            ),
        },
{
    if feature >= hidden_width {
        None
    } else {
        Some(table_entry(row, feature, values, scales))
    }
}

/// The row of the table that projection column `column` is the product with: the rows of the range
/// in order, then the one more row.
pub open spec fn projected_row(column: int, start: int, rows: int, eos: int) -> int {
    if column < rows {
        start + column
    } else {
        eos
    }
}

/// One term of a projection: an input and the value of the table that it is multiplied by.
#[derive(Clone, Copy, Debug, PartialEq, Eq, Structural)]
pub struct ProjectionTerm {
    /// Address of the input.
    pub input: usize,
    /// The value of the table.
    pub entry: TableEntry,
}

/// The terms of lane `lane` for one input row and one row of the table: every thirty-second column.
pub open spec fn projection_terms(
    terms: Seq<ProjectionTerm>,
    input_row: int,
    weight_row: int,
    lane: int,
    hidden_width: int,
    values: TensorInfo,
    scales: TensorInfo,
) -> bool {
    &&& terms.len() == strided_len(lane, 32, hidden_width)
    &&& forall|k: int|
        0 <= k < terms.len() ==> (#[trigger] terms[k]).input == input_row * hidden_width + strided(
            lane,
            32,
            hidden_width,
        )[k] && entry_at(
            terms[k].entry,
            weight_row,
            strided(lane, 32, hidden_width)[k],
            values,
            scales,
        )
}

/// What one lane of the projection kernel sums up for output element `output_index`.
pub fn q4_embedding_projection_unit(
    output_index: usize,
    lane: usize,
    input_rows: usize,
    semantic_start: usize,
    semantic_rows: usize,
    eos_row: usize,
    values: &TensorInfo,
    scales: &TensorInfo,
) -> (terms: Vec<ProjectionTerm>)
    requires
        table_parts(*values, *scales, values.shape@[0] as int, 8 * values.shape@[1]),
        8 * values.shape@[1] <= usize::MAX,
        semantic_start + semantic_rows <= values.shape@[0],
        eos_row < values.shape@[0],
        output_index < input_rows * (semantic_rows + 1),
        input_rows * (8 * values.shape@[1]) <= usize::MAX,
        semantic_rows < usize::MAX,
        lane < 32,
    ensures
        ({
            let output_width = semantic_rows + 1;
            projection_terms(
                terms@,
                output_index as int / output_width,
                projected_row(
                    output_index as int % output_width,
                    semantic_start as int,
                    semantic_rows as int,
                    eos_row as int,
                ),
                lane as int,
                8 * values.shape@[1],
                *values,
                *scales,
            )
        }),
{
    let output_width: usize = semantic_rows + 1;
    proof {
        lemma_split(output_index as int, input_rows as int, output_width as int);
    }
    let input_row: usize = output_index / output_width;
    let projection_column: usize = output_index % output_width;
    let weight_row: usize = if projection_column < semantic_rows {
        semantic_start + projection_column
    } else {
        eos_row
    };
    let hidden_width: usize = values.shape[1] * 8;
    let features = strided_positions(lane, 32, hidden_width);
    let mut terms: Vec<ProjectionTerm> = Vec::with_capacity(features.len());
    let mut k: usize = 0;
    while k < features.len()
        invariant
            k <= features@.len(),
            table_parts(*values, *scales, values.shape@[0] as int, hidden_width as int),
            weight_row < values.shape@[0],
            input_row < input_rows,
            input_rows * hidden_width <= usize::MAX,
            features@.len() == strided_len(lane as int, 32, hidden_width as int),
            forall|j: int|
                0 <= j < features@.len() ==> #[trigger] features@[j] == strided(
                    lane as int,
                    32,
                    hidden_width as int,
                )[j],
            terms@.len() == k,
            forall|j: int|
                0 <= j < k ==> (#[trigger] terms@[j]).input == input_row * hidden_width + strided(
                    lane as int,
                    32,
                    hidden_width as int,
                )[j] && entry_at(
                    terms@[j].entry,
                    weight_row as int,
                    strided(lane as int, 32, hidden_width as int)[j],
                    *values,
                    *scales,
                ),
        decreases features@.len() - k,
    {
        let feature: usize = features[k];
        proof {
            lemma_strided_bound(lane as int, 32, hidden_width as int, k as int);
            lemma_pair_bound(
                input_row as int,
                input_rows as int,
                hidden_width as int,
                feature as int,
            );
            assert(0 <= input_row * hidden_width) by (nonlinear_arith);
        }
        terms.push(
            ProjectionTerm {
                input: input_row * hidden_width + feature,
                entry: table_entry(weight_row, feature, values, scales),
            },
        );
        k = k + 1;
    }
    terms
}

/// What one element of a projection is the product of: a hidden row and a row of the table.
#[derive(Clone, Copy, Debug, PartialEq, Eq, Structural)]
pub struct ProjectedElement {
    /// Batch of the hidden row.
    pub batch: usize,
    /// Position of the hidden row in its sequence.
    pub position: usize,
    /// Row of the table.
    pub table_row: usize,
}

/// Element `output_index` of the projection of `positions` hidden rows per batch onto `rows` rows of
/// the table from `start` on and row `eos`: hidden rows come one after the other, batch by batch.
pub open spec fn is_product(
    element: ProjectedElement,
    output_index: int,
    positions: int,
    start: int,
    rows: int,
    eos: int,
) -> bool {
    let (row, column) = (output_index / (rows + 1), output_index % (rows + 1));
    &&& element.batch == row / positions
    &&& element.position == row % positions
    &&& element.table_row == projected_row(column, start, rows, eos)
}

/// What element `output_index` of a projection is the product of, for hidden rows of `batches` times
/// `positions`.
pub fn projected_element(
    output_index: usize,
    batches: usize,
    positions: usize,
    semantic_start: usize,
    semantic_rows: usize,
    eos_row: usize,
) -> (element: ProjectedElement)
    requires
        semantic_rows < usize::MAX,
        semantic_start + semantic_rows <= usize::MAX,
        output_index < (batches * positions) * (semantic_rows + 1),
    ensures
        is_product(
            element,
            output_index as int,
            positions as int,
            semantic_start as int,
            semantic_rows as int,
            eos_row as int,
        ),
        element.batch < batches,
        element.position < positions,
{
    let output_width: usize = semantic_rows + 1;
    proof {
        let rows = batches * positions;
        lemma_split(output_index as int, rows, output_width as int);
        let row = output_index as int / output_width as int;
        assert(positions > 0) by (nonlinear_arith)
            requires
                0 <= row < batches * positions,
                positions >= 0,
        ;
        lemma_split(row, batches as int, positions as int);
    }
    let row: usize = output_index / output_width;
    let column: usize = output_index % output_width;
    let table_row: usize = if column < semantic_rows {
        semantic_start + column
    } else {
        eos_row
    };
    ProjectedElement { batch: row / positions, position: row % positions, table_row }
}

/// Every hidden row is projected onto every row: the product of hidden row `position` of batch
/// `batch` with the row of the table for `column` is element `(batch * positions + position) *
/// columns + column`.
pub proof fn lemma_every_row_projected(
    element: ProjectedElement,
    batch: int,
    position: int,
    column: int,
    batches: int,
    positions: int,
    start: int,
    rows: int,
    eos: int,
)
    requires
        0 <= batch < batches,
        0 <= position < positions,
        0 <= column <= rows,
        is_product(
            element,
            (batch * positions + position) * (rows + 1) + column,
            positions,
            start,
            rows,
            eos,
        ),
    ensures
        (batch * positions + position) * (rows + 1) + column < (batches * positions) * (rows + 1),
        element.batch == batch,
        element.position == position,
        element.table_row == projected_row(column, start, rows, eos),
{
    let row = batch * positions + position;
    lemma_pair(batch, positions, position);
    lemma_pair_bound(batch, batches, positions, position);
    lemma_pair(row, rows + 1, column);
    lemma_pair_bound(row, batches * positions, rows + 1, column);
}

/// A four-bit table is projected onto like a dense one: the terms of an output element take the
/// hidden row and the row of the table that the element is the product of.
pub proof fn lemma_projections_agree(
    terms: Seq<ProjectionTerm>,
    element: ProjectedElement,
    k: int,
    lane: int,
    output_index: int,
    batches: int,
    positions: int,
    start: int,
    rows: int,
    eos: int,
    hidden_width: int,
    values: TensorInfo,
    scales: TensorInfo,
)
    requires
        0 <= rows,
        0 < positions,
        0 <= output_index < (batches * positions) * (rows + 1),
        is_product(element, output_index, positions, start, rows, eos),
        projection_terms(
            terms,
            output_index / (rows + 1),
            projected_row(output_index % (rows + 1), start, rows, eos),
            lane,
            hidden_width,
            values,
            scales,
        ),
        0 <= k < terms.len(),
    ensures
        ({
            let feature = strided(lane, 32, hidden_width)[k];
            &&& terms[k].input == (element.batch * positions + element.position) * hidden_width
                + feature
            &&& entry_at(terms[k].entry, element.table_row as int, feature, values, scales)
        }),
{
    let row = output_index / (rows + 1);
    lemma_split(output_index, batches * positions, rows + 1);
    lemma_split(row, batches, positions);
    assert(terms[k].input == row * hidden_width + strided(lane, 32, hidden_width)[k]);
}

/// Every path finds a value of the table in the same place: looking up an index, reading a single
/// row and projecting onto a row agree on each column.
pub proof fn lemma_entry_unique(
    a: TableEntry,
    b: TableEntry,
    row: int,
    column: int,
    values: TensorInfo,
    scales: TensorInfo,
)
    requires
        entry_at(a, row, column, values, scales),
        entry_at(b, row, column, values, scales),
    ensures
        a == b,
{
}

/// The value of a table in a row and column, in exact arithmetic: the packed value times its scale.
pub open spec fn table_value(
    words: Seq<u32>,
    scale_data: Seq<real>,
    row: int,
    column: int,
    values: TensorInfo,
    scales: TensorInfo,
) -> real {
    q4_value(words[at2(values.strides@, row, column / 8)], column % 8) as real * scale_data[at2(
        scales.strides@,
        row,
        column / 32,
    )]
}

/// The value that is read at an entry.
pub open spec fn entry_value(entry: TableEntry, words: Seq<u32>, scale_data: Seq<real>) -> real {
    q4_value(words[entry.word as int], entry.place as int) as real * scale_data[entry.scale as int]
}

/// What is read at the entry of a row and column is the value of the table there.
pub proof fn lemma_entry_value(
    entry: TableEntry,
    row: int,
    column: int,
    words: Seq<u32>,
    scale_data: Seq<real>,
    values: TensorInfo,
    scales: TensorInfo,
)
    requires
        entry_at(entry, row, column, values, scales),
    ensures
        entry_value(entry, words, scale_data) == table_value(
            words,
            scale_data,
            row,
            column,
            values,
            scales,
        ),
{
}

/// Gathered rows lie side by side: column `feature` of the row for index `index_row` is element
/// `index_row * width + feature`, and no other element is.
pub proof fn lemma_gathered_rows(index_row: int, feature: int, indices: int, width: int)
    requires
        0 <= index_row < indices,
        0 <= feature < width,
    ensures
        ({
            let index = index_row * width + feature;
            &&& 0 <= index < indices * width
            &&& index / width == index_row
            &&& index % width == feature
        }),
{
    lemma_pair(index_row, width, feature);
    lemma_pair_bound(index_row, indices, width, feature);
}

/// The projection has one column per row of the range and one more: column `column` of the range
/// belongs to row `start + column`, and the last column to the row after the range.
pub proof fn lemma_projection_columns(start: int, rows: int, eos: int, column: int)
    requires
        0 <= rows,
        0 <= column < rows,
    ensures
        projected_row(column, start, rows, eos) == start + column,
        projected_row(rows, start, rows, eos) == eos,
{
}

/// The words and scales of a table without gaps follow the elements in order: element
/// `row * columns + column` is in word `element / 8` at place `element % 8`, and its scale is number
/// `element / 32`.
pub proof fn lemma_table_in_order(
    entry: TableEntry,
    row: int,
    column: int,
    columns: int,
    values: TensorInfo,
    scales: TensorInfo,
)
    requires
        0 <= columns <= usize::MAX,
        columns % 32 == 0,
        0 <= row,
        0 <= column < columns,
        values.strides@ == seq![(columns / 8) as usize, 1],
        scales.strides@ == seq![(columns / 32) as usize, 1],
        entry_at(entry, row, column, values, scales),
    ensures
        entry.word == (row * columns + column) / 8,
        entry.place == (row * columns + column) % 8,
        entry.scale == (row * columns + column) / 32,
{
    lemma_gapless(values.strides@, columns / 8, row, column / 8);
    lemma_gapless(scales.strides@, columns / 32, row, column / 32);
    let w = columns / 32;
    let n = row * w;
    assert(row * columns == 32 * n && row * (columns / 8) == 4 * n) by (nonlinear_arith)
        requires
            columns == 32 * w,
            columns / 8 == 4 * w,
            n == row * w,
    ;
}

} // verus!
