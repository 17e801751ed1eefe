//! Embedding tables: which rows are read, where their values and scales are, and where they go.

use vstd::prelude::*;

use crate::backend::{CubeBackend, MetalTransformerBackend};
use crate::embedding::{
    gathered_position, projected_element, q4_embedding_projection_unit, q4_embedding_row_unit,
    q4_embedding_unit, ProjectedElement, ProjectionTerm, TableEntry,
};
use crate::laws::counts::{
    has_room, has_thread, is_large, lemma_elements_have_threads, lemma_elements_of_three,
    lemma_grouped_count, lemma_small_tensors_fit, one_thread_each,
};
use crate::laws::linear::{leads, one_group_each, rows_of};
use crate::laws::schemes::{lemma_q4_table, q4_in_rows};
use crate::ops::{embedding, embedding_projection, embedding_row, EmbeddingPlan};
use crate::plan::{Kernel, Plan};
use crate::reject::Rejection;
use crate::rules::{
    gathered_shape, projection_shape, q4_embedding_planned, q4_embedding_projection_planned,
    q4_embedding_row_planned,
};
use crate::scheme::DType;
use crate::shape::{lemma_pair, lemma_pair_bound, lemma_strided_partition, product, strided};
use crate::tensor::{row_major, Allocation, QuantParts, QuantTensor, TensorInfo};

verus! {

/// The tensor is a four-bit table.
pub open spec fn is_table(tensor: TensorInfo) -> bool {
    tensor.dtype matches DType::QFloat(scheme) && q4_in_rows(scheme)
}

/// Words of eight columns, and a scale for each thirty-two columns of a row.
pub open spec fn table_parts_fit(parts: QuantParts, table: TensorInfo, typed: bool) -> bool {
    let (rows, columns) = (table.shape@[0] as int, table.shape@[1] as int);
    &&& typed ==> parts.values.dtype is U32 && parts.scales.dtype is F32
    &&& leads(parts.values, rows, columns / 8)
    &&& leads(parts.scales, rows, columns / 32)
}

/// The tensor is without gaps, has this device, element type and shape, and the room for it.
pub open spec fn is_new(output: Allocation, device: u64, dtype: DType, shape: Seq<usize>) -> bool {
    let tensor = output.tensor;
    &&& tensor.device == device
    &&& tensor.dtype == dtype
    &&& tensor.shape@ == shape
    &&& row_major(tensor.strides@, shape)
    &&& has_room(output)
}

/// Looking up rows gives, in single precision, a row of the table per index, with a thread for every
/// element; it is refused for these reasons only.
pub open spec fn lookup_served(
    answer: Result<Plan, Rejection>,
    table: QuantTensor,
    indices: TensorInfo,
) -> bool {
    let (w, i) = (table.info.shape@, indices.shape@);
    let together = table.info.device == indices.device;
    let ranks = w.len() == 2 && i.len() == 2;
    let aligned = together && is_table(table.info) && ranks && w[1] % 32 == 0;
    match answer {
        Ok(plan) => {
            &&& aligned
            &&& table.parts matches Some(parts) && table_parts_fit(parts, table.info, true)
            &&& plan.kernel matches Kernel::Q4Embedding { hidden_width }
            &&& hidden_width == w[1] as int % 0x1_0000_0000
            &&& w[1] <= u32::MAX ==> hidden_width == w[1]
            &&& one_thread_each(plan.launch, i[0] * i[1] * w[1])
            &&& is_new(
                plan.output,
                table.info.device,
                DType::F32,
                seq![i[0], i[1], w[1]],
            )
        },
        Err(Rejection::DeviceMismatch) => table.info.device != indices.device,
        Err(Rejection::NotQuantized) => together && !(table.info.dtype is QFloat),
        Err(Rejection::UnsupportedScheme) => together && table.info.dtype is QFloat && !is_table(
            table.info,
        ),
        Err(Rejection::WrongRank) => together && is_table(table.info) && !ranks,
        Err(Rejection::Misaligned) => together && is_table(table.info) && ranks && w[1] % 32 != 0,
        Err(Rejection::MissingParts) => aligned && table.parts is None,
        Err(Rejection::WrongParts) => aligned && (table.parts matches Some(parts)
            && !table_parts_fit(parts, table.info, true)),
        Err(Rejection::TooLarge) => aligned && table.parts is Some && is_large(
            seq![i[0], i[1], w[1]],
            DType::F32,
        ),
        Err(_) => false,
    }
}

// What the scheme of a table is.
proof fn lemma_table(table: TensorInfo)
    ensures
        is_table(table) <==> (table.dtype matches DType::QFloat(scheme)
            && crate::scheme::q4_embedding(scheme)),
{
    if let DType::QFloat(scheme) = table.dtype {
        lemma_q4_table(scheme);
    }
}

proof fn lemma_lookup(answer: Result<Plan, Rejection>, table: QuantTensor, indices: TensorInfo)
    requires
        q4_embedding_planned(answer, table, indices),
    ensures
        lookup_served(answer, table, indices),
{
    lemma_table(table.info);
    let (w, i) = (table.info.shape@, indices.shape@);
    let shape = gathered_shape(i, w[1]);
    assert(shape =~= seq![i[0], i[1], w[1]]);
    lemma_elements_of_three(shape);
    match answer {
        Ok(plan) => {
            lemma_elements_have_threads(product(shape) as int, plan.launch);
            if w[1] <= u32::MAX {
                vstd::arithmetic::div_mod::lemma_small_mod(w[1] as nat, 0x1_0000_0000);
            }
        },
        Err(_) => {
            if !is_large(shape, DType::F32) {
                lemma_small_tensors_fit(shape, DType::F32);
            }
        },
    }
}

/// Looking up rows by the fused kernel.
pub proof fn lemma_fused_q4_embedding(
    table: QuantTensor,
    indices: TensorInfo,
    answer: Result<Plan, Rejection>,
)
    requires
        call_ensures(CubeBackend::fused_q4_embedding, (&table, &indices), answer),
    ensures
        lookup_served(answer, table, indices),
{
    lemma_lookup(answer, table, indices);
}

/// What a fused kernel answers, where a table is read by one or refused.
pub open spec fn by_kernel(answer: Result<EmbeddingPlan, Rejection>) -> Option<
    Result<Plan, Rejection>,
> {
    match answer {
        Ok(EmbeddingPlan::Fused(plan)) => Some(Ok(plan)),
        Err(reason) => Some(Err(reason)),
        _ => None,
    }
}

/// Four-bit tables are looked up without expanding them, all others by the general operation.
pub proof fn lemma_embedding(
    indices: TensorInfo,
    table: QuantTensor,
    answer: Result<EmbeddingPlan, Rejection>,
)
    requires
        call_ensures(embedding, (&indices, &table), answer),
    ensures
        if indices.shape@.len() != 2 || table.info.shape@.len() != 2 {
            answer == Err::<EmbeddingPlan, Rejection>(Rejection::WrongRank)
        } else if is_table(table.info) {
            by_kernel(answer) matches Some(answer) && lookup_served(answer, table, indices)
        } else {
            answer == Ok::<EmbeddingPlan, Rejection>(EmbeddingPlan::General)
        },
{
    lemma_table(table.info);
    if indices.shape@.len() == 2 && table.info.shape@.len() == 2 && is_table(table.info) {
        if let Some(plan) = by_kernel(answer) {
            lemma_lookup(plan, table, indices);
        }
    }
}

/// The value in a row and column of a table is at place `column % 8` of word `column / 8` of the row,
/// and its scale is number `column / 32` of the row.
pub open spec fn finds(
    entry: TableEntry,
    row: int,
    column: int,
    values: Seq<usize>,
    scales: Seq<usize>,
) -> bool {
    &&& entry.word == row * values[0] + (column / 8) * values[1]
    &&& entry.place == column % 8
    &&& entry.scale == row * scales[0] + (column / 32) * scales[1]
}

/// Every element of looked-up rows has a thread of the planned launch, run with the plan's own
/// argument: column `column` of the row for index number `number` is that column of the row that the
/// index names.
pub proof fn lemma_element_looked_up(
    indices: TensorInfo,
    table: QuantTensor,
    plan: Plan,
    parts: QuantParts,
    planned_width: u32,
    number: int,
    column: int,
    named_row: usize,
    index: usize,
    len: usize,
    position: Option<(usize, usize)>,
    entry: Option<TableEntry>,
)
    requires
        call_ensures(
            embedding,
            (&indices, &table),
            Ok::<EmbeddingPlan, Rejection>(EmbeddingPlan::Fused(plan)),
        ),
        table.parts == Some(parts),
        table.info.shape@[1] <= u32::MAX,
        plan.kernel == (Kernel::Q4Embedding { hidden_width: planned_width }),
        len == product(plan.output.tensor.shape@),
        len <= 256 * 0xffff_ffff,
        0 <= number < indices.shape@[0] * indices.shape@[1],
        0 <= column < table.info.shape@[1],
        index == number * table.info.shape@[1] + column,
        call_ensures(gathered_position, (index, len, planned_width as usize), position),
        call_ensures(
            q4_embedding_unit,
            (index, len, named_row, planned_width as usize, &parts.values, &parts.scales),
            entry,
        ),
    ensures
        has_thread(plan.launch, index as int),
        position == Some((number as usize, column as usize)),
        entry matches Some(entry) && finds(
            entry,
            named_row as int,
            column,
            parts.values.strides@,
            parts.scales.strides@,
        ),
{
    lemma_embedding(indices, table, Ok(EmbeddingPlan::Fused(plan)));
    let columns = table.info.shape@[1] as int;
    let count = indices.shape@[0] * indices.shape@[1];
    lemma_elements_of_three(plan.output.tensor.shape@);
    lemma_pair(number, columns, column);
    lemma_pair_bound(number, count, columns, column);
    assert(has_thread(plan.launch, index as int));
}

/// Reading one row gives, in single precision, all its columns, with a thread for each; it is refused
/// for these reasons only.
pub open spec fn row_served(answer: Result<Plan, Rejection>, table: QuantTensor, row: int) -> bool {
    let w = table.info.shape@;
    let aligned = is_table(table.info) && w.len() >= 2 && row < w[0] && w[1] % 32 == 0;
    match answer {
        Ok(plan) => {
            &&& aligned
            &&& table.parts matches Some(parts) && table_parts_fit(parts, table.info, false)
            &&& plan.kernel matches Kernel::Q4EmbeddingRow { row: planned }
            &&& planned == row
            &&& one_thread_each(plan.launch, w[1] as int)
            &&& is_new(
                plan.output,
                table.info.device,
                DType::F32,
                seq![1usize, 1usize, w[1]],
            )
        },
        Err(Rejection::NotQuantized) => !(table.info.dtype is QFloat),
        Err(Rejection::UnsupportedScheme) => table.info.dtype is QFloat && !is_table(table.info),
        Err(Rejection::WrongRank) => is_table(table.info) && w.len() < 2,
        Err(Rejection::OutOfRange) => is_table(table.info) && w.len() >= 2 && row >= w[0],
        Err(Rejection::Misaligned) => is_table(table.info) && w.len() >= 2 && row < w[0] && w[1] % 32
            != 0,
        Err(Rejection::MissingParts) => aligned && table.parts is None,
        Err(Rejection::WrongParts) => aligned && (table.parts matches Some(parts)
            && !table_parts_fit(parts, table.info, false)),
        Err(Rejection::TooLarge) => aligned && table.parts is Some && is_large(
            seq![1usize, 1usize, w[1]],
            DType::F32,
        ),
        Err(_) => false,
    }
}

proof fn lemma_row(answer: Result<Plan, Rejection>, table: QuantTensor, row: u32)
    requires
        q4_embedding_row_planned(answer, table, row),
    ensures
        row_served(answer, table, row as int),
{
    lemma_table(table.info);
    let w = table.info.shape@;
    let shape = seq![1usize, 1usize, w[1]];
    match answer {
        Ok(plan) => {
            lemma_elements_have_threads(w[1] as int, plan.launch);
        },
        Err(_) => {
            if !is_large(shape, DType::F32) {
                lemma_small_tensors_fit(shape, DType::F32);
            }
        },
    }
}

/// Reading one row by the fused kernel reads the row asked for.
pub proof fn lemma_fused_q4_embedding_row(
    table: QuantTensor,
    row: u32,
    answer: Result<Plan, Rejection>,
)
    requires
        call_ensures(CubeBackend::fused_q4_embedding_row, (&table, row), answer),
    ensures
        row_served(answer, table, row as int),
{
    lemma_row(answer, table, row);
}

/// Reading one row reads the row asked for: from a four-bit table without expanding it, from a table
/// that is not quantized by cutting it out, and from no other.
pub proof fn lemma_embedding_row(
    table: QuantTensor,
    row: usize,
    answer: Result<EmbeddingPlan, Rejection>,
)
    requires
        call_ensures(embedding_row, (&table, row), answer),
    ensures
        if table.info.shape@.len() != 2 {
            answer == Err::<EmbeddingPlan, Rejection>(Rejection::WrongRank)
        } else if is_table(table.info) {
            by_kernel(answer) matches Some(answer) && row_served(
                answer,
                table,
                row as int % 0x1_0000_0000,
            )
        } else if table.info.dtype is QFloat {
            answer == Err::<EmbeddingPlan, Rejection>(Rejection::UnsupportedScheme)
        } else if row == usize::MAX {
            answer == Err::<EmbeddingPlan, Rejection>(Rejection::TooLarge)
        } else {
            answer matches Ok(EmbeddingPlan::Slice { start, end, width }) && start == row && end
                == row + 1 && width == table.info.shape@[1]
        },
{
    lemma_table(table.info);
    if table.info.shape@.len() == 2 && is_table(table.info) {
        if let Some(plan) = by_kernel(answer) {
            lemma_row(plan, table, (row as int % 0x1_0000_0000) as u32);
        }
    }
}

/// Every column of a row that is read has a thread of the planned launch, run with the plan's own
/// argument, which finds the value of that row and column.
pub proof fn lemma_row_element_read(
    table: QuantTensor,
    row: usize,
    plan: Plan,
    parts: QuantParts,
    planned_row: u32,
    column: usize,
    entry: Option<TableEntry>,
)
    requires
        call_ensures(
            embedding_row,
            (&table, row),
            Ok::<EmbeddingPlan, Rejection>(EmbeddingPlan::Fused(plan)),
        ),
        row <= u32::MAX,
        table.parts == Some(parts),
        plan.kernel == (Kernel::Q4EmbeddingRow { row: planned_row }),
        column < table.info.shape@[1] <= 256 * 0xffff_ffff,
        call_ensures(
            q4_embedding_row_unit,
            (
                column,
                planned_row as usize,
                table.info.shape@[1],
                &parts.values,
                &parts.scales,
            ),
            entry,
        ),
    ensures
        has_thread(plan.launch, column as int),
        entry matches Some(entry) && finds(
            entry,
            row as int,
            column as int,
            parts.values.strides@,
            parts.scales.strides@,
        ),
{
    lemma_embedding_row(table, row, Ok(EmbeddingPlan::Fused(plan)));
    vstd::arithmetic::div_mod::lemma_small_mod(row as nat, 0x1_0000_0000);
    assert(has_thread(plan.launch, column as int));
}

/// A projection goes from every input row to the rows `start .. start + count` of the table and to row
/// `eos`, with a group for each product; it is refused for these reasons only.
pub open spec fn projection_served(
    answer: Result<Plan, Rejection>,
    input: TensorInfo,
    table: QuantTensor,
    start: int,
    count: int,
    eos: int,
) -> bool {
    let (w, i) = (table.info.shape@, input.shape@);
    let together = input.device == table.info.device;
    let known = together && is_table(table.info);
    let ranks = w.len() >= 2 && i.len() == 3;
    let within = known && ranks && i[2] == w[1] && start + count <= w[0] && eos < w[0];
    match answer {
        Ok(plan) => {
            &&& within
            &&& w[1] > 0
            &&& table.parts matches Some(parts) && table_parts_fit(parts, table.info, false)
            &&& plan.kernel matches Kernel::Q4EmbeddingProjection {
                semantic_start,
                semantic_rows,
                eos_row,
            }
            &&& semantic_start == start && semantic_rows == count && eos_row == eos
            &&& one_group_each(plan, rows_of(input) * (count + 1))
            &&& plan.output.tensor.device == input.device
            &&& plan.output.tensor.dtype == input.dtype
            &&& plan.output.tensor.shape@.len() == 2
            &&& plan.output.tensor.shape@[0] == rows_of(input)
            &&& plan.output.tensor.shape@[1] == count + 1
            &&& row_major(plan.output.tensor.strides@, plan.output.tensor.shape@)
            &&& has_room(plan.output)
        },
        Err(Rejection::DeviceMismatch) => input.device != table.info.device,
        Err(Rejection::NotQuantized) => together && !(table.info.dtype is QFloat),
        Err(Rejection::UnsupportedScheme) => together && table.info.dtype is QFloat && !is_table(
            table.info,
        ),
        Err(Rejection::WrongRank) => known && !ranks,
        Err(Rejection::ShapeMismatch) => known && ranks && i[2] != w[1],
        Err(Rejection::OutOfRange) => known && ranks && i[2] == w[1] && (start + count > w[0] || eos
            >= w[0]),
        Err(Rejection::MissingParts) => within && table.parts is None,
        Err(Rejection::WrongParts) => within && (table.parts matches Some(parts)
            && !table_parts_fit(parts, table.info, false)),
        Err(Rejection::EmptyDimension) => within && table.parts is Some && w[1] == 0,
        Err(Rejection::TooLarge) => within && table.parts is Some && w[1] > 0 && (product(i)
            > usize::MAX || count + 1 > usize::MAX || is_large(
            seq![rows_of(input) as usize, (count + 1) as usize],
            input.dtype,
        )),
        Err(_) => false,
    }
}

proof fn lemma_projection(
    answer: Result<Plan, Rejection>,
    input: TensorInfo,
    table: QuantTensor,
    start: u32,
    count: u32,
    eos: u32,
)
    requires
        q4_embedding_projection_planned(answer, input, table, start, count, eos),
    ensures
        projection_served(answer, input, table, start as int, count as int, eos as int),
{
    lemma_table(table.info);
    let (w, i) = (table.info.shape@, input.shape@);
    if i.len() == 3 && w.len() >= 2 && i[2] == w[1] && w[1] > 0 {
        let rows = rows_of(input);
        lemma_elements_of_three(i);
        lemma_pair(rows, w[1] as int, 0);
        assert(product(i) as int / w[1] as int == rows);
        let shape = projection_shape(i, w[1] as int, count);
        assert(rows <= product(i)) by (nonlinear_arith)
            requires
                product(i) == rows * w[1],
                w[1] > 0,
                rows >= 0,
        ;
        if product(i) <= usize::MAX {
            assert(shape =~= seq![rows as usize, (count + 1) as usize]);
            if !is_large(shape, input.dtype) {
                lemma_small_tensors_fit(shape, input.dtype);
            }
        }
        if let Ok(plan) = answer {
            let groups = rows * (count + 1);
            assert(groups >= 0) by (nonlinear_arith)
                requires
                    groups == rows * (count + 1),
                    rows >= 0,
                    count >= 0,
            ;
            lemma_grouped_count(groups);
        }
    }
}

/// A projection by the fused kernel goes to the rows asked for.
pub proof fn lemma_fused_q4_embedding_projection(
    input: TensorInfo,
    table: QuantTensor,
    start: u32,
    count: u32,
    eos: u32,
    answer: Result<Plan, Rejection>,
)
    requires
        call_ensures(
            CubeBackend::fused_q4_embedding_projection,
            (&input, &table, start, count, eos),
            answer,
        ),
    ensures
        projection_served(answer, input, table, start as int, count as int, eos as int),
{
    lemma_projection(answer, input, table, start, count, eos);
}

/// A projection goes to the rows asked for: of a four-bit table without expanding it, of a table that is
/// not quantized by dense products, and of no other.
pub proof fn lemma_embedding_projection(
    input: TensorInfo,
    table: QuantTensor,
    first: usize,
    count: usize,
    last: usize,
    answer: Result<EmbeddingPlan, Rejection>,
)
    requires
        call_ensures(embedding_projection, (&input, &table, first, count, last), answer),
    ensures
        if input.shape@.len() != 3 || table.info.shape@.len() != 2 {
            answer == Err::<EmbeddingPlan, Rejection>(Rejection::WrongRank)
        } else if is_table(table.info) {
            by_kernel(answer) matches Some(answer) && projection_served(
                answer,
                input,
                table,
                first as int % 0x1_0000_0000,
                count as int % 0x1_0000_0000,
                last as int % 0x1_0000_0000,
            )
        } else if table.info.dtype is QFloat {
            answer == Err::<EmbeddingPlan, Rejection>(Rejection::UnsupportedScheme)
        } else {
            match answer {
                Ok(EmbeddingPlan::Dense { start, end, eos, width, rows, columns }) => {
                    &&& start == first
                    &&& end == first + count
                    &&& eos == last
                    &&& width == table.info.shape@[1]
                    &&& rows == rows_of(input)
                    &&& columns == count + 1
                },
                Err(Rejection::TooLarge) => first + count > usize::MAX || last == usize::MAX || count
                    == usize::MAX || rows_of(input) > usize::MAX,
                _ => false,
            }
        },
{
    lemma_table(table.info);
    if input.shape@.len() == 3 && table.info.shape@.len() == 2 && is_table(table.info) {
        if let Some(plan) = by_kernel(answer) {
            lemma_projection(
                plan,
                input,
                table,
                (first as int % 0x1_0000_0000) as u32,
                (count as int % 0x1_0000_0000) as u32,
                (last as int % 0x1_0000_0000) as u32,
            );
        }
    }
    assert(rows_of(input) >= 0) by (nonlinear_arith)
        requires
            rows_of(input) == input.shape@[0] * input.shape@[1],
    ;
}

/// Every product of an input row and a projected row has a group of the planned launch, run with the
/// plan's own arguments: column `c` below `count` is the product with row `first + c` of the table and
/// column `count` that with row `last`, and its lanes share out the features.
pub proof fn lemma_product_projected(
    input: TensorInfo,
    table: QuantTensor,
    first: usize,
    count: usize,
    last: usize,
    plan: Plan,
    parts: QuantParts,
    start: u32,
    rows: u32,
    eos: u32,
    row: int,
    column: int,
    feature: int,
    inputs: usize,
    index: usize,
    lane: usize,
    terms: Vec<ProjectionTerm>,
)
    requires
        call_ensures(
            embedding_projection,
            (&input, &table, first, count, last),
            Ok::<EmbeddingPlan, Rejection>(EmbeddingPlan::Fused(plan)),
        ),
        first <= u32::MAX,
        count <= u32::MAX,
        last <= u32::MAX,
        table.parts == Some(parts),
        table.info.shape@[1] % 8 == 0,
        plan.kernel == (Kernel::Q4EmbeddingProjection {
            semantic_start: start,
            semantic_rows: rows,
            eos_row: eos,
        }),
        inputs == rows_of(input),
        inputs * (count + 1) < 0x1_0000_0000,
        0 <= row < inputs,
        0 <= column <= count,
        0 <= feature < table.info.shape@[1],
        index == row * (count + 1) + column,
        lane == feature % 32,
        call_ensures(
            q4_embedding_projection_unit,
            (
                index,
                lane,
                inputs,
                start as usize,
                rows as usize,
                eos as usize,
                &parts.values,
                &parts.scales,
            ),
            terms,
        ),
    ensures
        index < plan.launch.cubes,
        lane < plan.launch.threads,
        feature / 32 < terms@.len(),
        terms@[feature / 32].input == row * table.info.shape@[1] + feature,
        finds(
            terms@[feature / 32].entry,
            if column < count {
                first + column
            } else {
                last as int
            },
            feature,
            parts.values.strides@,
            parts.scales.strides@,
        ),
{
    lemma_embedding_projection(
        input,
        table,
        first,
        count,
        last,
        Ok(EmbeddingPlan::Fused(plan)),
    );
    vstd::arithmetic::div_mod::lemma_small_mod(first as nat, 0x1_0000_0000);
    vstd::arithmetic::div_mod::lemma_small_mod(count as nat, 0x1_0000_0000);
    vstd::arithmetic::div_mod::lemma_small_mod(last as nat, 0x1_0000_0000);
    let width = table.info.shape@[1] as int;
    lemma_pair(row, count + 1, column);
    lemma_pair_bound(row, inputs as int, count + 1, column);
    lemma_strided_partition(32, width, feature);
    assert(8 * parts.values.shape@[1] == width);
    assert(terms@[feature / 32].input == row * width + strided(lane as int, 32, width)[feature / 32]);
}

/// Element `(batch * positions + position) * (count + 1) + column` of a dense projection is the product
/// of that hidden row with row `first + column`, or with row `last` in the last column.
pub proof fn lemma_dense_product_projected(
    batches: usize,
    positions: usize,
    first: usize,
    count: usize,
    last: usize,
    batch: int,
    position: int,
    column: int,
    index: usize,
    element: ProjectedElement,
)
    requires
        0 <= batch < batches,
        0 <= position < positions,
        0 <= column <= count,
        index == (batch * positions + position) * (count + 1) + column,
        call_ensures(
            projected_element,
            (index, batches, positions, first, count, last),
            element,
        ),
    ensures
        element.batch == batch,
        element.position == position,
        element.table_row == (if column < count {
            first + column
        } else {
            last as int
        }),
{
    lemma_pair(batch * positions + position, count + 1, column);
    lemma_pair(batch, positions as int, position);
}

} // verus!
