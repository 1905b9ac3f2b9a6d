//! The row writer: turns materialized rows into one typed batch per column,
//! each with the definition levels that mark which rows hold a value.

use crate::schema::{rows_fit, ColumnKind, FieldView, Schema};
use crate::value::{column_cells, copy_bytes, rows_reach, rows_view, Row, Value, ValueView};
use vstd::prelude::*;

verus! {

/// Why rows could not be laid out for writing.
#[derive(Clone, Copy, Debug, PartialEq, Eq, Structural)]
pub enum WriteError {
    /// The field at `ordinal` is of a kind that cannot be written.
    UnsupportedType { ordinal: usize },
}

/// The present values of one column, in row order, in the column's own type.
#[derive(Debug, PartialEq, Eq)]
pub enum ColumnValues {
    Boolean(Vec<bool>),
    Int32(Vec<i32>),
    Int64(Vec<i64>),
    /// The bits of each 32-bit float.
    Float32(Vec<u32>),
    /// The bits of each 64-bit float.
    Float64(Vec<u64>),
    ByteString(Vec<Vec<u8>>),
}

impl ColumnValues {
    /// The kind of column that these values belong to.
    pub open spec fn kind(&self) -> ColumnKind {
        match *self {
            ColumnValues::Boolean(_) => ColumnKind::Boolean,
            ColumnValues::Int32(_) => ColumnKind::Int32,
            ColumnValues::Int64(_) => ColumnKind::Int64,
            ColumnValues::Float32(_) => ColumnKind::Float32,
            ColumnValues::Float64(_) => ColumnKind::Float64,
            ColumnValues::ByteString(_) => ColumnKind::ByteString,
        }
    }
}

impl View for ColumnValues {
    type V = Seq<ValueView>;

    /// The values as cells, each tagged with the column's kind.
    open spec fn view(&self) -> Seq<ValueView> {
        match *self {
            ColumnValues::Boolean(items) => Seq::new(
                items@.len(),
                |k: int| ValueView::Boolean(items@[k]),
            ),
            ColumnValues::Int32(items) => Seq::new(
                items@.len(),
                |k: int| ValueView::Int32(items@[k]),
            ),
            ColumnValues::Int64(items) => Seq::new(
                items@.len(),
                |k: int| ValueView::Int64(items@[k]),
            ),
            ColumnValues::Float32(items) => Seq::new(
                items@.len(),
                |k: int| ValueView::Float32(items@[k]),
            ),
            ColumnValues::Float64(items) => Seq::new(
                items@.len(),
                |k: int| ValueView::Float64(items@[k]),
            ),
            ColumnValues::ByteString(items) => Seq::new(
                items@.len(),
                |k: int| ValueView::ByteString(items@[k]@),
            ),
        }
    }
}

/// What is handed to the column writer for one field.
#[derive(Debug, PartialEq, Eq)]
pub struct ColumnBatch {
    /// The present values, in row order.
    pub values: ColumnValues,
    /// One entry per row: 1 where the row holds a value, 0 where it does not.
    pub def_levels: Vec<i16>,
}

/// The mathematical content of a [`ColumnBatch`].
pub struct ColumnBatchView {
    pub kind: ColumnKind,
    pub values: Seq<ValueView>,
    pub def_levels: Seq<i16>,
}

impl View for ColumnBatch {
    type V = ColumnBatchView;

    open spec fn view(&self) -> ColumnBatchView {
        ColumnBatchView {
            kind: self.values.kind(),
            values: self.values@,
            def_levels: self.def_levels@,
        }
    }
}

/// Whether `cell` holds a value of the kind `kind`.
///
/// A missing cell is of no kind, and no cell is of the unsupported kind.
pub open spec fn has_kind(cell: ValueView, kind: ColumnKind) -> bool {
    match kind {
        ColumnKind::Boolean => cell is Boolean,
        ColumnKind::Int32 => cell is Int32,
        ColumnKind::Int64 => cell is Int64,
        ColumnKind::Float32 => cell is Float32,
        ColumnKind::Float64 => cell is Float64,
        ColumnKind::ByteString => cell is ByteString,
        ColumnKind::Unsupported => false,
    }
}

/// The predicate "this cell holds a value of the kind `kind`".
pub open spec fn of_kind(kind: ColumnKind) -> spec_fn(ValueView) -> bool {
    |cell: ValueView| has_kind(cell, kind)
}

/// The definition level of a cell in a column of the kind `kind`.
pub open spec fn definition_level(cell: ValueView, kind: ColumnKind) -> i16 {
    if has_kind(cell, kind) {
        1
    } else {
        0
    }
}

/// The batch for a column of the kind `kind` whose cells are `cells`: one
/// definition level per cell, and the cells that hold a value of that kind.
pub open spec fn column_batch(cells: Seq<ValueView>, kind: ColumnKind) -> ColumnBatchView {
    ColumnBatchView {
        kind,
        values: cells.filter(of_kind(kind)),
        def_levels: Seq::new(cells.len(), |i: int| definition_level(cells[i], kind)),
    }
}

/// Every field is of a kind that can be written.
pub open spec fn all_supported(fields: Seq<FieldView>) -> bool {
    forall|j: int| 0 <= j < fields.len() ==> (#[trigger] fields[j]).kind != ColumnKind::Unsupported
}

/// The field at `ordinal` cannot be written, and every field before it can.
pub open spec fn is_first_unsupported(fields: Seq<FieldView>, ordinal: int) -> bool {
    &&& 0 <= ordinal < fields.len()
    &&& fields[ordinal].kind == ColumnKind::Unsupported
    &&& forall|j: int| 0 <= j < ordinal ==> (#[trigger] fields[j]).kind != ColumnKind::Unsupported
}

/// Extending the rows seen so far by one row extends the batch by that row's
/// definition level, and by its cell where the cell holds a value.
proof fn lemma_batch_step(cells: Seq<ValueView>, i: int, kind: ColumnKind)
    requires
        0 <= i < cells.len(),
    ensures
        column_batch(cells.take(i + 1), kind).def_levels == column_batch(
            cells.take(i),
            kind,
        ).def_levels.push(definition_level(cells[i], kind)),
        has_kind(cells[i], kind) ==> column_batch(cells.take(i + 1), kind).values == column_batch(
            cells.take(i),
            kind,
        ).values.push(cells[i]),
        !has_kind(cells[i], kind) ==> column_batch(cells.take(i + 1), kind).values == column_batch(
            cells.take(i),
            kind,
        ).values,
{
    assert(cells.take(i + 1) == cells.take(i).push(cells[i]));
    cells.take(i).lemma_filter_push(cells[i], of_kind(kind));
}

/// Lays out a column of booleans.
fn collect_booleans(rows: &Vec<Row>, ordinal: usize) -> (batch: ColumnBatch)
    requires
        rows_reach(rows@, ordinal as int),
    ensures
        batch@ == column_batch(column_cells(rows_view(rows@), ordinal as int), ColumnKind::Boolean),
{
    let ghost cells = column_cells(rows_view(rows@), ordinal as int);
    let mut items: Vec<bool> = Vec::with_capacity(rows.len());
    let mut def_levels: Vec<i16> = Vec::with_capacity(rows.len());
    let mut i: usize = 0;
    while i < rows.len()
        invariant
            i <= rows.len(),
            rows_reach(rows@, ordinal as int),
            cells == column_cells(rows_view(rows@), ordinal as int),
            def_levels@ =~= column_batch(cells.take(i as int), ColumnKind::Boolean).def_levels,
            ColumnValues::Boolean(items)@ =~= column_batch(
                cells.take(i as int),
                ColumnKind::Boolean,
            ).values,
        decreases rows.len() - i,
    {
        proof {
            lemma_batch_step(cells, i as int, ColumnKind::Boolean);
        }
        match rows[i].get(ordinal) {
            Value::Boolean(item) => {
                items.push(*item);
                def_levels.push(1);
            },
            _ => {
                def_levels.push(0);
            },
        }
        i += 1;
    }
    assert(cells.take(rows.len() as int) == cells);
    ColumnBatch { values: ColumnValues::Boolean(items), def_levels }
}

/// Lays out a column of 32-bit integers.
fn collect_int32s(rows: &Vec<Row>, ordinal: usize) -> (batch: ColumnBatch)
    requires
        rows_reach(rows@, ordinal as int),
    ensures
        batch@ == column_batch(column_cells(rows_view(rows@), ordinal as int), ColumnKind::Int32),
{
    let ghost cells = column_cells(rows_view(rows@), ordinal as int);
    let mut items: Vec<i32> = Vec::with_capacity(rows.len());
    let mut def_levels: Vec<i16> = Vec::with_capacity(rows.len());
    let mut i: usize = 0;
    while i < rows.len()
        invariant
            i <= rows.len(),
            rows_reach(rows@, ordinal as int),
            cells == column_cells(rows_view(rows@), ordinal as int),
            def_levels@ =~= column_batch(cells.take(i as int), ColumnKind::Int32).def_levels,
            ColumnValues::Int32(items)@ =~= column_batch(
                cells.take(i as int),
                ColumnKind::Int32,
            ).values,
        decreases rows.len() - i,
    {
        proof {
            lemma_batch_step(cells, i as int, ColumnKind::Int32);
        }
        match rows[i].get(ordinal) {
            Value::Int32(item) => {
                items.push(*item);
                def_levels.push(1);
            },
            _ => {
                def_levels.push(0);
            },
        }
        i += 1;
    }
    assert(cells.take(rows.len() as int) == cells);
    ColumnBatch { values: ColumnValues::Int32(items), def_levels }
}

/// Lays out a column of 64-bit integers.
fn collect_int64s(rows: &Vec<Row>, ordinal: usize) -> (batch: ColumnBatch)
    requires
        rows_reach(rows@, ordinal as int),
    ensures
        batch@ == column_batch(column_cells(rows_view(rows@), ordinal as int), ColumnKind::Int64),
{
    let ghost cells = column_cells(rows_view(rows@), ordinal as int);
    let mut items: Vec<i64> = Vec::with_capacity(rows.len());
    let mut def_levels: Vec<i16> = Vec::with_capacity(rows.len());
    let mut i: usize = 0;
    while i < rows.len()
        invariant
            i <= rows.len(),
            rows_reach(rows@, ordinal as int),
            cells == column_cells(rows_view(rows@), ordinal as int),
            def_levels@ =~= column_batch(cells.take(i as int), ColumnKind::Int64).def_levels,
            ColumnValues::Int64(items)@ =~= column_batch(
                cells.take(i as int),
                ColumnKind::Int64,
            ).values,
        decreases rows.len() - i,
    {
        proof {
            lemma_batch_step(cells, i as int, ColumnKind::Int64);
        }
        match rows[i].get(ordinal) {
            Value::Int64(item) => {
                items.push(*item);
                def_levels.push(1);
            },
            _ => {
                def_levels.push(0);
            },
        }
        i += 1;
    }
    assert(cells.take(rows.len() as int) == cells);
    ColumnBatch { values: ColumnValues::Int64(items), def_levels }
}

/// Lays out a column of 32-bit floats, each as its bits.
fn collect_float32s(rows: &Vec<Row>, ordinal: usize) -> (batch: ColumnBatch)
    requires
        rows_reach(rows@, ordinal as int),
    ensures
        batch@ == column_batch(column_cells(rows_view(rows@), ordinal as int), ColumnKind::Float32),
{
    let ghost cells = column_cells(rows_view(rows@), ordinal as int);
    let mut items: Vec<u32> = Vec::with_capacity(rows.len());
    let mut def_levels: Vec<i16> = Vec::with_capacity(rows.len());
    let mut i: usize = 0;
    while i < rows.len()
        invariant
            i <= rows.len(),
            rows_reach(rows@, ordinal as int),
            cells == column_cells(rows_view(rows@), ordinal as int),
            def_levels@ =~= column_batch(cells.take(i as int), ColumnKind::Float32).def_levels,
            ColumnValues::Float32(items)@ =~= column_batch(
                cells.take(i as int),
                ColumnKind::Float32,
            ).values,
        decreases rows.len() - i,
    {
        proof {
            lemma_batch_step(cells, i as int, ColumnKind::Float32);
        }
        match rows[i].get(ordinal) {
            Value::Float32(item) => {
                items.push(*item);
                def_levels.push(1);
            },
            _ => {
                def_levels.push(0);
            },
        }
        i += 1;
    }
    assert(cells.take(rows.len() as int) == cells);
    ColumnBatch { values: ColumnValues::Float32(items), def_levels }
}

/// Lays out a column of 64-bit floats, each as its bits.
fn collect_float64s(rows: &Vec<Row>, ordinal: usize) -> (batch: ColumnBatch)
    requires
        rows_reach(rows@, ordinal as int),
    ensures
        batch@ == column_batch(column_cells(rows_view(rows@), ordinal as int), ColumnKind::Float64),
{
    let ghost cells = column_cells(rows_view(rows@), ordinal as int);
    let mut items: Vec<u64> = Vec::with_capacity(rows.len());
    let mut def_levels: Vec<i16> = Vec::with_capacity(rows.len());
    let mut i: usize = 0;
    while i < rows.len()
        invariant
            i <= rows.len(),
            rows_reach(rows@, ordinal as int),
            cells == column_cells(rows_view(rows@), ordinal as int),
            def_levels@ =~= column_batch(cells.take(i as int), ColumnKind::Float64).def_levels,
            ColumnValues::Float64(items)@ =~= column_batch(
                cells.take(i as int),
                ColumnKind::Float64,
            ).values,
        decreases rows.len() - i,
    {
        proof {
            lemma_batch_step(cells, i as int, ColumnKind::Float64);
        }
        match rows[i].get(ordinal) {
            Value::Float64(item) => {
                items.push(*item);
                def_levels.push(1);
            },
            _ => {
                def_levels.push(0);
            },
        }
        i += 1;
    }
    assert(cells.take(rows.len() as int) == cells);
    ColumnBatch { values: ColumnValues::Float64(items), def_levels }
}

/// Lays out a column of byte strings.
fn collect_byte_strings(rows: &Vec<Row>, ordinal: usize) -> (batch: ColumnBatch)
    requires
        rows_reach(rows@, ordinal as int),
    ensures
        batch@ == column_batch(
            column_cells(rows_view(rows@), ordinal as int),
            ColumnKind::ByteString,
        ),
{
    let ghost cells = column_cells(rows_view(rows@), ordinal as int);
    let mut items: Vec<Vec<u8>> = Vec::with_capacity(rows.len());
    let mut def_levels: Vec<i16> = Vec::with_capacity(rows.len());
    let mut i: usize = 0;
    while i < rows.len()
        invariant
            i <= rows.len(),
            rows_reach(rows@, ordinal as int),
            cells == column_cells(rows_view(rows@), ordinal as int),
            def_levels@ =~= column_batch(cells.take(i as int), ColumnKind::ByteString).def_levels,
            ColumnValues::ByteString(items)@ =~= column_batch(
                cells.take(i as int),
                ColumnKind::ByteString,
            ).values,
        decreases rows.len() - i,
    {
        proof {
            lemma_batch_step(cells, i as int, ColumnKind::ByteString);
        }
        match rows[i].get(ordinal) {
            Value::ByteString(item) => {
                items.push(copy_bytes(item));
                def_levels.push(1);
            },
            _ => {
                def_levels.push(0);
            },
        }
        i += 1;
    }
    assert(cells.take(rows.len() as int) == cells);
    ColumnBatch { values: ColumnValues::ByteString(items), def_levels }
}

/// Lays out the column at `ordinal` as a batch of the kind `kind`.
///
/// A row holds a value for the column where its cell at `ordinal` is of that
/// kind: such a cell goes into the batch with definition level 1. Every other
/// cell gets definition level 0 and adds no value. A column of the unsupported
/// kind is refused.
pub fn build_column(rows: &Vec<Row>, ordinal: usize, kind: ColumnKind) -> (built: Result<
    ColumnBatch,
    WriteError,
>)
    requires
        rows_reach(rows@, ordinal as int),
    ensures
        match built {
            Ok(batch) => {
                &&& kind != ColumnKind::Unsupported
                &&& batch@ == column_batch(column_cells(rows_view(rows@), ordinal as int), kind)
            },
            Err(error) => {
                &&& kind == ColumnKind::Unsupported
                &&& error == (WriteError::UnsupportedType { ordinal })
            },
        },
{
    match kind {
        ColumnKind::Boolean => Ok(collect_booleans(rows, ordinal)),
        ColumnKind::Int32 => Ok(collect_int32s(rows, ordinal)),
        ColumnKind::Int64 => Ok(collect_int64s(rows, ordinal)),
        ColumnKind::Float32 => Ok(collect_float32s(rows, ordinal)),
        ColumnKind::Float64 => Ok(collect_float64s(rows, ordinal)),
        ColumnKind::ByteString => Ok(collect_byte_strings(rows, ordinal)),
        ColumnKind::Unsupported => Err(WriteError::UnsupportedType { ordinal }),
    }
}

/// Finds the first field that cannot be written.
fn find_unsupported(schema: &Schema) -> (found: Option<usize>)
    ensures
        match found {
            Some(ordinal) => is_first_unsupported(schema@, ordinal as int),
            None => all_supported(schema@),
        },
{
    let mut j: usize = 0;
    while j < schema.fields.len()
        invariant
            j <= schema.fields.len(),
            forall|k: int| 0 <= k < j ==> (#[trigger] schema@[k]).kind != ColumnKind::Unsupported,
        decreases schema.fields.len() - j,
    {
        match schema.fields[j].kind {
            ColumnKind::Unsupported => {
                return Some(j);
            },
            _ => {},
        }
        j += 1;
    }
    None
}

/// Lays out `rows` for writing under `schema`: one batch per field, in the
/// order of the fields, all of them for a single row group.
///
/// The kinds of all fields are checked before any column is laid out, so a
/// schema with a field that cannot be written yields no batch at all, and the
/// error names the first such field.
pub fn write_output(rows: &Vec<Row>, schema: &Schema) -> (written: Result<
    Vec<ColumnBatch>,
    WriteError,
>)
    requires
        rows_fit(rows@, schema@),
    ensures
        match written {
            Ok(batches) => {
                &&& all_supported(schema@)
                &&& batches@.len() == schema@.len()
                &&& forall|j: int|
                    0 <= j < schema@.len() ==> (#[trigger] batches@[j])@ == column_batch(
                        column_cells(rows_view(rows@), j),
                        schema@[j].kind,
                    )
            },
            Err(WriteError::UnsupportedType { ordinal }) => is_first_unsupported(
                schema@,
                ordinal as int,
            ),
        },
{
    if let Some(ordinal) = find_unsupported(schema) {
        return Err(WriteError::UnsupportedType { ordinal });
    }
    let mut batches: Vec<ColumnBatch> = Vec::with_capacity(schema.fields.len());
    let mut j: usize = 0;
    while j < schema.fields.len()
        invariant
            j <= schema.fields.len(),
            rows_fit(rows@, schema@),
            all_supported(schema@),
            batches@.len() == j,
            forall|k: int|
                0 <= k < j ==> (#[trigger] batches@[k])@ == column_batch(
                    column_cells(rows_view(rows@), k),
                    schema@[k].kind,
                ),
        decreases schema.fields.len() - j,
    {
        assert(schema@[j as int].kind != ColumnKind::Unsupported);
        match build_column(rows, j, schema.fields[j].kind) {
            Ok(batch) => {
                batches.push(batch);
            },
            Err(error) => {
                return Err(error);
            },
        }
        j += 1;
    }
    Ok(batches)
}

/// How many of the first `count` definition levels mark a value as present.
pub open spec fn present_before(def_levels: Seq<i16>, count: int) -> int
    decreases count,
{
    if count <= 0 {
        0
    } else {
        present_before(def_levels, count - 1) + if def_levels[count - 1] == 1 {
            1int
        } else {
            0int
        }
    }
}

/// The cell that a batch holds for the row at `row`: the next value of the
/// batch where the definition level says that the row has one, and a missing
/// cell where it does not.
pub open spec fn cell_at(batch: ColumnBatchView, row: int) -> ValueView {
    if batch.def_levels[row] == 1 {
        batch.values[present_before(batch.def_levels, row)]
    } else {
        ValueView::Missing
    }
}

/// Every cell is missing or holds a value of the kind `kind`.
pub open spec fn cells_conform(cells: Seq<ValueView>, kind: ColumnKind) -> bool {
    forall|i: int|
        0 <= i < cells.len() ==> (#[trigger] cells[i]) is Missing || has_kind(cells[i], kind)
}

/// The values laid out for the first `count` cells are as many as their
/// definition levels mark present, and each present cell stands at the place
/// that the levels before it give.
proof fn lemma_prefix_values(cells: Seq<ValueView>, kind: ColumnKind, count: int)
    requires
        0 <= count <= cells.len(),
    ensures
        cells.take(count).filter(of_kind(kind)).len() == present_before(
            column_batch(cells, kind).def_levels,
            count,
        ),
        forall|j: int|
            0 <= j < count && has_kind(#[trigger] cells[j], kind) ==> {
                let place = present_before(column_batch(cells, kind).def_levels, j);
                &&& 0 <= place < cells.take(count).filter(of_kind(kind)).len()
                &&& cells.take(count).filter(of_kind(kind))[place] == cells[j]
            },
    decreases count,
{
    let levels = column_batch(cells, kind).def_levels;
    if count == 0 {
        assert(cells.take(0).filter(of_kind(kind)).len() == 0) by {
            cells.take(0).lemma_filter_len(of_kind(kind));
        }
    } else {
        lemma_prefix_values(cells, kind, count - 1);
        lemma_batch_step(cells, count - 1, kind);
        let shorter = cells.take(count - 1).filter(of_kind(kind));
        let longer = cells.take(count).filter(of_kind(kind));
        assert(levels[count - 1] == definition_level(cells[count - 1], kind));
        assert forall|j: int| 0 <= j < count && has_kind(#[trigger] cells[j], kind) implies {
            let place = present_before(levels, j);
            &&& 0 <= place < longer.len()
            &&& longer[place] == cells[j]
        } by {
            if j < count - 1 {
                assert(shorter[present_before(levels, j)] == cells[j]);
            }
        }
    }
}

/// Reading a batch back row by row restores the column it was laid out from:
/// the same values at the same rows, and a missing cell wherever the column
/// had none. Nothing is lost between the rows and what the column writer
/// is handed.
pub proof fn lemma_batch_restores_cells(cells: Seq<ValueView>, kind: ColumnKind)
    requires
        cells_conform(cells, kind),
    ensures
        column_batch(cells, kind).def_levels.len() == cells.len(),
        column_batch(cells, kind).values.len() == present_before(
            column_batch(cells, kind).def_levels,
            cells.len() as int,
        ),
        forall|row: int|
            0 <= row < cells.len() ==> cell_at(column_batch(cells, kind), row)
                == #[trigger] cells[row],
{
    lemma_prefix_values(cells, kind, cells.len() as int);
    assert(cells.take(cells.len() as int) == cells);
}

} // verus!
