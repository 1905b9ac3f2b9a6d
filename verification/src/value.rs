//! Values and rows: the data that scans produce and the writer consumes.

use vstd::prelude::*;

verus! {

/// One cell of a row.
///
/// Floating-point cells are carried as their IEEE 754 bit patterns, so that
/// two cells are the same value exactly when they are the same bits.
#[derive(Debug, PartialEq, Eq)]
pub enum Value {
    /// No value: the cell of a nullable field that is absent in this row.
    Missing,
    Boolean(bool),
    Int32(i32),
    Int64(i64),
    /// The bits of a 32-bit float.
    Float32(u32),
    /// The bits of a 64-bit float.
    Float64(u64),
    ByteString(Vec<u8>),
}

/// The mathematical content of a [`Value`].
pub enum ValueView {
    Missing,
    Boolean(bool),
    Int32(i32),
    Int64(i64),
    Float32(u32),
    Float64(u64),
    ByteString(Seq<u8>),
}

impl View for Value {
    type V = ValueView;

    open spec fn view(&self) -> ValueView {
        match *self {
            Value::Missing => ValueView::Missing,
            Value::Boolean(b) => ValueView::Boolean(b),
            Value::Int32(n) => ValueView::Int32(n),
            Value::Int64(n) => ValueView::Int64(n),
            Value::Float32(bits) => ValueView::Float32(bits),
            Value::Float64(bits) => ValueView::Float64(bits),
            Value::ByteString(bytes) => ValueView::ByteString(bytes@),
        }
    }
}

/// Copies a byte string element by element.
pub fn copy_bytes(bytes: &Vec<u8>) -> (copy: Vec<u8>)
    ensures
        copy@ == bytes@,
{
    let mut copy: Vec<u8> = Vec::with_capacity(bytes.len());
    let mut i: usize = 0;
    while i < bytes.len()
        invariant
            i <= bytes.len(),
            copy@ == bytes@.take(i as int),
        decreases bytes.len() - i,
    {
        copy.push(bytes[i]);
        assert(bytes@.take(i + 1) == bytes@.take(i as int).push(bytes@[i as int]));
        i += 1;
    }
    assert(bytes@.take(bytes.len() as int) == bytes@);
    copy
}

impl Clone for Value {
    fn clone(&self) -> (copy: Value)
        ensures
            copy@ == self@,
    {
        match self {
            Value::Missing => Value::Missing,
            Value::Boolean(b) => Value::Boolean(*b),
            Value::Int32(n) => Value::Int32(*n),
            Value::Int64(n) => Value::Int64(*n),
            Value::Float32(bits) => Value::Float32(*bits),
            Value::Float64(bits) => Value::Float64(*bits),
            Value::ByteString(bytes) => Value::ByteString(copy_bytes(bytes)),
        }
    }
}

/// An ordered tuple of values, one per field of the schema it was read under.
#[derive(Debug, PartialEq, Eq)]
pub struct Row {
    pub values: Vec<Value>,
}

impl View for Row {
    type V = Seq<ValueView>;

    open spec fn view(&self) -> Seq<ValueView> {
        Seq::new(self.values@.len(), |i: int| self.values@[i]@)
    }
}

impl Clone for Row {
    fn clone(&self) -> (copy: Row)
        ensures
            copy@ == self@,
    {
        let mut values: Vec<Value> = Vec::with_capacity(self.values.len());
        let mut i: usize = 0;
        while i < self.values.len()
            invariant
                i <= self.values.len(),
                values@.len() == i,
                forall|k: int| 0 <= k < i ==> (#[trigger] values@[k])@ == self.values@[k]@,
            decreases self.values.len() - i,
        {
            values.push(self.values[i].clone());
            i += 1;
        }
        let copy = Row { values };
        assert(copy@ =~= self@);
        copy
    }
}

impl Row {
    /// A row holding `values` in order.
    pub fn new(values: Vec<Value>) -> (row: Row)
        ensures
            row.values == values,
    {
        Row { values }
    }

    /// The number of values in the row.
    pub fn len(&self) -> (n: usize)
        ensures
            n == self@.len(),
    {
        self.values.len()
    }

    /// The value at `ordinal`.
    pub fn get(&self, ordinal: usize) -> (value: &Value)
        requires
            ordinal < self@.len(),
        ensures
            value@ == self@[ordinal as int],
    {
        &self.values[ordinal]
    }
}

/// The views of the rows of a table, in scan order.
pub open spec fn rows_view(rows: Seq<Row>) -> Seq<Seq<ValueView>> {
    Seq::new(rows.len(), |i: int| rows[i]@)
}

/// Every row has a cell at `ordinal`.
pub open spec fn rows_reach(rows: Seq<Row>, ordinal: int) -> bool {
    forall|i: int| 0 <= i < rows.len() ==> ordinal < (#[trigger] rows[i])@.len()
}

/// The cells of the column at `ordinal`, one per row, in row order.
pub open spec fn column_cells(table: Seq<Seq<ValueView>>, ordinal: int) -> Seq<ValueView> {
    Seq::new(table.len(), |i: int| table[i][ordinal])
}

} // verus!
