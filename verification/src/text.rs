//! The canonical text of a value: the form in which join keys are compared.

use crate::value::{Value, ValueView};
use parquet::data_type::{ByteArray, DataType, DoubleType, FloatType};
use parquet::record::Field;
use vstd::prelude::*;

verus! {

/// The text that the columnar codec prints for a cell.
///
/// Two cells are the same join key exactly when they have the same text. The
/// text depends on nothing but the cell, so equal cells always have equal
/// texts; cells of different kinds may share a text, and do so where the
/// codec prints them alike.
pub uninterp spec fn canonical_text(cell: ValueView) -> Seq<char>;

/// Prints `value` as the codec does.
///
/// Trusted: calls `to_string` of `parquet::record::Field`, that is its
/// `Display`, on the codec's form of the value (`Null`, `Bool`, `Int`, `Long`,
/// `Float`, `Double` or `Bytes`). The contract claims only that the text is a
/// function of the value; `Display` for these variants formats the payload
/// and reads nothing else.
#[verifier::external_body]
pub(crate) fn print_value(value: &Value) -> (text: String)
    ensures
        text@ == canonical_text(value@),
{
    let field = match value {
        Value::Missing => Field::Null,
        Value::Boolean(b) => Field::Bool(*b),
        Value::Int32(n) => Field::Int(*n),
        Value::Int64(n) => Field::Long(*n),
        Value::Float32(bits) => Field::Float(<<FloatType as DataType>::T>::from_bits(*bits)),
        Value::Float64(bits) => Field::Double(<<DoubleType as DataType>::T>::from_bits(*bits)),
        Value::ByteString(bytes) => Field::Bytes(ByteArray::from(bytes.clone())),
    };
    field.to_string()
}

} // verus!
