//! Schemas: ordered fields, and the resolution of column names against them.

use crate::value::Row;
use vstd::prelude::*;

verus! {

/// The kind of value that a column stores.
#[derive(Clone, Copy, Debug, PartialEq, Eq, Structural)]
pub enum ColumnKind {
    Boolean,
    Int32,
    Int64,
    Float32,
    Float64,
    ByteString,
    /// Any kind of column that cannot be written.
    Unsupported,
}

/// One column of a schema.
#[derive(Debug, PartialEq, Eq)]
pub struct Field {
    pub name: String,
    pub kind: ColumnKind,
    pub nullable: bool,
}

/// The mathematical content of a [`Field`].
pub struct FieldView {
    pub name: Seq<char>,
    pub kind: ColumnKind,
    pub nullable: bool,
}

impl View for Field {
    type V = FieldView;

    open spec fn view(&self) -> FieldView {
        FieldView { name: self.name@, kind: self.kind, nullable: self.nullable }
    }
}

impl Clone for Field {
    fn clone(&self) -> (copy: Field)
        ensures
            copy@ == self@,
    {
        Field { name: self.name.clone(), kind: self.kind, nullable: self.nullable }
    }
}

/// An ordered list of fields. The position of a field is its ordinal.
#[derive(Debug, PartialEq, Eq)]
pub struct Schema {
    pub fields: Vec<Field>,
}

impl View for Schema {
    type V = Seq<FieldView>;

    open spec fn view(&self) -> Seq<FieldView> {
        Seq::new(self.fields@.len(), |i: int| self.fields@[i]@)
    }
}

/// Every row has exactly one cell per field.
pub open spec fn rows_fit(rows: Seq<Row>, fields: Seq<FieldView>) -> bool {
    forall|i: int| 0 <= i < rows.len() ==> (#[trigger] rows[i])@.len() == fields.len()
}

/// Why a column name could not be resolved.
#[derive(Clone, Copy, Debug, PartialEq, Eq, Structural)]
pub enum SchemaError {
    /// No field has the name.
    ColumnNotFound,
    /// More than one field has the name.
    AmbiguousColumn,
}

/// The predicate "this field is called `name`", by exact comparison.
pub open spec fn is_named(name: Seq<char>) -> spec_fn(FieldView) -> bool {
    |field: FieldView| field.name == name
}

/// The field at `ordinal` is called `name`, and no field before it is.
pub open spec fn is_first_named(fields: Seq<FieldView>, name: Seq<char>, ordinal: int) -> bool {
    &&& 0 <= ordinal < fields.len()
    &&& fields[ordinal].name == name
    &&& forall|j: int| 0 <= j < ordinal ==> (#[trigger] fields[j]).name != name
}

/// No field is called `name`.
pub open spec fn lacks_column(fields: Seq<FieldView>, name: Seq<char>) -> bool {
    forall|j: int| 0 <= j < fields.len() ==> (#[trigger] fields[j]).name != name
}

/// The ordinal that `name` resolves to, where some field is called `name`.
pub open spec fn ordinal_of(fields: Seq<FieldView>, name: Seq<char>) -> int {
    choose|ordinal: int| is_first_named(fields, name, ordinal)
}

/// A name resolves to at most one ordinal.
pub proof fn lemma_first_named_is_unique(
    fields: Seq<FieldView>,
    name: Seq<char>,
    first: int,
    second: int,
)
    requires
        is_first_named(fields, name, first),
    ensures
        is_first_named(fields, name, ordinal_of(fields, name)),
        is_first_named(fields, name, second) ==> second == first,
{
    if is_first_named(fields, name, second) {
        if second < first {
            assert(fields[second].name != name);
        } else if first < second {
            assert(fields[first].name != name);
        }
    }
}

/// The fields called `name` and the ordinal that `name` resolves to agree:
/// there is no such field exactly when the name does not resolve, and
/// otherwise the first of them is the field at the resolved ordinal. So the
/// column that a projection to a single name keeps is the column that the
/// name resolves to.
pub proof fn lemma_projection_keeps_resolved(fields: Seq<FieldView>, name: Seq<char>)
    ensures
        fields.filter(is_named(name)).len() == 0 <==> lacks_column(fields, name),
        fields.filter(is_named(name)).len() > 0 ==> {
            &&& is_first_named(fields, name, ordinal_of(fields, name))
            &&& fields.filter(is_named(name))[0] == fields[ordinal_of(fields, name)]
        },
    decreases fields.len(),
{
    let named = is_named(name);
    if fields.len() == 0 {
        fields.lemma_filter_len(named);
    } else {
        let shorter = fields.drop_last();
        lemma_projection_keeps_resolved(shorter, name);
        assert(fields == shorter.push(fields.last()));
        shorter.lemma_filter_push(fields.last(), named);
        if shorter.filter(named).len() > 0 {
            let first = ordinal_of(shorter, name);
            assert(fields[first] == shorter[first]);
            assert(is_first_named(fields, name, first)) by {
                assert forall|j: int| 0 <= j < first implies (#[trigger] fields[j]).name
                    != name by {
                    assert(fields[j] == shorter[j]);
                }
            }
            lemma_first_named_is_unique(fields, name, first, ordinal_of(fields, name));
        } else {
            assert forall|j: int| 0 <= j < shorter.len() implies (#[trigger] fields[j]).name
                != name by {
                assert(fields[j] == shorter[j]);
            }
            if named(fields.last()) {
                let first = fields.len() - 1;
                assert(is_first_named(fields, name, first));
                lemma_first_named_is_unique(fields, name, first, ordinal_of(fields, name));
            }
        }
    }
}

impl Schema {
    /// A schema of `fields`, in order.
    pub fn new(fields: Vec<Field>) -> (schema: Schema)
        ensures
            schema.fields == fields,
    {
        Schema { fields }
    }

    /// The number of fields.
    pub fn len(&self) -> (n: usize)
        ensures
            n == self@.len(),
    {
        self.fields.len()
    }

    /// Finds the ordinal of the column called `name`.
    ///
    /// The name must match exactly. Where several fields carry it, the first
    /// one is the answer.
    pub fn resolve_ordinal(&self, name: &String) -> (found: Result<usize, SchemaError>)
        ensures
            match found {
                Ok(ordinal) => {
                    &&& is_first_named(self@, name@, ordinal as int)
                    &&& ordinal == ordinal_of(self@, name@)
                },
                Err(error) => {
                    &&& error == SchemaError::ColumnNotFound
                    &&& lacks_column(self@, name@)
                },
            },
    {
        let mut i: usize = 0;
        while i < self.fields.len()
            invariant
                i <= self.fields.len(),
                forall|j: int| 0 <= j < i ==> (#[trigger] self@[j]).name != name@,
            decreases self.fields.len() - i,
        {
            if self.fields[i].name == *name {
                proof {
                    lemma_first_named_is_unique(self@, name@, i as int, ordinal_of(self@, name@));
                }
                return Ok(i);
            }
            i += 1;
        }
        Err(SchemaError::ColumnNotFound)
    }

    /// Builds the schema that holds only the column called `name`, with its
    /// kind and nullability unchanged.
    ///
    /// Exactly one field must carry the name.
    pub fn project_single_column(&self, name: &String) -> (projected: Result<Schema, SchemaError>)
        ensures
            match projected {
                Ok(schema) => {
                    &&& self@.filter(is_named(name@)).len() == 1
                    &&& schema@ == self@.filter(is_named(name@))
                },
                Err(SchemaError::ColumnNotFound) => self@.filter(is_named(name@)).len() == 0,
                Err(SchemaError::AmbiguousColumn) => self@.filter(is_named(name@)).len() > 1,
            },
    {
        let mut selected: Vec<Field> = Vec::new();
        let mut i: usize = 0;
        while i < self.fields.len()
            invariant
                i <= self.fields.len(),
                Seq::new(selected@.len(), |k: int| selected@[k]@) == self@.take(i as int).filter(
                    is_named(name@),
                ),
            decreases self.fields.len() - i,
        {
            proof {
                assert(self@.take(i + 1) == self@.take(i as int).push(self@[i as int]));
                self@.take(i as int).lemma_filter_push(self@[i as int], is_named(name@));
            }
            if self.fields[i].name == *name {
                selected.push(self.fields[i].clone());
            }
            i += 1;
        }
        assert(self@.take(self.fields.len() as int) == self@);
        if selected.len() == 0 {
            Err(SchemaError::ColumnNotFound)
        } else if selected.len() > 1 {
            Err(SchemaError::AmbiguousColumn)
        } else {
            Ok(Schema { fields: selected })
        }
    }
}

} // verus!
