use parquet_sampler::schema::{ColumnKind, Field, Schema, SchemaError};

fn field(name: &str, kind: ColumnKind, nullable: bool) -> Field {
    Field { name: name.to_string(), kind, nullable }
}

fn three_columns() -> Schema {
    Schema::new(vec![
        field("id", ColumnKind::Int64, false),
        field("name", ColumnKind::ByteString, true),
        field("score", ColumnKind::Float64, true),
    ])
}

#[test]
fn resolve_ordinal_finds_each_column() {
    let schema = three_columns();
    assert_eq!(schema.resolve_ordinal(&"id".to_string()), Ok(0));
    assert_eq!(schema.resolve_ordinal(&"name".to_string()), Ok(1));
    assert_eq!(schema.resolve_ordinal(&"score".to_string()), Ok(2));
}

#[test]
fn resolve_ordinal_matches_exactly() {
    let schema = three_columns();
    assert_eq!(schema.resolve_ordinal(&"i".to_string()), Err(SchemaError::ColumnNotFound));
    assert_eq!(schema.resolve_ordinal(&"ids".to_string()), Err(SchemaError::ColumnNotFound));
    assert_eq!(schema.resolve_ordinal(&"ID".to_string()), Err(SchemaError::ColumnNotFound));
    assert_eq!(schema.resolve_ordinal(&"".to_string()), Err(SchemaError::ColumnNotFound));
}

#[test]
fn resolve_ordinal_on_empty_schema() {
    let schema = Schema::new(vec![]);
    assert_eq!(schema.len(), 0);
    assert_eq!(schema.resolve_ordinal(&"id".to_string()), Err(SchemaError::ColumnNotFound));
}

#[test]
fn resolve_ordinal_takes_the_first_of_equal_names() {
    let schema = Schema::new(vec![
        field("a", ColumnKind::Int32, false),
        field("b", ColumnKind::Int32, false),
        field("b", ColumnKind::Int64, true),
    ]);
    assert_eq!(schema.resolve_ordinal(&"b".to_string()), Ok(1));
}

#[test]
fn project_single_column_keeps_kind_and_nullability() {
    let schema = three_columns();
    let projected = schema.project_single_column(&"name".to_string()).unwrap();
    assert_eq!(projected, Schema::new(vec![field("name", ColumnKind::ByteString, true)]));
    let projected = schema.project_single_column(&"id".to_string()).unwrap();
    assert_eq!(projected, Schema::new(vec![field("id", ColumnKind::Int64, false)]));
}

#[test]
fn project_single_column_fails_without_a_match() {
    let schema = three_columns();
    assert_eq!(
        schema.project_single_column(&"nam".to_string()),
        Err(SchemaError::ColumnNotFound)
    );
}

#[test]
fn project_single_column_fails_on_several_matches() {
    let schema = Schema::new(vec![
        field("k", ColumnKind::Int32, false),
        field("v", ColumnKind::Int32, false),
        field("k", ColumnKind::Int64, true),
    ]);
    assert_eq!(
        schema.project_single_column(&"k".to_string()),
        Err(SchemaError::AmbiguousColumn)
    );
    assert_eq!(schema.project_single_column(&"v".to_string()).unwrap().len(), 1);
}

#[test]
fn field_clone_is_equal() {
    let score = field("score", ColumnKind::Float64, true);
    assert_eq!(score.clone(), score);
}
