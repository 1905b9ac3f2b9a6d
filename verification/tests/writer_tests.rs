use parquet_sampler::schema::{ColumnKind, Field, Schema};
use parquet_sampler::value::{Row, Value};
use parquet_sampler::writer::{build_column, write_output, ColumnBatch, ColumnValues, WriteError};

fn field(name: &str, kind: ColumnKind, nullable: bool) -> Field {
    Field { name: name.to_string(), kind, nullable }
}

fn column(cells: Vec<Value>) -> Vec<Row> {
    cells.into_iter().map(|cell| Row::new(vec![cell])).collect()
}

#[test]
fn booleans_with_a_missing_cell() {
    let rows = column(vec![Value::Boolean(true), Value::Missing, Value::Boolean(false)]);
    let batch = build_column(&rows, 0, ColumnKind::Boolean).unwrap();
    assert_eq!(
        batch,
        ColumnBatch { values: ColumnValues::Boolean(vec![true, false]), def_levels: vec![1, 0, 1] }
    );
}

#[test]
fn int32s_in_row_order() {
    let rows = column(vec![Value::Int32(7), Value::Int32(-3), Value::Missing, Value::Int32(0)]);
    let batch = build_column(&rows, 0, ColumnKind::Int32).unwrap();
    assert_eq!(
        batch,
        ColumnBatch { values: ColumnValues::Int32(vec![7, -3, 0]), def_levels: vec![1, 1, 0, 1] }
    );
}

#[test]
fn int64s_in_row_order() {
    let rows = column(vec![Value::Missing, Value::Int64(i64::MAX), Value::Int64(i64::MIN)]);
    let batch = build_column(&rows, 0, ColumnKind::Int64).unwrap();
    assert_eq!(
        batch,
        ColumnBatch {
            values: ColumnValues::Int64(vec![i64::MAX, i64::MIN]),
            def_levels: vec![0, 1, 1],
        }
    );
}

#[test]
fn float32s_keep_their_bits() {
    let nan = f32::NAN.to_bits();
    let rows = column(vec![
        Value::Float32(1.5f32.to_bits()),
        Value::Float32((-0.0f32).to_bits()),
        Value::Missing,
        Value::Float32(nan),
    ]);
    let batch = build_column(&rows, 0, ColumnKind::Float32).unwrap();
    assert_eq!(
        batch,
        ColumnBatch {
            values: ColumnValues::Float32(vec![0x3fc0_0000, 0x8000_0000, nan]),
            def_levels: vec![1, 1, 0, 1],
        }
    );
}

#[test]
fn float64s_keep_their_bits() {
    let rows = column(vec![Value::Missing, Value::Float64(2.0f64.to_bits()), Value::Missing]);
    let batch = build_column(&rows, 0, ColumnKind::Float64).unwrap();
    assert_eq!(
        batch,
        ColumnBatch {
            values: ColumnValues::Float64(vec![0x4000_0000_0000_0000]),
            def_levels: vec![0, 1, 0],
        }
    );
}

#[test]
fn byte_strings_are_copied() {
    let rows = column(vec![
        Value::ByteString(b"ab".to_vec()),
        Value::ByteString(vec![]),
        Value::Missing,
        Value::ByteString(vec![0xff, 0x00]),
    ]);
    let batch = build_column(&rows, 0, ColumnKind::ByteString).unwrap();
    assert_eq!(
        batch,
        ColumnBatch {
            values: ColumnValues::ByteString(vec![b"ab".to_vec(), vec![], vec![0xff, 0x00]]),
            def_levels: vec![1, 1, 0, 1],
        }
    );
}

#[test]
fn a_cell_of_another_kind_counts_as_absent() {
    let rows =
        column(vec![Value::Int32(1), Value::Int64(2), Value::Boolean(true), Value::Int32(4)]);
    let batch = build_column(&rows, 0, ColumnKind::Int32).unwrap();
    assert_eq!(
        batch,
        ColumnBatch { values: ColumnValues::Int32(vec![1, 4]), def_levels: vec![1, 0, 0, 1] }
    );
}

#[test]
fn a_column_without_rows_is_an_empty_batch() {
    let rows: Vec<Row> = vec![];
    let batch = build_column(&rows, 3, ColumnKind::Int64).unwrap();
    assert_eq!(batch, ColumnBatch { values: ColumnValues::Int64(vec![]), def_levels: vec![] });
}

#[test]
fn a_column_of_missing_cells_has_no_values() {
    let rows = column(vec![Value::Missing, Value::Missing]);
    let batch = build_column(&rows, 0, ColumnKind::ByteString).unwrap();
    assert_eq!(
        batch,
        ColumnBatch { values: ColumnValues::ByteString(vec![]), def_levels: vec![0, 0] }
    );
}

#[test]
fn build_column_reads_the_given_ordinal() {
    let rows = vec![
        Row::new(vec![Value::Int32(1), Value::Boolean(true)]),
        Row::new(vec![Value::Int32(2), Value::Missing]),
    ];
    assert_eq!(
        build_column(&rows, 1, ColumnKind::Boolean).unwrap(),
        ColumnBatch { values: ColumnValues::Boolean(vec![true]), def_levels: vec![1, 0] }
    );
    assert_eq!(
        build_column(&rows, 0, ColumnKind::Int32).unwrap(),
        ColumnBatch { values: ColumnValues::Int32(vec![1, 2]), def_levels: vec![1, 1] }
    );
}

#[test]
fn build_column_refuses_an_unsupported_kind() {
    let rows = column(vec![Value::Int32(1)]);
    assert_eq!(
        build_column(&rows, 0, ColumnKind::Unsupported),
        Err(WriteError::UnsupportedType { ordinal: 0 })
    );
    let rows: Vec<Row> = vec![];
    assert_eq!(
        build_column(&rows, 5, ColumnKind::Unsupported),
        Err(WriteError::UnsupportedType { ordinal: 5 })
    );
}

#[test]
fn write_output_lays_out_one_batch_per_field() {
    let schema = Schema::new(vec![
        field("id", ColumnKind::Int64, false),
        field("tag", ColumnKind::ByteString, true),
        field("ok", ColumnKind::Boolean, true),
    ]);
    let rows = vec![
        Row::new(vec![Value::Int64(10), Value::ByteString(b"x".to_vec()), Value::Missing]),
        Row::new(vec![Value::Int64(20), Value::Missing, Value::Boolean(false)]),
        Row::new(vec![Value::Int64(30), Value::ByteString(b"yz".to_vec()), Value::Boolean(true)]),
    ];
    let batches = write_output(&rows, &schema).unwrap();
    assert_eq!(
        batches,
        vec![
            ColumnBatch {
                values: ColumnValues::Int64(vec![10, 20, 30]),
                def_levels: vec![1, 1, 1],
            },
            ColumnBatch {
                values: ColumnValues::ByteString(vec![b"x".to_vec(), b"yz".to_vec()]),
                def_levels: vec![1, 0, 1],
            },
            ColumnBatch {
                values: ColumnValues::Boolean(vec![false, true]),
                def_levels: vec![0, 1, 1],
            },
        ]
    );
}

#[test]
fn write_output_of_no_rows_has_empty_batches() {
    let schema = Schema::new(vec![
        field("a", ColumnKind::Int32, false),
        field("b", ColumnKind::Float32, true),
    ]);
    let batches = write_output(&vec![], &schema).unwrap();
    assert_eq!(
        batches,
        vec![
            ColumnBatch { values: ColumnValues::Int32(vec![]), def_levels: vec![] },
            ColumnBatch { values: ColumnValues::Float32(vec![]), def_levels: vec![] },
        ]
    );
}

#[test]
fn write_output_of_no_fields_has_no_batches() {
    let schema = Schema::new(vec![]);
    let rows = vec![Row::new(vec![]), Row::new(vec![])];
    assert_eq!(write_output(&rows, &schema), Ok(vec![]));
}

#[test]
fn write_output_names_the_first_unsupported_field() {
    let schema = Schema::new(vec![
        field("a", ColumnKind::Int32, false),
        field("b", ColumnKind::Unsupported, true),
        field("c", ColumnKind::Unsupported, true),
    ]);
    let rows = vec![Row::new(vec![Value::Int32(1), Value::Missing, Value::Missing])];
    assert_eq!(write_output(&rows, &schema), Err(WriteError::UnsupportedType { ordinal: 1 }));
}

#[test]
fn write_output_fails_the_same_way_every_time() {
    let schema = Schema::new(vec![
        field("a", ColumnKind::Unsupported, false),
        field("b", ColumnKind::Int32, false),
    ]);
    let rows = vec![
        Row::new(vec![Value::Missing, Value::Int32(1)]),
        Row::new(vec![Value::Missing, Value::Int32(2)]),
    ];
    let first = write_output(&rows, &schema);
    let second = write_output(&rows, &schema);
    assert_eq!(first, Err(WriteError::UnsupportedType { ordinal: 0 }));
    assert_eq!(second, first);
    assert_eq!(write_output(&vec![], &schema), first);
}
