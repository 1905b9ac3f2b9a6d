use parquet_sampler::value::{copy_bytes, Row, Value};

#[test]
fn value_clone_is_equal() {
    let values = vec![
        Value::Missing,
        Value::Boolean(true),
        Value::Int32(-5),
        Value::Int64(1 << 40),
        Value::Float32(0x7fc0_0000),
        Value::Float64(0x3ff0_0000_0000_0000),
        Value::ByteString(vec![1, 2, 3]),
    ];
    for value in &values {
        assert_eq!(&value.clone(), value);
    }
}

#[test]
fn copy_bytes_copies_every_byte() {
    assert_eq!(copy_bytes(&vec![]), Vec::<u8>::new());
    assert_eq!(copy_bytes(&vec![0, 255, 7]), vec![0, 255, 7]);
}

#[test]
fn row_gives_its_values_by_ordinal() {
    let row = Row::new(vec![Value::Int32(1), Value::Missing, Value::ByteString(b"z".to_vec())]);
    assert_eq!(row.len(), 3);
    assert_eq!(row.get(0), &Value::Int32(1));
    assert_eq!(row.get(1), &Value::Missing);
    assert_eq!(row.get(2), &Value::ByteString(b"z".to_vec()));
    assert_eq!(row.clone(), row);
}
