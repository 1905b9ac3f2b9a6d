use bytes::Bytes;
use parquet::data_type::{
    BoolType, ByteArray, ByteArrayType, DoubleType, FloatType, Int32Type, Int64Type,
};
use parquet::file::properties::WriterProperties;
use parquet::file::reader::{FileReader, SerializedFileReader};
use parquet::file::writer::SerializedFileWriter;
use parquet::record::Field as CodecField;
use parquet::schema::parser::parse_message_type;
use parquet_sampler::join::build_key_set;
use parquet_sampler::sampler::sample;
use parquet_sampler::schema::{ColumnKind, Field, Schema};
use parquet_sampler::value::{Row, Value};
use parquet_sampler::writer::{write_output, ColumnBatch, ColumnValues};
use std::sync::Arc;

const SCHEMA_TEXT: &str = "message schema {
    REQUIRED INT64 id;
    OPTIONAL BOOLEAN ok;
    OPTIONAL INT32 count;
    OPTIONAL FLOAT ratio;
    OPTIONAL DOUBLE score;
    OPTIONAL BYTE_ARRAY tag;
}";

fn field(name: &str, kind: ColumnKind, nullable: bool) -> Field {
    Field { name: name.to_string(), kind, nullable }
}

fn schema() -> Schema {
    Schema::new(vec![
        field("id", ColumnKind::Int64, false),
        field("ok", ColumnKind::Boolean, true),
        field("count", ColumnKind::Int32, true),
        field("ratio", ColumnKind::Float32, true),
        field("score", ColumnKind::Float64, true),
        field("tag", ColumnKind::ByteString, true),
    ])
}

fn rows() -> Vec<Row> {
    vec![
        Row::new(vec![
            Value::Int64(1),
            Value::Boolean(true),
            Value::Int32(-7),
            Value::Float32(1.5f32.to_bits()),
            Value::Float64((-2.25f64).to_bits()),
            Value::ByteString(b"first".to_vec()),
        ]),
        Row::new(vec![
            Value::Int64(2),
            Value::Missing,
            Value::Missing,
            Value::Missing,
            Value::Missing,
            Value::Missing,
        ]),
        Row::new(vec![
            Value::Int64(i64::MIN),
            Value::Boolean(false),
            Value::Int32(i32::MAX),
            Value::Float32((-0.0f32).to_bits()),
            Value::Float64(f64::INFINITY.to_bits()),
            Value::ByteString(vec![]),
        ]),
        Row::new(vec![
            Value::Int64(4),
            Value::Missing,
            Value::Int32(0),
            Value::Missing,
            Value::Float64(1e300f64.to_bits()),
            Value::ByteString(vec![0x00, 0xff, 0x80]),
        ]),
    ]
}

fn encode(batches: &[ColumnBatch]) -> Vec<u8> {
    let codec_schema = Arc::new(parse_message_type(SCHEMA_TEXT).unwrap());
    let properties = Arc::new(WriterProperties::builder().build());
    let mut file = SerializedFileWriter::new(Vec::new(), codec_schema, properties).unwrap();
    let mut group = file.next_row_group().unwrap();
    for batch in batches {
        let mut column = group.next_column().unwrap().unwrap();
        let levels = Some(&batch.def_levels[..]);
        match &batch.values {
            ColumnValues::Boolean(items) => {
                column.typed::<BoolType>().write_batch(items, levels, None).unwrap();
            }
            ColumnValues::Int32(items) => {
                column.typed::<Int32Type>().write_batch(items, levels, None).unwrap();
            }
            ColumnValues::Int64(items) => {
                column.typed::<Int64Type>().write_batch(items, levels, None).unwrap();
            }
            ColumnValues::Float32(items) => {
                let floats: Vec<f32> = items.iter().map(|bits| f32::from_bits(*bits)).collect();
                column.typed::<FloatType>().write_batch(&floats, levels, None).unwrap();
            }
            ColumnValues::Float64(items) => {
                let floats: Vec<f64> = items.iter().map(|bits| f64::from_bits(*bits)).collect();
                column.typed::<DoubleType>().write_batch(&floats, levels, None).unwrap();
            }
            ColumnValues::ByteString(items) => {
                let arrays: Vec<ByteArray> =
                    items.iter().map(|bytes| ByteArray::from(bytes.clone())).collect();
                column.typed::<ByteArrayType>().write_batch(&arrays, levels, None).unwrap();
            }
        }
        column.close().unwrap();
    }
    assert!(group.next_column().unwrap().is_none());
    group.close().unwrap();
    file.into_inner().unwrap()
}

fn decode(file: Vec<u8>) -> Vec<Row> {
    let reader = SerializedFileReader::new(Bytes::from(file)).unwrap();
    let mut rows = Vec::new();
    for row in reader.get_row_iter(None).unwrap() {
        let mut values = Vec::new();
        for (_, cell) in row.unwrap().get_column_iter() {
            values.push(match cell {
                CodecField::Null => Value::Missing,
                CodecField::Bool(b) => Value::Boolean(*b),
                CodecField::Int(n) => Value::Int32(*n),
                CodecField::Long(n) => Value::Int64(*n),
                CodecField::Float(x) => Value::Float32(x.to_bits()),
                CodecField::Double(x) => Value::Float64(x.to_bits()),
                CodecField::Bytes(bytes) => Value::ByteString(bytes.data().to_vec()),
                CodecField::Str(text) => Value::ByteString(text.as_bytes().to_vec()),
                other => panic!("a cell of a kind that was not written: {other}"),
            });
        }
        rows.push(Row::new(values));
    }
    rows
}

#[test]
fn written_rows_read_back_identical() {
    let rows = rows();
    let batches = write_output(&rows, &schema()).unwrap();
    assert_eq!(decode(encode(&batches)), rows);
}

#[test]
fn an_empty_row_set_reads_back_empty() {
    let batches = write_output(&vec![], &schema()).unwrap();
    assert_eq!(decode(encode(&batches)), vec![]);
}

#[test]
fn a_sample_reads_back_identical() {
    let rows = rows();
    let sampled = sample(&rows, 2).unwrap();
    let batches = write_output(&sampled, &schema()).unwrap();
    let read = decode(encode(&batches));
    assert_eq!(read, sampled);
    assert_eq!(read.len(), 2);
}

#[test]
fn keys_are_the_texts_that_the_codec_prints() {
    let rows = rows();
    let batches = write_output(&rows, &schema()).unwrap();
    let file = encode(&batches);
    let reader = SerializedFileReader::new(Bytes::from(file)).unwrap();
    let mut texts = Vec::new();
    for row in reader.get_row_iter(None).unwrap() {
        let row = row.unwrap();
        let text = row.get_column_iter().map(|cell| cell.1.to_string()).nth(2).unwrap();
        texts.push(text);
    }
    assert_eq!(texts, vec!["-7", "null", "2147483647", "0"]);
    let keys = build_key_set(&vec![
        Row::new(vec![Value::Int32(-7)]),
        Row::new(vec![Value::Missing]),
    ]);
    let matches: Vec<bool> = rows.iter().map(|row| keys.contains(row.get(2))).collect();
    assert_eq!(matches, vec![true, true, false, false]);
}
