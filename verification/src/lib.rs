//! Reduces tabular datasets by uniform sampling and by semi-join filtering,
//! and lays the surviving rows out column by column for a columnar writer.
//!
//! The library works on rows in memory and on single steps of a scan. Opening
//! files, decoding rows and encoding batches are left to the caller.

pub mod join;
pub mod progress;
pub mod sampler;
pub mod schema;
pub mod text;
pub mod value;
pub mod writer;

pub use join::{build_key_set, probe, semi_join, KeySet, SemiJoin};
pub use sampler::{
    draw_positions, draw_positions_within, sample, sample_rows, PositionSet, SampleCursor,
    SampleError,
};
pub use schema::{ColumnKind, Field, Schema, SchemaError};
pub use value::{Row, Value};
pub use writer::{build_column, write_output, ColumnBatch, ColumnValues, WriteError};
