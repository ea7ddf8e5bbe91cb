//! Schemas, batches and segment files.

pub mod array;
pub mod arrow;
pub mod compute;
pub mod parquet;
pub mod recordbatch;
pub mod schema;
