//! The core of a small log search engine: JSON records are stamped with their time, sorted into
//! hourly partitions, given a schema, and written as columnar segments; a catalog keeps the
//! segments of each table with the span of time that they cover; queries are parsed into a tree,
//! lowered to a filter, and planned over the segments in range.
//!
//! What the library states of its functions is proved, but for the calls into the crates that do
//! the decoding, the calendar, the columnar formats and the filter expressions. Each of those
//! calls stands in a small function of its own that says what is taken on trust.

pub mod bulk;
pub mod consts;
pub mod error;
pub mod exec;
pub mod fusion;
pub mod id_gen;
pub mod ingest;
pub mod meta;
pub mod query;
pub mod schema;
pub mod storage;
pub mod utils;
