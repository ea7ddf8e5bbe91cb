//! Names that the whole library shares.

use vstd::prelude::*;

verus! {

/// The field of a record that holds its time.
pub const TIMPSTAMP_FIELD_NAME: &'static str = "timestamp";

/// The extension of a segment file.
pub const PARQUET_EXT: &'static str = "parquet";

/// The extension of the file that holds a segment's schema.
pub const SCHEMA_EXT: &'static str = "schema";

} // verus!
