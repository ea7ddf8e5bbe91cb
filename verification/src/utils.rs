//! JSON values, text and timestamps.

pub mod json;
pub mod text;
pub mod time;
