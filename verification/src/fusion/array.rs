//! Single columns: columns of nulls, and casts.

use crate::error::{ErrorKind, MeltError};
use crate::schema::DataType;
use vstd::prelude::*;

verus! {

/// One column. It holds an Arrow array behind a shared pointer, of which the verifier sees
/// nothing.
#[verifier::external_body]
#[derive(Debug)]
pub struct Column {
    pub inner: arrow_array::ArrayRef,
}

/// The type of a column, where it is one of the four types of this library.
pub uninterp spec fn column_type(c: Column) -> Option<DataType>;

/// The column of `num` nulls of the type `t`.
pub uninterp spec fn null_column(num: usize, t: DataType) -> Column;

/// What `arrow_cast::cast` makes of a column for the type `to`; `None` where it reports an
/// error.
pub uninterp spec fn cast_column(c: Column, to: DataType) -> Option<Column>;

/// The most rows for which the buffers of a column can be sized.
pub open spec fn max_null_rows() -> int {
    (usize::MAX / 32) as int
}

/// `arrow_array::new_null_array`: an array of `num` nulls. Arrow panics where the size of
/// its buffers does not fit.
#[verifier::external_body]
fn new_null_column(num: usize, t: DataType) -> (c: Column)
    requires
        num <= max_null_rows(),
    ensures
        c == null_column(num, t),
        column_type(c) == Some(t),
{
    let data_type = match t {
        DataType::Boolean => arrow_schema::DataType::Boolean,
        DataType::Int64 => arrow_schema::DataType::Int64,
        DataType::Float64 => arrow_schema::DataType::Float64,
        DataType::Utf8 => arrow_schema::DataType::Utf8,
    };
    Column { inner: arrow_array::new_null_array(&data_type, num) }
}

/// `arrow_cast::cast` with the default options.
#[verifier::external_body]
fn cast_to(array: &Column, to: DataType) -> (r: Result<Column, arrow_schema::ArrowError>)
    ensures
        match r {
            Ok(c) => cast_column(*array, to) == Some(c),
            Err(_) => cast_column(*array, to) is None,
        },
{
    let to_type = match to {
        DataType::Boolean => arrow_schema::DataType::Boolean,
        DataType::Int64 => arrow_schema::DataType::Int64,
        DataType::Float64 => arrow_schema::DataType::Float64,
        DataType::Utf8 => arrow_schema::DataType::Utf8,
    };
    Ok(Column { inner: arrow_cast::cast(&array.inner, &to_type)? })
}

/// `Array::data_type`, compared with `t`.
#[verifier::external_body]
pub(crate) fn column_has_type(array: &Column, t: DataType) -> (b: bool)
    ensures
        b == (column_type(*array) == Some(t)),
{
    let data_type = match t {
        DataType::Boolean => arrow_schema::DataType::Boolean,
        DataType::Int64 => arrow_schema::DataType::Int64,
        DataType::Float64 => arrow_schema::DataType::Float64,
        DataType::Utf8 => arrow_schema::DataType::Utf8,
    };
    array.inner.data_type() == &data_type
}

/// A column of `num` nulls of the type `t`. Fails where `num` is more than the buffers of a
/// column can be sized for.
pub fn build_null_arrays(num: usize, t: &DataType) -> (r: Result<Column, MeltError>)
    ensures
        match r {
            Ok(c) => num <= max_null_rows() && c == null_column(num, *t) && column_type(c) == Some(
                *t,
            ),
            Err(e) => num > max_null_rows() && e.kind == ErrorKind::Internal,
        },
{
    if num > usize::MAX / 32 {
        return Err(MeltError::internal("too many rows for one column"));
    }
    Ok(new_null_column(num, *t))
}

/// Casts a column to the type `to`. Fails where Arrow has no cast for it or a value cannot be
/// cast.
pub fn cast_array(array: Column, to: &DataType) -> (r: Result<Column, MeltError>)
    ensures
        match cast_column(array, *to) {
            Some(c) => r == Ok::<Column, MeltError>(c),
            None => r matches Err(e) && e.kind == ErrorKind::Internal,
        },
{
    match cast_to(&array, *to) {
        Ok(c) => Ok(c),
        Err(e) => Err(MeltError::internal(e.to_string().as_str())),
    }
}

} // verus!
