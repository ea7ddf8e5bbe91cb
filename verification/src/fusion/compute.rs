//! The span of a column, and the cast of a batch to a schema.

use crate::error::{ErrorKind, MeltError};
use crate::fusion::array::{
    build_null_arrays, cast_array, cast_column, column_has_type, column_type, max_null_rows,
    null_column, Column,
};
use crate::fusion::arrow::Batch;
use crate::fusion::recordbatch::{arrow_schema_of, batch_rows, num_rows, to_arrow_schema};
use crate::schema::{FieldView, MeltSchema};
use vstd::prelude::*;

verus! {

/// The least and the greatest value of the 64-bit integer column `name` of a batch; `None`
/// where the batch has no such column, where the column is of another type, and where it holds
/// nothing but nulls.
pub uninterp spec fn column_min_max(batch: Batch, name: Seq<char>) -> Option<(i64, i64)>;

/// `RecordBatch::column_by_name`, the column taken as 64-bit integers (`as_primitive_opt`), and
/// `arrow_arith::aggregate::min_array` and `max_array` of it.
#[verifier::external_body]
pub fn compute_min_max(record: &Batch, name: &str) -> (r: Option<(i64, i64)>)
    ensures
        r == column_min_max(*record, name@),
{
    let column = arrow_array::cast::AsArray::as_primitive_opt::<arrow_array::types::Int64Type>(
        record.inner.column_by_name(name)?,
    )?;
    let max = arrow_arith::aggregate::max_array::<arrow_array::types::Int64Type, _>(column)?;
    let min = arrow_arith::aggregate::min_array::<arrow_array::types::Int64Type, _>(column)?;
    Some((min, max))
}

/// `m` is the least of `values`.
pub open spec fn is_min(values: Seq<i64>, m: i64) -> bool {
    values.contains(m) && forall|i: int| 0 <= i < values.len() ==> m <= values[i]
}

/// `m` is the greatest of `values`.
pub open spec fn is_max(values: Seq<i64>, m: i64) -> bool {
    values.contains(m) && forall|i: int| 0 <= i < values.len() ==> values[i] <= m
}

/// The least of `values`, where there are any.
pub open spec fn least(values: Seq<i64>) -> i64 {
    choose|m: i64| is_min(values, m)
}

/// The greatest of `values`, where there are any.
pub open spec fn greatest(values: Seq<i64>) -> i64 {
    choose|m: i64| is_max(values, m)
}

/// Values have one least and one greatest.
pub proof fn lemma_least_and_greatest(values: Seq<i64>, min: i64, max: i64)
    requires
        is_min(values, min),
        is_max(values, max),
    ensures
        least(values) == min,
        greatest(values) == max,
        min <= max,
{
    let at_min = choose|k: int| 0 <= k < values.len() && values[k] == min;
    let at_max = choose|k: int| 0 <= k < values.len() && values[k] == max;
    let l = least(values);
    let g = greatest(values);
    let at_l = choose|k: int| 0 <= k < values.len() && values[k] == l;
    let at_g = choose|k: int| 0 <= k < values.len() && values[k] == g;
    assert(min <= values[at_l] && l <= values[at_min]);
    assert(values[at_g] <= max && values[at_min] <= g && values[at_max] <= g);
}

/// The least and the greatest of `values`; `None` where there is none.
pub fn min_max(values: &Vec<i64>) -> (r: Option<(i64, i64)>)
    ensures
        match r {
            Some((min, max)) => is_min(values@, min) && is_max(values@, max) && min == least(
                values@,
            ) && max == greatest(values@) && min <= max,
            None => values@.len() == 0,
        },
{
    if values.len() == 0 {
        return None;
    }
    let mut min = values[0];
    let mut max = values[0];
    let mut i: usize = 1;
    proof {
        assert(values@.take(1)[0] == values@[0]);
    }
    while i < values.len()
        invariant
            1 <= i <= values.len(),
            is_min(values@.take(i as int), min),
            is_max(values@.take(i as int), max),
        decreases values.len() - i,
    {
        let v = values[i];
        let ghost before = values@.take(i as int);
        let ghost now = values@.take(i as int + 1);
        proof {
            let at_min = choose|k: int| 0 <= k < before.len() && before[k] == min;
            let at_max = choose|k: int| 0 <= k < before.len() && before[k] == max;
            assert(now[at_min] == min);
            assert(now[at_max] == max);
            assert(now[i as int] == v);
            assert forall|k: int| 0 <= k < i implies now[k] == before[k] by {}
        }
        if v < min {
            min = v;
        }
        if v > max {
            max = v;
        }
        i = i + 1;
    }
    proof {
        assert(values@.take(i as int) =~= values@);
        lemma_least_and_greatest(values@, min, max);
    }
    Some((min, max))
}

/// The column of a batch that is called `name`, where it has one.
pub uninterp spec fn batch_column(batch: Batch, name: Seq<char>) -> Option<Column>;

/// The batch that Arrow makes of columns under a schema; `None` where it reports an error.
pub uninterp spec fn batch_of_columns(
    schema: arrow_schema::Schema,
    columns: Seq<Column>,
) -> Option<Batch>;

/// `RecordBatch::column_by_name`; the column is shared, not copied.
#[verifier::external_body]
fn column_by_name(batch: &Batch, name: &str) -> (r: Option<Column>)
    ensures
        r == batch_column(*batch, name@),
{
    batch.inner.column_by_name(name).map(|c| Column { inner: c.clone() })
}

/// `RecordBatch::try_new`.
#[verifier::external_body]
fn new_batch(schema: &arrow_schema::Schema, columns: Vec<Column>) -> (r: Result<
    Batch,
    arrow_schema::ArrowError,
>)
    ensures
        match r {
            Ok(batch) => batch_of_columns(*schema, columns@) == Some(batch),
            Err(_) => batch_of_columns(*schema, columns@) is None,
        },
{
    let arrays = columns.into_iter().map(|c| c.inner).collect();
    let schema = std::sync::Arc::new(schema.clone());
    Ok(Batch { inner: arrow_array::RecordBatch::try_new(schema, arrays)? })
}

/// The column that a cast to `field` makes of `batch`: the column of that name as it is where
/// it has the type of the field, cast to that type where it has another, and a column of nulls
/// where the batch has no column of that name. `None` where the cast fails or the nulls are too
/// many.
pub open spec fn cast_field(batch: Batch, field: FieldView) -> Option<Column> {
    match batch_column(batch, field.name) {
        Some(found) => if column_type(found) == Some(field.data_type) {
            Some(found)
        } else {
            cast_column(found, field.data_type)
        },
        None => if batch_rows(batch) <= max_null_rows() {
            Some(null_column(batch_rows(batch) as usize, field.data_type))
        } else {
            None
        },
    }
}

/// The columns that a cast to `fields` makes of `batch`, `None` where one of them cannot be
/// made.
pub open spec fn cast_fields(batch: Batch, fields: Seq<FieldView>) -> Option<Seq<Column>>
    decreases fields.len(),
{
    if fields.len() == 0 {
        Some(Seq::empty())
    } else {
        match (cast_fields(batch, fields.drop_last()), cast_field(batch, fields.last())) {
            (Some(before), Some(column)) => Some(before.push(column)),
            _ => None,
        }
    }
}

/// The batch that a cast to `fields` makes of `batch`.
pub open spec fn cast_batch(batch: Batch, fields: Seq<FieldView>) -> Option<Batch> {
    match cast_fields(batch, fields) {
        Some(columns) => batch_of_columns(arrow_schema_of(fields), columns),
        None => None,
    }
}

proof fn lemma_cast_fails_later(batch: Batch, fields: Seq<FieldView>, n: int)
    requires
        0 <= n <= fields.len(),
        cast_fields(batch, fields.take(n)) is None,
    ensures
        cast_fields(batch, fields) is None,
    decreases fields.len() - n,
{
    if n < fields.len() {
        assert(fields.take(n + 1).drop_last() =~= fields.take(n));
        lemma_cast_fails_later(batch, fields, n + 1);
    } else {
        assert(fields.take(n) =~= fields);
    }
}

/// Casts a batch to a schema: one column for each field of the schema, in its order. Fails
/// where a column cannot be cast and where Arrow refuses the columns under the schema.
pub fn cast(schema: &MeltSchema, batch: Batch) -> (r: Result<Batch, MeltError>)
    ensures
        match cast_batch(batch, schema@) {
            Some(out) => r == Ok::<Batch, MeltError>(out),
            None => r matches Err(e) && e.kind == ErrorKind::Internal,
        },
{
    let row_num = num_rows(&batch);
    let ghost fields = schema@;
    let mut arrays: Vec<Column> = Vec::new();
    let mut i: usize = 0;
    while i < schema.fields.len()
        invariant
            i <= schema.fields.len(),
            fields == schema@,
            row_num == batch_rows(batch),
            cast_fields(batch, fields.take(i as int)) == Some(arrays@),
        decreases schema.fields.len() - i,
    {
        let field = &schema.fields[i];
        proof {
            assert(fields.take(i as int + 1).drop_last() =~= fields.take(i as int));
            assert(fields.take(i as int + 1).last() == field@);
        }
        let made = match column_by_name(&batch, field.name.as_str()) {
            Some(array) => {
                if column_has_type(&array, field.data_type) {
                    Ok(array)
                } else {
                    cast_array(array, &field.data_type)
                }
            },
            None => build_null_arrays(row_num, &field.data_type),
        };
        match made {
            Ok(column) => {
                arrays.push(column);
            },
            Err(e) => {
                proof {
                    lemma_cast_fails_later(batch, fields, i as int + 1);
                }
                return Err(e);
            },
        }
        i = i + 1;
    }
    proof {
        assert(fields.take(i as int) =~= fields);
    }
    let arrow_schema = to_arrow_schema(schema);
    match new_batch(&arrow_schema, arrays) {
        Ok(out) => Ok(out),
        Err(e) => Err(MeltError::internal(e.to_string().as_str())),
    }
}

/// The batches that a cast to `fields` makes of `records`, one for each and in their order;
/// `None` where one of them cannot be cast.
pub open spec fn cast_batches(records: Seq<Batch>, fields: Seq<FieldView>) -> Option<Seq<Batch>>
    decreases records.len(),
{
    if records.len() == 0 {
        Some(Seq::empty())
    } else {
        match (cast_batches(records.drop_last(), fields), cast_batch(records.last(), fields)) {
            (Some(before), Some(batch)) => Some(before.push(batch)),
            _ => None,
        }
    }
}

proof fn lemma_casts_fail_later(records: Seq<Batch>, fields: Seq<FieldView>, n: int)
    requires
        0 <= n <= records.len(),
        cast_batches(records.take(n), fields) is None,
    ensures
        cast_batches(records, fields) is None,
    decreases records.len() - n,
{
    if n < records.len() {
        assert(records.take(n + 1).drop_last() =~= records.take(n));
        lemma_casts_fail_later(records, fields, n + 1);
    } else {
        assert(records.take(n) =~= records);
    }
}

/// Casts every batch to the schema, so that all of them can be sorted or joined as one table.
/// Fails with the first batch that cannot be cast.
pub fn cast_all(schema: &MeltSchema, records: Vec<Batch>) -> (r: Result<Vec<Batch>, MeltError>)
    ensures
        match cast_batches(records@, schema@) {
            Some(out) => r matches Ok(made) && made@ == out,
            None => r matches Err(e) && e.kind == ErrorKind::Internal,
        },
{
    let ghost all = records@;
    let mut made: Vec<Batch> = Vec::new();
    for batch in it: records.into_iter()
        invariant
            it.seq() == all,
            cast_batches(all.take(it.index() as int), schema@) == Some(made@),
    {
        let ghost n = it.index() as int;
        proof {
            assert(all.take(n + 1).drop_last() =~= all.take(n));
            assert(all.take(n + 1).last() == batch);
        }
        match cast(schema, batch) {
            Ok(out) => {
                made.push(out);
            },
            Err(e) => {
                proof {
                    lemma_casts_fail_later(all, schema@, n + 1);
                }
                return Err(e);
            },
        }
    }
    proof {
        assert(all.take(all.len() as int) =~= all);
    }
    Ok(made)
}

} // verus!
