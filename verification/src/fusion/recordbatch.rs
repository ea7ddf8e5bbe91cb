//! Between JSON records and columnar batches.

use crate::error::{ErrorKind, MeltError};
use crate::fusion::arrow::Batch;
use crate::schema::{FieldView, MeltSchema};
use crate::utils::json::{from_serde, json_views, serde_forms, to_serde, Json, JsonView};
use vstd::prelude::*;

verus! {

/// The Arrow schema that `Schema::new` makes of fields that `Field::new` makes: it holds the
/// fields `fields` and no metadata.
pub uninterp spec fn arrow_schema_of(fields: Seq<FieldView>) -> arrow_schema::Schema;

/// The fields of an Arrow schema that holds fields of the four types of this library and
/// nothing else: no metadata of its own and none on a field. `None` for any other schema.
pub uninterp spec fn plain_fields(schema: arrow_schema::Schema) -> Option<Seq<FieldView>>;

/// The number of rows of a batch.
pub uninterp spec fn batch_rows(b: Batch) -> nat;

/// The number of columns of a batch.
pub uninterp spec fn batch_columns(b: Batch) -> nat;

/// What arrow_json decodes from `rows` under `schema`: `None` where it reports an error,
/// `Some(None)` where it has no row to give, else the batch.
pub uninterp spec fn decoded_batch(
    schema: arrow_schema::Schema,
    rows: Seq<serde_json::Value>,
) -> Option<Option<Batch>>;

/// The rows of a batch as arrow_json writes them, one object for each row; `None` where it
/// reports an error.
pub uninterp spec fn batch_json_rows(b: Batch) -> Option<Seq<JsonView>>;

/// `arrow_schema::Schema::new` over `arrow_schema::Field::new` for each field: the Arrow schema
/// with the same fields.
#[verifier::external_body]
pub(crate) fn to_arrow_schema(schema: &MeltSchema) -> (r: arrow_schema::Schema)
    ensures
        r == arrow_schema_of(schema@),
        plain_fields(r) == Some(schema@),
{
    let fields: Vec<arrow_schema::Field> = schema.fields.iter().map(|f| {
        let data_type = match f.data_type {
            crate::schema::DataType::Boolean => arrow_schema::DataType::Boolean,
            crate::schema::DataType::Int64 => arrow_schema::DataType::Int64,
            crate::schema::DataType::Float64 => arrow_schema::DataType::Float64,
            crate::schema::DataType::Utf8 => arrow_schema::DataType::Utf8,
        };
        arrow_schema::Field::new(f.name.clone(), data_type, f.nullable)
    }).collect();
    arrow_schema::Schema::new(fields)
}

/// arrow_json's decoder, from its making to the batch: `ReaderBuilder::new`, `with_batch_size`,
/// `build_decoder`, then `Decoder::serialize` of all rows and `Decoder::flush`. The batch size
/// only sizes the decoder's buffers: where it is not less than the number of rows, the batch
/// does not depend on it.
#[verifier::external_body]
fn decode_batch(
    schema: &arrow_schema::Schema,
    batch_size: usize,
    rows: &Vec<serde_json::Value>,
) -> (r: Result<Option<Batch>, arrow_schema::ArrowError>)
    requires
        batch_size >= rows@.len(),
    ensures
        match r {
            Ok(batch) => decoded_batch(*schema, rows@) == Some(batch),
            Err(_) => decoded_batch(*schema, rows@) is None,
        },
{
    let builder = arrow_json::ReaderBuilder::new(std::sync::Arc::new(schema.clone()));
    let mut decoder = builder.with_batch_size(batch_size).build_decoder()?;
    decoder.serialize(rows)?;
    Ok(decoder.flush()?.map(|inner| Batch { inner }))
}

/// `RecordBatch::num_rows`.
#[verifier::external_body]
pub(crate) fn num_rows(batch: &Batch) -> (n: usize)
    ensures
        n == batch_rows(*batch),
{
    batch.inner.num_rows()
}

/// `RecordBatch::num_columns`.
#[verifier::external_body]
pub(crate) fn num_columns(batch: &Batch) -> (n: usize)
    ensures
        n == batch_columns(*batch),
{
    batch.inner.num_columns()
}

/// `arrow_json::writer::record_batches_to_json_rows` of the one batch: its rows as objects, a
/// null left out of its row.
#[verifier::external_body]
fn rows_of_batch(batch: &Batch) -> (r: Result<Vec<Json>, arrow_schema::ArrowError>)
    ensures
        match r {
            Ok(rows) => batch_json_rows(*batch) == Some(json_views(rows@)),
            Err(_) => batch_json_rows(*batch) is None,
        },
{
    let rows = arrow_json::writer::record_batches_to_json_rows(&[&batch.inner])?;
    Ok(rows.into_iter().map(|row| from_serde(serde_json::Value::Object(row))).collect())
}

/// The least multiple of 64 that is not less than `n`.
pub open spec fn rounded_up_to_64(n: int) -> int {
    ((n + 63) / 64) * 64
}

/// Rounds up to a multiple of 64; `None` where that does not fit.
pub fn round_upto_multiple_of_64(n: usize) -> (r: Option<usize>)
    ensures
        r == (if rounded_up_to_64(n as int) <= usize::MAX {
            Some(rounded_up_to_64(n as int) as usize)
        } else {
            None
        }),
{
    if n > usize::MAX - 63 {
        None
    } else {
        Some(((n + 63) / 64) * 64)
    }
}

/// Whether a batch has the shape that is asked for.
pub open spec fn has_shape(batch: Batch, columns: int, rows: int) -> bool {
    batch_columns(batch) == columns && batch_rows(batch) == rows
}

/// What `json_to_recordbatch` makes of what the decoder returned: the batch, where there is one
/// and it has `columns` columns and `rows` rows.
pub fn batch_of_decoded(
    decoded: Result<Option<Batch>, arrow_schema::ArrowError>,
    columns: usize,
    rows: usize,
) -> (r: Result<Batch, MeltError>)
    ensures
        match decoded {
            Ok(Some(batch)) if has_shape(batch, columns as int, rows as int) => r == Ok::<
                Batch,
                MeltError,
            >(batch),
            _ => r matches Err(e) && e.kind == ErrorKind::Internal,
        },
{
    match decoded {
        Ok(Some(batch)) => {
            if num_columns(&batch) == columns && num_rows(&batch) == rows {
                Ok(batch)
            } else {
                Err(MeltError::internal("the batch does not fit the schema and the records"))
            }
        },
        Ok(None) => Err(MeltError::internal("no record to make a batch of")),
        Err(e) => Err(MeltError::internal(e.to_string().as_str())),
    }
}

/// Builds the columnar batch of `record` under `schema`: one column for each field, one row for
/// each record. A field that a record does not have is null in its row. Fails where the decoder
/// rejects a record, as it does where a value does not fit the type of its field; where there
/// is no record; and where the batch size does not fit.
pub fn json_to_recordbatch(schema: &MeltSchema, record: &[Json]) -> (r: Result<Batch, MeltError>)
    ensures
        match r {
            Ok(batch) => decoded_batch(
                arrow_schema_of(schema@),
                serde_forms(json_views(record@)),
            ) == Some(Some(batch)) && batch_columns(batch) == schema@.len() && batch_rows(batch)
                == record@.len()
                && rounded_up_to_64(record@.len() as int) <= usize::MAX,
            Err(e) => e.kind == ErrorKind::Internal,
        },
        rounded_up_to_64(record@.len() as int) <= usize::MAX && (decoded_batch(
            arrow_schema_of(schema@),
            serde_forms(json_views(record@)),
        ) matches Some(Some(batch)) && batch_columns(batch) == schema@.len() && batch_rows(batch)
            == record@.len()) ==> r is Ok,
{
    let batch_size = match round_upto_multiple_of_64(record.len()) {
        Some(n) => n,
        None => { return Err(MeltError::internal("too many records for one batch")); },
    };
    let mut rows: Vec<serde_json::Value> = Vec::new();
    let mut i: usize = 0;
    while i < record.len()
        invariant
            i <= record.len(),
            rows@ == serde_forms(json_views(record@)).take(i as int),
        decreases record.len() - i,
    {
        rows.push(to_serde(&record[i]));
        proof {
            assert(rows@ =~= serde_forms(json_views(record@)).take(i as int + 1));
        }
        i = i + 1;
    }
    proof {
        assert(rows@ =~= serde_forms(json_views(record@)));
    }
    let arrow_schema = to_arrow_schema(schema);
    batch_of_decoded(
        decode_batch(&arrow_schema, batch_size, &rows),
        schema.fields.len(),
        record.len(),
    )
}

/// The rows of each batch, batch after batch.
pub open spec fn all_json_rows(batches: Seq<Batch>) -> Option<Seq<JsonView>>
    decreases batches.len(),
{
    if batches.len() == 0 {
        Some(Seq::empty())
    } else {
        match (all_json_rows(batches.drop_last()), batch_json_rows(batches.last())) {
            (Some(before), Some(rows)) => Some(before + rows),
            _ => None,
        }
    }
}

/// Turns batches back into JSON rows: one object for each row, in the order of the batches and
/// of their rows. Fails where a batch holds a column that cannot be written as JSON.
pub fn recordbatch_to_jsons(batchs: &[&Batch]) -> (r: Result<Vec<Json>, MeltError>)
    ensures
        match all_json_rows(Seq::new(batchs@.len(), |i: int| *batchs@[i])) {
            Some(rows) => r matches Ok(found) && json_views(found@) == rows,
            None => r matches Err(e) && e.kind == ErrorKind::Internal,
        },
{
    let ghost batches = Seq::new(batchs@.len(), |i: int| *batchs@[i]);
    let mut found: Vec<Json> = Vec::new();
    let mut i: usize = 0;
    proof {
        assert(json_views(found@) =~= Seq::<JsonView>::empty());
    }
    while i < batchs.len()
        invariant
            i <= batchs.len(),
            batches == Seq::new(batchs@.len(), |i: int| *batchs@[i]),
            all_json_rows(batches.take(i as int)) == Some(json_views(found@)),
        decreases batchs.len() - i,
    {
        proof {
            assert(batches.take(i as int + 1).drop_last() =~= batches.take(i as int));
            assert(batches.take(i as int + 1).last() == *batchs@[i as int]);
        }
        match rows_of_batch(batchs[i]) {
            Ok(mut rows) => {
                let ghost before = json_views(found@);
                let ghost added = json_views(rows@);
                found.append(&mut rows);
                proof {
                    assert(json_views(found@) =~= before + added);
                }
            },
            Err(e) => {
                proof {
                    lemma_rows_fail_later(batches, i as int + 1);
                }
                return Err(MeltError::internal(e.to_string().as_str()));
            },
        }
        i = i + 1;
    }
    proof {
        assert(batches.take(i as int) =~= batches);
    }
    Ok(found)
}

/// Where the rows of the first `n` batches cannot be had, those of all batches cannot.
proof fn lemma_rows_fail_later(batches: Seq<Batch>, n: int)
    requires
        0 <= n <= batches.len(),
        all_json_rows(batches.take(n)) is None,
    ensures
        all_json_rows(batches) is None,
    decreases batches.len() - n,
{
    if n < batches.len() {
        assert(batches.take(n + 1).drop_last() =~= batches.take(n));
        lemma_rows_fail_later(batches, n + 1);
    } else {
        assert(batches.take(n) =~= batches);
    }
}

} // verus!
