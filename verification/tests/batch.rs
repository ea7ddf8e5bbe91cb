use melt::error::ErrorKind;
use melt::fusion::arrow::Batch;
use melt::fusion::compute::{compute_min_max, min_max};
use melt::fusion::parquet::{segment_settings, write_recordbatch, Compression};
use melt::fusion::recordbatch::{
    json_to_recordbatch, recordbatch_to_jsons, round_upto_multiple_of_64,
};
use melt::fusion::schema::infer_schema;
use melt::schema::{DataType, Field, MeltSchema};
use melt::utils::json::{decode, get_member, parse_json, Json};
use std::sync::Arc;

fn records(text: &str) -> Vec<Json> {
    match decode(text.as_bytes()).unwrap() {
        Json::Array(items) => items,
        other => vec![other],
    }
}

fn build_tests_recordbatch() -> (Arc<arrow_schema::Schema>, Batch) {
    let schema = Arc::new(arrow_schema::Schema::new(vec![
        arrow_schema::Field::new("a", arrow_schema::DataType::Utf8, false),
        arrow_schema::Field::new("b", arrow_schema::DataType::Int64, false),
    ]));
    let batch = arrow_array::RecordBatch::try_new(
        schema.clone(),
        vec![
            Arc::new(arrow_array::StringArray::from(vec!["a", "b", "c", "d"])),
            Arc::new(arrow_array::Int64Array::from(vec![1, 10, 10, 100])),
        ],
    )
    .unwrap();
    (schema, Batch { inner: batch })
}

#[test]
fn test_compute() {
    let (_, batch) = build_tests_recordbatch();
    let (a, b) = compute_min_max(&batch, "b").unwrap();
    assert_eq!(a, 1);
    assert_eq!(b, 100);
}

#[test]
fn test_compute_min_max() {
    let (_, batch) = build_tests_recordbatch();
    let (a, b) = compute_min_max(&batch, "b").unwrap();
    assert_eq!(a, 1);
    assert_eq!(b, 100);
    assert_eq!(compute_min_max(&batch, "a"), None);
    assert_eq!(compute_min_max(&batch, "z"), None);
}

#[test]
fn test_dataframe() {
    let data = r#"[{"a": 1, "b": 1},{"a": 2, "b": 1}]"#;
    let values = parse_json(data.as_bytes()).unwrap();
    let schema = infer_schema(&values).unwrap();
    let batch = json_to_recordbatch(&schema, &values).unwrap();
    let (min, max) = compute_min_max(&batch, "a").unwrap();
    assert_eq!(min, 1);
    assert_eq!(max, 2);
}

#[test]
fn min_max_of_values() {
    assert_eq!(min_max(&vec![]), None);
    assert_eq!(min_max(&vec![7]), Some((7, 7)));
    assert_eq!(min_max(&vec![3, -2, 9, 9, 0]), Some((-2, 9)));
    assert_eq!(min_max(&vec![i64::MAX, i64::MIN]), Some((i64::MIN, i64::MAX)));
}

#[test]
fn rounding_up_to_a_multiple_of_64() {
    assert_eq!(round_upto_multiple_of_64(0), Some(0));
    assert_eq!(round_upto_multiple_of_64(1), Some(64));
    assert_eq!(round_upto_multiple_of_64(64), Some(64));
    assert_eq!(round_upto_multiple_of_64(65), Some(128));
    assert_eq!(round_upto_multiple_of_64(199), Some(256));
    assert_eq!(round_upto_multiple_of_64(usize::MAX - 63), Some(usize::MAX - 63));
    assert_eq!(round_upto_multiple_of_64(usize::MAX - 62), None);
    for n in [0usize, 1, 63, 64, 65, 1000] {
        assert_eq!(
            round_upto_multiple_of_64(n),
            Some(arrow_buffer::bit_util::round_upto_multiple_of_64(n))
        );
    }
}

#[test]
fn batch_has_a_column_for_each_field_and_a_row_for_each_record() {
    let values = records(r#"[{"a": 1, "b": "x"}, {"b": "y", "c": true}, {"a": 3, "c": null}]"#);
    let schema = infer_schema(&values).unwrap();
    let batch = json_to_recordbatch(&schema, &values).unwrap();
    assert_eq!(batch.inner.num_rows(), 3);
    assert_eq!(batch.inner.num_columns(), 3);
    let names: Vec<String> = batch.inner.schema().fields().iter().map(|f| f.name().clone()).collect();
    assert_eq!(names, vec!["a", "b", "c"]);
    let a = arrow_array::cast::AsArray::as_primitive::<arrow_array::types::Int64Type>(
        batch.inner.column(0),
    );
    assert_eq!(a.iter().collect::<Vec<_>>(), vec![Some(1), None, Some(3)]);
    let c = arrow_array::cast::AsArray::as_boolean(batch.inner.column(2));
    assert_eq!(c.iter().collect::<Vec<_>>(), vec![None, Some(true), None]);
}

#[test]
fn batch_of_nothing_is_refused() {
    let schema = MeltSchema::new(vec![Field::new("a", DataType::Int64, true)]);
    assert_eq!(json_to_recordbatch(&schema, &[]).unwrap_err().kind, ErrorKind::Internal);
}

#[test]
fn batch_that_does_not_fit_its_schema_is_refused() {
    let schema = MeltSchema::new(vec![Field::new("a", DataType::Int64, true)]);
    let values = records(r#"[{"a": "text"}]"#);
    assert_eq!(json_to_recordbatch(&schema, &values).unwrap_err().kind, ErrorKind::Internal);
    let values = records(r#"[1]"#);
    assert_eq!(json_to_recordbatch(&schema, &values).unwrap_err().kind, ErrorKind::Internal);
}

#[test]
fn rows_come_back_as_objects_without_their_nulls() {
    let values = records(r#"[{"a": 1, "b": "x", "f": 1.5}, {"b": "y"}, {"a": 3, "f": 2}]"#);
    let schema = infer_schema(&values).unwrap();
    let batch = json_to_recordbatch(&schema, &values).unwrap();
    let rows = recordbatch_to_jsons(&[&batch]).unwrap();
    assert_eq!(rows.len(), 3);
    assert_eq!(rows[0], decode(br#"{"a": 1, "b": "x", "f": 1.5}"#).unwrap());
    assert_eq!(rows[1], decode(br#"{"b": "y"}"#).unwrap());
    assert_eq!(rows[2], decode(br#"{"a": 3, "f": 2.0}"#).unwrap());
}

#[test]
fn rows_of_several_batches_come_in_order_under_their_own_names() {
    let first = records(r#"[{"a": 1}, {"a": 2}]"#);
    let second = records(r#"[{"b": "x", "c": true}]"#);
    let b1 = json_to_recordbatch(&infer_schema(&first).unwrap(), &first).unwrap();
    let b2 = json_to_recordbatch(&infer_schema(&second).unwrap(), &second).unwrap();
    let rows = recordbatch_to_jsons(&[&b1, &b2, &b1]).unwrap();
    assert_eq!(rows.len(), 5);
    assert_eq!(get_member(&rows[1], "a"), Some(&Json::Int(2)));
    assert_eq!(get_member(&rows[2], "b"), Some(&Json::String("x".to_string())));
    assert_eq!(get_member(&rows[2], "c"), Some(&Json::Bool(true)));
    assert_eq!(get_member(&rows[4], "a"), Some(&Json::Int(2)));
    assert_eq!(recordbatch_to_jsons(&[]).unwrap(), Vec::<Json>::new());
}

#[test]
fn inferring_again_from_the_rows_of_a_batch_gives_the_same_schema() {
    let values = records(r#"[{"a": 1, "b": "x", "f": 1.5, "t": true}, {"a": 2, "b": "y", "f": 2, "t": false}]"#);
    let schema = infer_schema(&values).unwrap();
    let batch = json_to_recordbatch(&schema, &values).unwrap();
    let rows = recordbatch_to_jsons(&[&batch]).unwrap();
    assert_eq!(infer_schema(&rows).unwrap(), schema);
}

#[test]
fn segment_file_is_parquet_with_snappy_and_without_dictionary() {
    let settings = segment_settings();
    assert_eq!(settings.compression, Compression::Snappy);
    assert!(!settings.dictionary_enabled);
    let values = records(r#"[{"a": 1, "b": "x"}, {"a": 2, "b": "y"}, {"a": 3}]"#);
    let schema = infer_schema(&values).unwrap();
    let batch = json_to_recordbatch(&schema, &values).unwrap();
    let bytes = write_recordbatch(&batch).unwrap();
    assert_eq!(&bytes[..4], b"PAR1");
    assert_eq!(&bytes[bytes.len() - 4..], b"PAR1");
    let builder = parquet::arrow::arrow_reader::ParquetRecordBatchReaderBuilder::try_new(
        bytes::Bytes::from(bytes),
    )
    .unwrap();
    let metadata = builder.metadata().clone();
    assert_eq!(metadata.num_row_groups(), 1);
    let group = metadata.row_group(0);
    assert_eq!(group.num_rows(), 3);
    for i in 0..group.num_columns() {
        let column = group.column(i);
        assert_eq!(column.compression(), parquet::basic::Compression::SNAPPY);
        assert!(!column
            .encodings()
            .iter()
            .any(|e| *e == parquet::basic::Encoding::PLAIN_DICTIONARY
                || *e == parquet::basic::Encoding::RLE_DICTIONARY));
        assert!(column.statistics().is_some());
    }
    let read: Vec<arrow_array::RecordBatch> = builder.build().unwrap().map(|b| b.unwrap()).collect();
    assert_eq!(read.len(), 1);
    assert_eq!(read[0], batch.inner);
}

#[test]
fn a_batch_made_by_hand_is_written_under_its_own_schema() {
    // Fields that may not be null, and types in another order than any inferred schema has.
    let (schema, batch) = build_tests_recordbatch();
    let bytes = write_recordbatch(&batch).unwrap();
    let builder = parquet::arrow::arrow_reader::ParquetRecordBatchReaderBuilder::try_new(
        bytes::Bytes::from(bytes),
    )
    .unwrap();
    assert_eq!(builder.schema(), &schema);
    let read: Vec<arrow_array::RecordBatch> = builder.build().unwrap().map(|b| b.unwrap()).collect();
    assert_eq!(read, vec![batch.inner]);
}

#[test]
fn a_batch_without_rows_is_written_as_a_file_without_rows() {
    let (schema, batch) = build_tests_recordbatch();
    let empty = Batch { inner: batch.inner.slice(0, 0) };
    let bytes = write_recordbatch(&empty).unwrap();
    let builder = parquet::arrow::arrow_reader::ParquetRecordBatchReaderBuilder::try_new(
        bytes::Bytes::from(bytes),
    )
    .unwrap();
    assert_eq!(builder.schema(), &schema);
    assert_eq!(builder.metadata().file_metadata().num_rows(), 0);
}
