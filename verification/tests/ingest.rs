use melt::error::ErrorKind;
use melt::fusion::arrow::Batch;
use melt::id_gen::IdGenerator;
use melt::ingest::{
    checked_partition_key, partition_key_of, partition_records_at, partition_stamped, stamp_record,
    IngestRun, IngestService, Partition, SegmentFiles,
};
use melt::storage::Storage;
use melt::utils::json::{decode, get_member, Json};

fn json(text: &str) -> Json {
    decode(text.as_bytes()).unwrap()
}

fn service() -> IngestService {
    IngestService::with_id_prefix(Storage::new("data"), "segment")
}

fn read_segment(files: &SegmentFiles) -> Vec<Batch> {
    let builder = parquet::arrow::arrow_reader::ParquetRecordBatchReaderBuilder::try_new(
        bytes::Bytes::from(files.parquet.clone()),
    )
    .unwrap();
    builder.build().unwrap().map(|b| Batch { inner: b.unwrap() }).collect()
}

/// Ingests a body and stores nothing: the segments are kept in memory under their paths.
fn ingest_all(
    s: &mut IngestService,
    table: &str,
    partitions: Vec<Partition>,
    stored: &mut Vec<(String, SegmentFiles)>,
) {
    for partition in partitions {
        let files = s.write_partition(table, &partition).unwrap();
        let path = s.storage().path_of(&files.parquet_path);
        let meta = files.meta.duplicate();
        stored.push((path, files));
        s.add_file(table, meta);
    }
}

fn search(
    s: &IngestService,
    table: &str,
    text: &str,
    min_ts: Option<i64>,
    max_ts: Option<i64>,
    stored: &Vec<(String, SegmentFiles)>,
) -> Vec<Json> {
    let plan = s.query_(table, text, min_ts, max_ts).unwrap();
    let schema = melt::schema::MeltSchema::new(vec![]);
    let runtime = tokio::runtime::Builder::new_current_thread().build().unwrap();
    let mut found: Vec<Batch> = Vec::new();
    for file in &plan.files {
        let (_, files) = stored.iter().find(|(path, _)| path == file).unwrap();
        for batch in read_segment(files) {
            let expr = plan.query.to_exp(&schema);
            let batches = runtime.block_on(async {
                let ctx = datafusion::execution::context::SessionContext::new();
                ctx.register_batch("t", batch.inner.clone()).unwrap();
                let df = ctx.table("t").await.unwrap();
                let out = df.filter(expr).unwrap().collect().await.unwrap();
                ctx.deregister_table("t").unwrap();
                out
            });
            found.extend(batches.into_iter().map(|inner| Batch { inner }));
        }
    }
    let refs: Vec<&Batch> = found.iter().collect();
    IngestService::query(&refs).unwrap().hits
}

#[test]
fn stamping_puts_the_timestamp_into_the_record() {
    let (stamp, record) = stamp_record(json(r#"{"a": 1, "timestamp": "2024-01-01T00:30:00Z", "z": 2}"#), 7).unwrap();
    assert_eq!(stamp, 1_704_069_000_000_000);
    assert_eq!(
        record,
        Json::Object(vec![
            ("a".to_string(), Json::Int(1)),
            ("timestamp".to_string(), Json::Int(1_704_069_000_000_000)),
            ("z".to_string(), Json::Int(2)),
        ])
    );
    let (stamp, record) = stamp_record(json(r#"{"a": 1}"#), 7).unwrap();
    assert_eq!(stamp, 7);
    assert_eq!(
        record,
        Json::Object(vec![
            ("a".to_string(), Json::Int(1)),
            ("timestamp".to_string(), Json::Int(7)),
        ])
    );
}

#[test]
fn stamping_refuses_what_is_no_record_or_has_no_readable_time() {
    for text in [r#"1"#, r#"[{"a":1}]"#, r#""x""#, r#"{"timestamp": true}"#, r#"{"timestamp": "soon"}"#] {
        assert_eq!(stamp_record(json(text), 7).unwrap_err().kind, ErrorKind::BadInput, "{}", text);
    }
}

#[test]
fn process_bulk_item_reads_the_clock_where_the_time_is_missing() {
    let s = service();
    let before = chrono::Utc::now().timestamp_micros();
    let (stamp, record) = s.process_bulk_item(json(r#"{"a": 1, "b": 1}"#)).unwrap();
    let after = chrono::Utc::now().timestamp_micros();
    assert!(before <= stamp && stamp <= after);
    assert_eq!(get_member(&record, "timestamp"), Some(&Json::Int(stamp)));
    let (stamp, _) = s.process_bulk_item(json(r#"{"timestamp": 1704067200}"#)).unwrap();
    assert_eq!(stamp, 1_704_067_200_000_000);
}

#[test]
fn partition_key_is_the_hour_in_utc() {
    let s = service();
    assert_eq!(s.get_partition_key(0), "1970-01-01-00");
    assert_eq!(s.get_partition_key(1_704_067_200_000_000), "2024-01-01-00");
    assert_eq!(s.get_partition_key(1_704_070_799_999_999), "2024-01-01-00");
    assert_eq!(s.get_partition_key(1_704_070_800_000_000), "2024-01-01-01");
    assert_eq!(s.get_partition_key(-1), "1969-12-31-23");
    assert_eq!(partition_key_of(1_709_251_199_000_000), "2024-02-29-23");
    assert_eq!(partition_key_of(9_223_372_036_854_775), "2262-04-11-23");
    assert_eq!(checked_partition_key(9_223_372_036_854_775), Some("2262-04-11-23".to_string()));
    assert_eq!(checked_partition_key(9_223_372_036_854_776), None);
    assert_eq!(checked_partition_key(-9_223_372_036_854_775), Some("1677-09-21-00".to_string()));
    assert_eq!(checked_partition_key(-9_223_372_036_854_776), None);
}

#[test]
fn paths_are_made_of_table_partition_and_segment() {
    let s = service();
    assert_eq!(s.partition_path("logs", "2024-01-01-00"), "logs/2024-01-01-00");
    assert_eq!(s.parquet_file_path("logs/2024-01-01-00", "seg"), "logs/2024-01-01-00/seg.parquet");
    assert_eq!(s.schema_file_path("logs/2024-01-01-00", "seg"), "logs/2024-01-01-00/seg.schema");
    assert_eq!(s.storage().root(), "data");
    assert_eq!(s.storage().path_of("a/b.parquet"), "data/a/b.parquet");
}

#[test]
fn ids_differ() {
    let mut ids = IdGenerator::new("p");
    let a = ids.gen_id().unwrap();
    let b = ids.gen_id().unwrap();
    let c = ids.gen_id().unwrap();
    assert_eq!((a.as_str(), b.as_str(), c.as_str()), ("p-0", "p-1", "p-2"));
    let mut seen = std::collections::HashSet::new();
    for _ in 0..1000 {
        assert!(seen.insert(ids.gen_id().unwrap()));
    }
}

#[test]
fn records_are_sorted_by_hour_in_the_order_of_first_occurrence() {
    let items = vec![
        (1_704_070_800_000_000, json(r#"{"n": 1}"#)), // 01h
        (1_704_067_200_000_000, json(r#"{"n": 2}"#)), // 00h
        (1_704_074_399_000_000, json(r#"{"n": 3}"#)), // 01h
        (1_704_067_200_000_001, json(r#"{"n": 4}"#)), // 00h
        (0, json(r#"{"n": 5}"#)),
    ];
    let partitions = partition_stamped(items).unwrap();
    let keys: Vec<&str> = partitions.iter().map(|p| p.key.as_str()).collect();
    assert_eq!(keys, vec!["2024-01-01-01", "2024-01-01-00", "1970-01-01-00"]);
    assert_eq!(partitions[0].stamps, vec![1_704_070_800_000_000, 1_704_074_399_000_000]);
    assert_eq!(partitions[0].records, vec![json(r#"{"n": 1}"#), json(r#"{"n": 3}"#)]);
    assert_eq!(partitions[1].stamps, vec![1_704_067_200_000_000, 1_704_067_200_000_001]);
    assert_eq!(partitions[1].records, vec![json(r#"{"n": 2}"#), json(r#"{"n": 4}"#)]);
    assert_eq!(partitions[2].records, vec![json(r#"{"n": 5}"#)]);
    assert!(partition_stamped(vec![]).unwrap().is_empty());
}

#[test]
fn a_timestamp_beyond_the_span_of_nanoseconds_is_refused() {
    let items = vec![(0, json("{}")), (9_223_372_036_854_776, json("{}"))];
    assert_eq!(partition_stamped(items).unwrap_err().kind, ErrorKind::BadInput);
    let records = vec![json(r#"{"timestamp": 9223372036854776}"#)];
    assert_eq!(partition_records_at(records, 0).unwrap_err().kind, ErrorKind::BadInput);
}

#[test]
fn two_records_of_one_hour_give_one_segment_that_spans_both() {
    let mut s = service();
    let body = br#"[{"a": 1, "timestamp": "2024-01-01T00:00:00Z"}, {"a": 2, "timestamp": "2024-01-01T00:30:00Z"}]"#;
    let partitions = s.ingest(body).unwrap();
    assert_eq!(partitions.len(), 1);
    assert_eq!(partitions[0].key, "2024-01-01-00");
    let files = s.write_partition("logs", &partitions[0]).unwrap();
    assert_eq!(files.meta.partition(), "2024-01-01-00");
    assert_eq!(files.meta.min_timestamp(), 1_704_067_200_000_000);
    assert_eq!(files.meta.max_timestamp(), 1_704_069_000_000_000);
    assert_eq!(files.dir, "logs/2024-01-01-00");
    assert_eq!(files.parquet_path, format!("logs/2024-01-01-00/{}.parquet", files.meta.segment()));
    assert_eq!(files.schema_path, format!("logs/2024-01-01-00/{}.schema", files.meta.segment()));
    assert_eq!(files.meta.segment(), "segment-0");
    // The key of the partition is that of both ends of the span.
    assert_eq!(s.get_partition_key(files.meta.min_timestamp()), files.meta.partition());
    assert_eq!(s.get_partition_key(files.meta.max_timestamp()), files.meta.partition());
    let schema: arrow_schema::Schema = serde_json::from_slice(&files.schema).unwrap();
    let batches = read_segment(&files);
    assert_eq!(batches.len(), 1);
    assert_eq!(batches[0].inner.num_rows(), 2);
    assert_eq!(batches[0].inner.schema().as_ref(), &schema);
    assert_eq!(
        melt::fusion::compute::compute_min_max(&batches[0], "timestamp"),
        Some((1_704_067_200_000_000, 1_704_069_000_000_000))
    );
    // Nothing is in the catalog until the caller adds it.
    assert!(s.meta().query_files("logs", None, None).is_empty());
    s.add_file("logs", files.meta.duplicate());
    assert_eq!(s.meta().query_files("logs", None, None), vec![files.meta]);
}

#[test]
fn records_of_two_hours_give_two_segments_with_fresh_ids() {
    let mut s = IngestService::with_id_prefix(Storage::new("root"), "x7");
    let body = b"{\"a\": 1, \"timestamp\": 1704067200}\n{\"a\": 2, \"timestamp\": 1704070800}\n\n{\"a\": 3, \"timestamp\": 1704067201}\n";
    let partitions = s.bulk(body).unwrap();
    assert_eq!(partitions.len(), 2);
    let first = s.write_partition("t", &partitions[0]).unwrap();
    let second = s.write_partition("t", &partitions[1]).unwrap();
    assert_eq!(first.meta.segment(), "x7-0");
    assert_eq!(second.meta.segment(), "x7-1");
    assert_eq!(first.meta.partition(), "2024-01-01-00");
    assert_eq!(second.meta.partition(), "2024-01-01-01");
    assert_eq!((first.meta.min_timestamp(), first.meta.max_timestamp()), (1_704_067_200_000_000, 1_704_067_201_000_000));
    assert_eq!((second.meta.min_timestamp(), second.meta.max_timestamp()), (1_704_070_800_000_000, 1_704_070_800_000_000));
}

#[test]
fn a_body_that_is_no_json_and_a_record_that_is_nested_are_refused() {
    let mut s = service();
    assert_eq!(s.bulk(b"{\"a\": 1}\n{").unwrap_err().kind, ErrorKind::BadInput);
    assert_eq!(s.ingest(b"[1, 2]").unwrap_err().kind, ErrorKind::BadInput);
    let partitions = s.ingest(br#"{"a": {"b": 1}, "timestamp": 1704067200}"#).unwrap();
    assert_eq!(s.write_partition("t", &partitions[0]).unwrap_err().kind, ErrorKind::BadInput);
    // The failed attempt took no id.
    let partitions = s.ingest(br#"{"a": 1, "timestamp": 1704067200}"#).unwrap();
    assert_eq!(s.write_partition("t", &partitions[0]).unwrap().meta.segment(), "segment-0");
    let empty = Partition { key: "2024-01-01-00".to_string(), stamps: vec![], records: vec![] };
    assert_eq!(s.write_partition("t", &empty).unwrap_err().kind, ErrorKind::Internal);
}

#[test]
fn search_plan_lists_the_segments_in_range_in_catalog_order() {
    let mut s = service();
    let file = |p: &str, seg: &str, min, max| {
        melt::meta::FileMeta::new(p.to_string(), seg.to_string(), min, max)
    };
    s.add_file("logs", file("2024-01-01-00", "s0", 0, 99));
    s.add_file("logs", file("2024-01-01-01", "s1", 100, 199));
    s.add_file("other", file("2024-01-01-01", "s2", 100, 199));
    s.add_file("logs", file("2024-01-01-02", "s3", 200, 299));
    let plan = s.query_("logs", "a==1", Some(150), None).unwrap();
    assert_eq!(
        plan.files,
        vec![
            "data/logs/2024-01-01-01/s1.parquet".to_string(),
            "data/logs/2024-01-01-02/s3.parquet".to_string(),
        ]
    );
    assert_eq!(plan.query.min_ts(), Some(150));
    assert_eq!(plan.query.max_ts(), None);
    assert!(s.query_("none", "a==1", None, None).unwrap().files.is_empty());
    assert_eq!(s.query_("logs", "a==", None, None).unwrap_err().kind, ErrorKind::UnparseableQuery);
}

#[test]
fn test_ingest_schema() {
    let data = r#"{"a": 1, "b": 1}"#;
    let name = "test";
    let mut s = service();
    let mut stored = Vec::new();
    let partitions = s.bulk(data.as_bytes()).unwrap();
    ingest_all(&mut s, name, partitions, &mut stored);
    println!("write success");
    let hits = search(&s, name, "a==1", None, None, &stored);
    assert_eq!(hits.len(), 1);
    assert_eq!(get_member(&hits[0], "a"), Some(&Json::Int(1)));
    assert_eq!(get_member(&hits[0], "b"), Some(&Json::Int(1)));
    match get_member(&hits[0], "timestamp") {
        Some(Json::Int(stamp)) => assert_eq!(*stamp, stored[0].1.meta.min_timestamp()),
        other => panic!("no timestamp: {:?}", other),
    }
}

fn gen_test_data(prefix: &str) -> Vec<Json> {
    let mut datas = vec![];
    for i in 1..200 {
        datas.push(Json::Object(vec![
            ("a".to_string(), Json::Int(i)),
            ("b".to_string(), Json::String(format!("{prefix}-{i}"))),
        ]));
    }
    datas
}

#[test]
fn test_ingest_service() {
    let mut s = service();
    let mut stored = Vec::new();
    let table_name = "test";
    let partitions = s.partition_records(gen_test_data("f")).unwrap();
    ingest_all(&mut s, table_name, partitions, &mut stored);
    let partitions = s.partition_records(gen_test_data("t")).unwrap();
    ingest_all(&mut s, table_name, partitions, &mut stored);

    let plan = s.query_(table_name, "a==1", None, None).unwrap();
    assert_eq!(plan.files.len(), 2);
    let json = search(&s, table_name, "a==1", None, None, &stored);
    assert_eq!(json.len(), 2);
    assert_eq!(get_member(&json[0], "a"), Some(&Json::Int(1)));
    assert_eq!(get_member(&json[1], "a"), Some(&Json::Int(1)));
    assert_eq!(get_member(&json[0], "b"), Some(&Json::String("f-1".to_string())));
    assert_eq!(get_member(&json[1], "b"), Some(&Json::String("t-1".to_string())));
}

fn timed_test_data(prefix: &str) -> String {
    let mut datas = vec![];
    for i in 1..200 {
        datas.push(format!(r#"{{"a": {}, "b": "{}-{}", "timestamp": 1704067200}}"#, i, prefix, i));
    }
    format!("[{}]", datas.join(","))
}

#[test]
fn search_prunes_by_time_and_compares_as_text() {
    let mut s = service();
    let mut stored = Vec::new();
    let table_name = "test";
    let partitions = s.ingest(timed_test_data("f").as_bytes()).unwrap();
    ingest_all(&mut s, table_name, partitions, &mut stored);
    let partitions = s.ingest(timed_test_data("t").as_bytes()).unwrap();
    ingest_all(&mut s, table_name, partitions, &mut stored);
    assert_eq!(stored.len(), 2);
    assert_eq!(search(&s, table_name, "a==1", None, None, &stored).len(), 2);
    // Time bounds prune by the catalog and filter by the rows.
    assert_eq!(search(&s, table_name, "a==1", Some(1_704_067_200_000_001), None, &stored).len(), 0);
    assert_eq!(search(&s, table_name, "a==199", None, Some(1_704_067_200_000_000), &stored).len(), 2);
    // The literal is compared as text: "2" and "20" to "99" stand behind "198" as well.
    assert_eq!(search(&s, table_name, "a>=198", None, None, &stored).len(), 180);
}

#[test]
fn rows_that_hold_nothing_are_left_out_of_the_answer() {
    let values = vec![json(r#"{"a": 1}"#), json(r#"{"a": null}"#), json(r#"{"a": 3}"#)];
    let schema = melt::fusion::schema::infer_schema(&values).unwrap();
    let batch = melt::fusion::recordbatch::json_to_recordbatch(&schema, &values).unwrap();
    let all = melt::fusion::recordbatch::recordbatch_to_jsons(&[&batch]).unwrap();
    assert_eq!(all, vec![json(r#"{"a": 1}"#), json("{}"), json(r#"{"a": 3}"#)]);
    let response = IngestService::query(&[&batch, &batch]).unwrap();
    assert_eq!(
        response.hits,
        vec![json(r#"{"a": 1}"#), json(r#"{"a": 3}"#), json(r#"{"a": 1}"#), json(r#"{"a": 3}"#)]
    );
    assert!(IngestService::query(&[]).unwrap().hits.is_empty());
}

#[test]
fn ingest_run_writes_the_partitions_in_order_and_ends_on_a_failure() {
    let mut s = service();
    let body = br#"[{"a": 1, "timestamp": 1704067200}, {"a": {"b": 1}, "timestamp": 1704070800}, {"a": 3, "timestamp": 1704074400}]"#;
    let partitions = s.ingest(body).unwrap();
    assert_eq!(partitions.len(), 3);
    let mut run = IngestRun::new("logs", partitions);
    let first = run.next_segment(&mut s).unwrap().unwrap();
    assert_eq!(first.meta.partition(), "2024-01-01-00");
    run.stored(&mut s, first.meta.duplicate());
    assert!(!run.has_failed());
    // The second partition holds a nested record: its segment cannot be made.
    let second = run.next_segment(&mut s).unwrap();
    assert_eq!(second.unwrap_err().kind, ErrorKind::BadInput);
    assert!(run.has_failed());
    // The third partition is not written, and the first stays in the catalog.
    assert!(run.next_segment(&mut s).is_none());
    assert_eq!(s.meta().query_files("logs", None, None), vec![first.meta]);
}

#[test]
fn ingest_run_ends_where_the_caller_fails() {
    let mut s = service();
    let body = b"{\"a\": 1, \"timestamp\": 1704067200}\n{\"a\": 2, \"timestamp\": 1704070800}";
    let partitions = s.bulk(body).unwrap();
    let mut run = IngestRun::new("logs", partitions);
    let first = run.next_segment(&mut s).unwrap().unwrap();
    assert_eq!(first.meta.segment(), "segment-0");
    run.fail();
    assert!(run.has_failed());
    assert!(run.next_segment(&mut s).is_none());
    assert!(s.meta().query_files("logs", None, None).is_empty());
    let mut none = IngestRun::new("logs", vec![]);
    assert!(none.next_segment(&mut s).is_none());
    assert!(!none.has_failed());
}

#[test]
fn a_new_service_takes_its_id_prefix_from_the_clock() {
    let before = chrono::Utc::now().timestamp_micros();
    let mut s = IngestService::new(Storage::new("data"));
    let after = chrono::Utc::now().timestamp_micros();
    assert_eq!(s.storage().root(), "data");
    assert!(s.meta().query_files("t", None, None).is_empty());
    let partitions = s.ingest(br#"[{"a": 1, "timestamp": 1704067200}, {"a": 2, "timestamp": 1704070800}]"#).unwrap();
    let first = s.write_partition("t", &partitions[0]).unwrap();
    let second = s.write_partition("t", &partitions[1]).unwrap();
    let (prefix, count) = first.meta.segment().rsplit_once('-').unwrap();
    assert_eq!(count, "0");
    let made: i64 = prefix.strip_prefix("segment").unwrap().parse().unwrap();
    assert!(before <= made && made <= after);
    assert_eq!(second.meta.segment(), format!("{}-1", prefix));
}

#[test]
fn a_partition_whose_timestamps_are_not_those_of_its_records_is_refused() {
    let mut s = service();
    let record = || json(r#"{"a": 1, "timestamp": 1704067200000000}"#);
    let key = || "2024-01-01-00".to_string();
    let good = Partition { key: key(), stamps: vec![1_704_067_200_000_000], records: vec![record()] };
    assert!(melt::ingest::stamps_match_records(&good));
    let other = Partition { key: key(), stamps: vec![1_704_067_200_000_001], records: vec![record()] };
    let fewer = Partition { key: key(), stamps: vec![], records: vec![record()] };
    let more = Partition {
        key: key(),
        stamps: vec![1_704_067_200_000_000, 1_704_067_200_000_000],
        records: vec![record()],
    };
    let bare = Partition { key: key(), stamps: vec![5], records: vec![json(r#"{"a": 1}"#)] };
    let text = Partition {
        key: key(),
        stamps: vec![5],
        records: vec![json(r#"{"a": 1, "timestamp": "5"}"#)],
    };
    for broken in [other, fewer, more, bare, text] {
        assert!(!melt::ingest::stamps_match_records(&broken));
        assert_eq!(s.write_partition("t", &broken).unwrap_err().kind, ErrorKind::Internal);
    }
    // Timestamps that lie in another hour than the key names are refused as well.
    let elsewhere = Partition {
        key: "2024-01-01-01".to_string(),
        stamps: vec![1_704_067_200_000_000],
        records: vec![record()],
    };
    assert!(melt::ingest::stamps_match_records(&elsewhere));
    assert_eq!(s.write_partition("t", &elsewhere).unwrap_err().kind, ErrorKind::Internal);
    let two_hours = Partition {
        key: key(),
        stamps: vec![1_704_067_200_000_000, 1_704_070_800_000_000],
        records: vec![record(), json(r#"{"timestamp": 1704070800000000}"#)],
    };
    assert_eq!(s.write_partition("t", &two_hours).unwrap_err().kind, ErrorKind::Internal);
    // Nothing was taken from the ids by the attempts that failed.
    assert_eq!(s.write_partition("t", &good).unwrap().meta.segment(), "segment-0");
    // What partitioning makes carries its timestamps.
    let partitions = partition_records_at(vec![json(r#"{"a": 1}"#), json(r#"{"timestamp": "2024-01-01T05:00:00Z"}"#)], 7).unwrap();
    assert_eq!(partitions.len(), 2);
    assert!(partitions.iter().all(melt::ingest::stamps_match_records));
}

#[test]
fn a_body_that_cannot_be_decoded_fails_with_the_text_in_the_message() {
    let s = service();
    let err = s.bulk(b"{\"a\":1}\nnot-json\n{\"a\":2}").unwrap_err();
    assert_eq!(err.kind, ErrorKind::BadInput);
    assert!(err.to_string().ends_with(" in: not-json"), "{}", err.to_string());
    let err = s.ingest(b"[1, 2").unwrap_err();
    assert!(err.to_string().ends_with(" in: [1, 2"), "{}", err.to_string());
    let err = s.query_("t", "a==1 b", None, None).unwrap_err();
    assert_eq!(err.to_string(), "can not complete query : b");
}
