use melt::error::ErrorKind;
use melt::fusion::schema::{coerce_data_type, coerce_pair, infer_schema, merge_schema};
use melt::schema::{DataType, Field, MeltSchema};
use melt::utils::json::{decode, Json};

fn records(text: &str) -> Vec<Json> {
    match decode(text.as_bytes()).unwrap() {
        Json::Array(items) => items,
        other => vec![other],
    }
}

fn fields(schema: &MeltSchema) -> Vec<(String, DataType)> {
    schema.fields().iter().map(|f| (f.name().clone(), *f.data_type())).collect()
}

fn named(list: &[(&str, DataType)]) -> Vec<(String, DataType)> {
    list.iter().map(|(n, t)| (n.to_string(), *t)).collect()
}

#[test]
fn test_infer_schema() {
    let datas = records(r#"[{"a": 1, "b": "zhong", "c": 2}, {"a": "zhong", "b": 2, "d": 12.0}]"#);
    let schema = infer_schema(&datas).unwrap();
    println!("{:?}", schema);
    assert_eq!(schema.field_with_name("a").unwrap().data_type(), &DataType::Utf8);
    assert_eq!(schema.field_with_name("b").unwrap().data_type(), &DataType::Utf8);
    assert_eq!(schema.field_with_name("c").unwrap().data_type(), &DataType::Int64);
    assert_eq!(schema.field_with_name("d").unwrap().data_type(), &DataType::Float64);
}

#[test]
fn fields_come_in_the_order_of_first_occurrence_and_are_nullable() {
    let datas = records(r#"[{"b": 1, "a": true}, {"c": "x", "a": false}]"#);
    let schema = infer_schema(&datas).unwrap();
    // The decoder gives the members of an object ordered by name.
    assert_eq!(
        fields(&schema),
        named(&[("a", DataType::Boolean), ("b", DataType::Int64), ("c", DataType::Utf8)])
    );
    assert!(schema.fields().iter().all(|f| f.is_nullable()));
    assert!(schema.field_with_name("z").is_none());
}

#[test]
fn unification_follows_the_table() {
    let (boolean, int64, float64, utf8) =
        (DataType::Boolean, DataType::Int64, DataType::Float64, DataType::Utf8);
    let all = [boolean, int64, float64, utf8];
    for a in all {
        for b in all {
            let expected = if a == b {
                a
            } else if (a == int64 && b == float64) || (a == float64 && b == int64) {
                float64
            } else {
                utf8
            };
            assert_eq!(coerce_pair(a, b), expected);
            assert_eq!(coerce_pair(a, b), coerce_pair(b, a));
            for c in all {
                assert_eq!(coerce_pair(coerce_pair(a, b), c), coerce_pair(a, coerce_pair(b, c)));
            }
        }
    }
    assert_eq!(coerce_data_type(&vec![]), utf8);
    assert_eq!(coerce_data_type(&vec![int64]), int64);
    assert_eq!(coerce_data_type(&vec![int64, float64, int64]), float64);
    assert_eq!(coerce_data_type(&vec![int64, boolean, float64]), utf8);
}

#[test]
fn null_changes_nothing_and_alone_gives_text() {
    let datas = records(r#"[{"a": null, "b": null}, {"a": 1}, {"a": null}]"#);
    let schema = infer_schema(&datas).unwrap();
    assert_eq!(fields(&schema), named(&[("a", DataType::Int64), ("b", DataType::Utf8)]));
}

#[test]
fn a_whole_number_beyond_64_signed_bits_counts_as_a_float() {
    let datas = records(r#"[{"a": 18446744073709551615, "b": 9223372036854775807, "c": 1}, {"c": 2.5}]"#);
    let schema = infer_schema(&datas).unwrap();
    assert_eq!(
        fields(&schema),
        named(&[("a", DataType::Float64), ("b", DataType::Int64), ("c", DataType::Float64)])
    );
}

#[test]
fn no_records_give_no_fields() {
    assert_eq!(infer_schema(&[]).unwrap(), MeltSchema::new(vec![]));
    assert_eq!(infer_schema(&records("[{}]")).unwrap(), MeltSchema::new(vec![]));
}

#[test]
fn what_is_no_flat_record_is_refused() {
    for text in [r#"[1]"#, r#"[{"a":1}, "x"]"#, r#"[[{"a":1}]]"#, r#"[{"a":[1]}]"#, r#"[{"a":1},{"b":{"c":1}}]"#] {
        let err = infer_schema(&records(text)).unwrap_err();
        assert_eq!(err.kind, ErrorKind::BadInput, "{}", text);
    }
}

#[test]
fn merge_unifies_field_by_field() {
    let a = MeltSchema::new(vec![
        Field::new("x", DataType::Int64, true),
        Field::new("y", DataType::Boolean, false),
    ]);
    let b = MeltSchema::new(vec![
        Field::new("z", DataType::Utf8, true),
        Field::new("x", DataType::Float64, true),
        Field::new("y", DataType::Int64, true),
    ]);
    let merged = merge_schema(&[&a, &b]).unwrap();
    assert_eq!(
        fields(&merged),
        named(&[("x", DataType::Float64), ("y", DataType::Utf8), ("z", DataType::Utf8)])
    );
    assert!(merged.fields().iter().all(|f| f.is_nullable()));
    assert_eq!(merge_schema(&[]).unwrap(), MeltSchema::new(vec![]));
    assert_eq!(fields(&merge_schema(&[&b, &b]).unwrap()), fields(&b));
}

#[test]
fn inference_of_two_batches_is_the_merge_of_their_schemas() {
    let a = records(r#"[{"t": 1, "u": "x"}, {"v": true, "t": 2}]"#);
    let b = records(r#"[{"w": 1.5, "t": 2.5}, {"v": 3, "u": "y"}]"#);
    let both = records(r#"[{"t": 1, "u": "x"}, {"v": true, "t": 2}, {"w": 1.5, "t": 2.5}, {"v": 3, "u": "y"}]"#);
    let merged = merge_schema(&[&infer_schema(&a).unwrap(), &infer_schema(&b).unwrap()]).unwrap();
    assert_eq!(merged, infer_schema(&both).unwrap());
    assert_eq!(
        fields(&merged),
        named(&[
            ("t", DataType::Float64),
            ("u", DataType::Utf8),
            ("v", DataType::Utf8),
            ("w", DataType::Float64)
        ])
    );
}

#[test]
fn a_field_of_nulls_on_one_side_breaks_the_merge_law() {
    let a = records(r#"[{"t": null}]"#);
    let b = records(r#"[{"t": 1}]"#);
    let both = records(r#"[{"t": null}, {"t": 1}]"#);
    let merged = merge_schema(&[&infer_schema(&a).unwrap(), &infer_schema(&b).unwrap()]).unwrap();
    assert_eq!(fields(&merged), named(&[("t", DataType::Utf8)]));
    assert_eq!(fields(&infer_schema(&both).unwrap()), named(&[("t", DataType::Int64)]));
}

#[test]
fn schema_is_written_as_json() {
    let schema = infer_schema(&records(r#"[{"a": 1, "b": "x"}]"#)).unwrap();
    let text = schema.serialize().unwrap();
    let value: serde_json::Value = serde_json::from_slice(&text).unwrap();
    let names: Vec<&str> = value["fields"]
        .as_array()
        .unwrap()
        .iter()
        .map(|f| f["name"].as_str().unwrap())
        .collect();
    assert_eq!(names, vec!["a", "b"]);
    assert_eq!(value["fields"][0]["data_type"], serde_json::Value::from("Int64"));
    assert_eq!(value["fields"][1]["data_type"], serde_json::Value::from("Utf8"));
    assert_eq!(value["fields"][0]["nullable"], serde_json::Value::from(true));
    let back: arrow_schema::Schema = serde_json::from_slice(&text).unwrap();
    assert_eq!(back.field(1).data_type(), &arrow_schema::DataType::Utf8);
}

#[test]
fn records_seen_twice_give_the_same_schema() {
    let once = records(r#"[{"a": 1, "n": null}, {"a": 2.5, "b": "x", "c": true}]"#);
    let twice = records(
        r#"[{"a": 1, "n": null}, {"a": 2.5, "b": "x", "c": true}, {"a": 1, "n": null}, {"a": 2.5, "b": "x", "c": true}]"#,
    );
    assert_eq!(infer_schema(&twice).unwrap(), infer_schema(&once).unwrap());
}
