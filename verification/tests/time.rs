use melt::error::ErrorKind;
use melt::utils::json::Json;
use melt::utils::time::{
    checked_timestamp_micros, parse_i64_to_timestamp_micros, parse_str_to_time,
    parse_str_to_timestamp_micros, parse_timestamp, parse_timestamp_at,
    parse_timestamp_micro_from_value, BASE_TIME_MICROS, BASE_TIME_MILLIS, BASE_TIME_NANOS,
    BASE_TIME_SECONDS, MIN_RAW_TIMESTAMP,
};

fn float(value: f64) -> Json {
    Json::Float(serde_json::Number::from_f64(value).unwrap())
}

fn record(timestamp: Json) -> Json {
    Json::Object(vec![
        ("a".to_string(), Json::Int(1)),
        ("timestamp".to_string(), timestamp),
    ])
}

#[test]
fn thresholds_are_the_first_instant_of_1971() {
    let base = chrono::TimeZone::with_ymd_and_hms(&chrono::Utc, 1971, 1, 1, 0, 0, 0).unwrap();
    assert_eq!(BASE_TIME_SECONDS, base.timestamp());
    assert_eq!(BASE_TIME_MILLIS, base.timestamp_millis());
    assert_eq!(BASE_TIME_MICROS, base.timestamp_micros());
    assert_eq!(BASE_TIME_NANOS, base.timestamp_nanos_opt().unwrap());
}

#[test]
fn raw_numbers_are_read_by_their_size() {
    // 2024-01-01T00:00:00Z in each unit
    assert_eq!(parse_i64_to_timestamp_micros(1_704_067_200), 1_704_067_200_000_000);
    assert_eq!(parse_i64_to_timestamp_micros(1_704_067_200_000), 1_704_067_200_000_000);
    assert_eq!(parse_i64_to_timestamp_micros(1_704_067_200_000_000), 1_704_067_200_000_000);
    assert_eq!(parse_i64_to_timestamp_micros(1_704_067_200_000_000_999), 1_704_067_200_000_000);
}

#[test]
fn a_threshold_itself_is_read_in_the_smaller_unit() {
    assert_eq!(parse_i64_to_timestamp_micros(BASE_TIME_MILLIS), BASE_TIME_MILLIS * 1_000_000);
    assert_eq!(parse_i64_to_timestamp_micros(BASE_TIME_MILLIS + 1), (BASE_TIME_MILLIS + 1) * 1000);
    assert_eq!(parse_i64_to_timestamp_micros(BASE_TIME_MICROS), BASE_TIME_MICROS * 1000);
    assert_eq!(parse_i64_to_timestamp_micros(BASE_TIME_MICROS + 1), BASE_TIME_MICROS + 1);
    assert_eq!(parse_i64_to_timestamp_micros(BASE_TIME_NANOS), BASE_TIME_NANOS);
    assert_eq!(parse_i64_to_timestamp_micros(BASE_TIME_NANOS + 1), (BASE_TIME_NANOS + 1) / 1000);
    assert_eq!(parse_i64_to_timestamp_micros(i64::MAX), i64::MAX / 1000);
}

#[test]
fn small_and_negative_numbers_are_seconds() {
    assert_eq!(parse_i64_to_timestamp_micros(0), 0);
    assert_eq!(parse_i64_to_timestamp_micros(1), 1_000_000);
    assert_eq!(parse_i64_to_timestamp_micros(-5), -5_000_000);
    assert_eq!(
        parse_i64_to_timestamp_micros(MIN_RAW_TIMESTAMP),
        -9_223_372_036_854_000_000
    );
}

#[test]
fn checked_reading_refuses_what_does_not_fit() {
    assert_eq!(checked_timestamp_micros(MIN_RAW_TIMESTAMP - 1), None);
    assert_eq!(checked_timestamp_micros(i64::MIN), None);
    assert_eq!(checked_timestamp_micros(MIN_RAW_TIMESTAMP), Some(-9_223_372_036_854_000_000));
    assert_eq!(checked_timestamp_micros(1_704_067_200), Some(1_704_067_200_000_000));
}

#[test]
fn date_strings_are_read_in_four_formats() {
    let expected = 1_704_069_000_000_000; // 2024-01-01T00:30:00Z
    assert_eq!(parse_str_to_time("2024-01-01 00:30:00").unwrap(), expected);
    assert_eq!(parse_str_to_time("2024-01-01T00:30:00").unwrap(), expected);
    assert_eq!(parse_str_to_time("2024-01-01T00:30:00Z").unwrap(), expected);
    assert_eq!(parse_str_to_time("2024-01-01T02:30:00.000001+02:00").unwrap(), expected + 1);
    assert_eq!(parse_str_to_time("Mon, 1 Jan 2024 00:30:00 GMT").unwrap(), expected);
    assert_eq!(parse_str_to_time("Mon, 1 Jan 2024 01:30:00 +0100").unwrap(), expected);
}

#[test]
fn what_is_no_date_is_an_error() {
    for text in ["", "yesterday", "2024-01-01", "2024-13-01 00:00:00", "2024-01-01T00:30", "12:30"] {
        assert_eq!(parse_str_to_time(text).unwrap_err().kind, ErrorKind::BadInput, "{:?}", text);
    }
}

#[test]
fn strings_hold_numbers_or_dates() {
    assert_eq!(parse_str_to_timestamp_micros("1704067200").unwrap(), 1_704_067_200_000_000);
    assert_eq!(parse_str_to_timestamp_micros("+1704067200000").unwrap(), 1_704_067_200_000_000);
    assert_eq!(parse_str_to_timestamp_micros("-1").unwrap(), -1_000_000);
    assert_eq!(
        parse_str_to_timestamp_micros("2024-01-01T00:00:00Z").unwrap(),
        1_704_067_200_000_000
    );
    assert_eq!(
        parse_str_to_timestamp_micros("1960-01-01 00:00:00").unwrap(),
        -315_619_200_000_000
    );
    for text in ["", "abc", "-9223372036854775808", "99999999999999999999", "12 34"] {
        assert_eq!(
            parse_str_to_timestamp_micros(text).unwrap_err().kind,
            ErrorKind::BadInput,
            "{:?}",
            text
        );
    }
}

#[test]
fn values_hold_numbers_or_text() {
    assert_eq!(parse_timestamp_micro_from_value(&Json::Int(1_704_067_200)).unwrap(), 1_704_067_200_000_000);
    assert_eq!(parse_timestamp_micro_from_value(&Json::UInt(1_704_067_200_000)).unwrap(), 1_704_067_200_000_000);
    assert_eq!(parse_timestamp_micro_from_value(&float(1_704_067_200.75)).unwrap(), 1_704_067_200_000_000);
    assert_eq!(parse_timestamp_micro_from_value(&float(-1.5)).unwrap(), -1_000_000);
    assert_eq!(
        parse_timestamp_micro_from_value(&Json::String("2024-01-01 00:00:00".to_string())).unwrap(),
        1_704_067_200_000_000
    );
    // A whole number above i64::MAX lies above every threshold: nanoseconds.
    assert_eq!(
        parse_timestamp_micro_from_value(&Json::UInt(u64::MAX)).unwrap(),
        18_446_744_073_709_551
    );
    assert_eq!(
        parse_timestamp_micro_from_value(&Json::UInt(1 << 63)).unwrap(),
        9_223_372_036_854_775
    );
    assert_eq!(
        parse_timestamp_micro_from_value(&Json::Int(i64::MIN)).unwrap_err().kind,
        ErrorKind::BadInput
    );
    // A float beyond the range saturates at i64::MAX and is read as nanoseconds.
    assert_eq!(parse_timestamp_micro_from_value(&float(1e300)).unwrap(), i64::MAX / 1000);
    assert_eq!(parse_timestamp_micro_from_value(&float(-1e300)).unwrap_err().kind, ErrorKind::BadInput);
    for v in [Json::Null, Json::Bool(true), Json::Array(vec![]), Json::Object(vec![])] {
        assert_eq!(parse_timestamp_micro_from_value(&v).unwrap_err().kind, ErrorKind::BadInput);
    }
}

#[test]
fn a_record_without_timestamp_gets_the_given_instant() {
    let bare = Json::Object(vec![("a".to_string(), Json::Int(1))]);
    assert_eq!(parse_timestamp_at("timestamp", &bare, 42).unwrap(), 42);
    assert_eq!(parse_timestamp_at("timestamp", &Json::Int(5), 42).unwrap(), 42);
    assert_eq!(
        parse_timestamp_at("timestamp", &record(Json::Int(1_704_067_200)), 42).unwrap(),
        1_704_067_200_000_000
    );
    assert_eq!(
        parse_timestamp_at("timestamp", &record(Json::Null), 42).unwrap_err().kind,
        ErrorKind::BadInput
    );
}

#[test]
fn a_record_without_timestamp_gets_the_clock() {
    let before = chrono::Utc::now().timestamp_micros();
    let bare = Json::Object(vec![("a".to_string(), Json::Int(1))]);
    let stamp = parse_timestamp("timestamp", &bare).unwrap();
    let after = chrono::Utc::now().timestamp_micros();
    assert!(before <= stamp && stamp <= after);
    // The clock reads microseconds of the present: later than 2020, earlier than 2100.
    assert!(stamp > 1_577_836_800_000_000 && stamp < 4_102_444_800_000_000);
    assert_eq!(
        parse_timestamp("timestamp", &record(Json::String("1704067200".to_string()))).unwrap(),
        1_704_067_200_000_000
    );
}
