use melt::error::ErrorKind;
use melt::utils::json::{decode, get_member, parse_json, parse_lines, Json};

fn number(text: &str) -> serde_json::Number {
    text.parse().unwrap()
}

#[test]
fn decode_reads_every_kind_of_value() {
    let v = decode(br#"{"n":null,"t":true,"i":-3,"u":18446744073709551615,"f":1.5,"s":"x","a":[1,"2"],"o":{"k":false}}"#).unwrap();
    let expected = Json::Object(vec![
        ("a".to_string(), Json::Array(vec![Json::Int(1), Json::String("2".to_string())])),
        ("f".to_string(), Json::Float(number("1.5"))),
        ("i".to_string(), Json::Int(-3)),
        ("n".to_string(), Json::Null),
        ("o".to_string(), Json::Object(vec![("k".to_string(), Json::Bool(false))])),
        ("s".to_string(), Json::String("x".to_string())),
        ("t".to_string(), Json::Bool(true)),
        ("u".to_string(), Json::UInt(18446744073709551615)),
    ]);
    assert_eq!(v, expected);
}

#[test]
fn decode_rejects_what_is_no_json() {
    for text in ["", "{", "{\"a\":}", "[1,]", "nul", "{\"a\":1} x"] {
        let err = decode(text.as_bytes()).unwrap_err();
        assert_eq!(err.kind, ErrorKind::BadInput, "{:?}", text);
        assert!(err.to_string().contains(text));
    }
}

#[test]
fn get_member_finds_the_first_of_a_name() {
    let v = Json::Object(vec![
        ("a".to_string(), Json::Int(1)),
        ("b".to_string(), Json::Int(2)),
        ("a".to_string(), Json::Int(3)),
    ]);
    assert_eq!(get_member(&v, "a"), Some(&Json::Int(1)));
    assert_eq!(get_member(&v, "b"), Some(&Json::Int(2)));
    assert_eq!(get_member(&v, "c"), None);
    assert_eq!(get_member(&Json::Int(1), "a"), None);
}

#[test]
fn parse_lines_reads_one_value_from_each_line() {
    let body = b"{\"a\":1}\n\n{\"a\":2}\r\n[3]\n7";
    let records = parse_lines(body).unwrap();
    assert_eq!(
        records,
        vec![
            Json::Object(vec![("a".to_string(), Json::Int(1))]),
            Json::Object(vec![("a".to_string(), Json::Int(2))]),
            Json::Array(vec![Json::Int(3)]),
            Json::Int(7),
        ]
    );
}

#[test]
fn parse_lines_of_nothing_is_nothing() {
    assert_eq!(parse_lines(b"").unwrap(), Vec::<Json>::new());
    assert_eq!(parse_lines(b"\n\n\r\n").unwrap(), Vec::<Json>::new());
}

#[test]
fn parse_lines_fails_at_a_line_that_is_no_json() {
    let err = parse_lines(b"{\"a\":1}\n{\"a\":\n{\"a\":3}").unwrap_err();
    assert_eq!(err.kind, ErrorKind::BadInput);
    assert!(err.to_string().contains("{\"a\":"));
    // A carriage return that no line feed follows stays in its line, where JSON skips it.
    assert_eq!(parse_lines(b"1\r").unwrap(), vec![Json::Int(1)]);
}

#[test]
fn parse_json_gives_the_items_of_an_array() {
    let records = parse_json(br#"[{"a": 1, "b": 1},{"a": 2, "b": 1}]"#).unwrap();
    assert_eq!(records.len(), 2);
    assert_eq!(get_member(&records[1], "a"), Some(&Json::Int(2)));
    assert_eq!(parse_json(b"[]").unwrap(), Vec::<Json>::new());
}

#[test]
fn parse_json_gives_any_other_value_alone() {
    let records = parse_json(br#"{"a": [1, 2]}"#).unwrap();
    assert_eq!(
        records,
        vec![Json::Object(vec![(
            "a".to_string(),
            Json::Array(vec![Json::Int(1), Json::Int(2)])
        )])]
    );
    assert_eq!(parse_json(b"null").unwrap(), vec![Json::Null]);
    assert_eq!(parse_json(b"[").unwrap_err().kind, ErrorKind::BadInput);
}

#[test]
fn the_message_of_a_malformed_line_holds_the_line() {
    let err = parse_lines(b"{\"a\":1}\nnot-json\n{\"a\":2}").unwrap_err();
    assert_eq!(err.kind, ErrorKind::BadInput);
    let expected = serde_json::from_slice::<serde_json::Value>(b"not-json").unwrap_err();
    assert_eq!(err.to_string(), format!("{} in: not-json", expected));
    // The first malformed line is the one that is reported.
    let err = parse_lines(b"1\r\n{\r\n}\n").unwrap_err();
    assert!(err.to_string().ends_with(" in: {"), "{}", err.to_string());
    // Bytes that are no text are shown with the replacement character.
    let err = parse_lines(b"\xff").unwrap_err();
    assert!(err.to_string().ends_with(" in: \u{fffd}"), "{}", err.to_string());
    let err = decode(b"[1,").unwrap_err();
    let expected = serde_json::from_slice::<serde_json::Value>(b"[1,").unwrap_err();
    assert_eq!(err.to_string(), format!("{} in: [1,", expected));
    let err = parse_json(b"{\"a\" 1}").unwrap_err();
    assert!(err.to_string().ends_with(" in: {\"a\" 1}"), "{}", err.to_string());
}
