use llm_gateway::json::{check_json_number, parse_text, to_text, Json};

#[test]
fn parse_literals_and_numbers() {
    match parse_text("null") {
        Some(Json::Null) => {}
        _ => panic!("null"),
    }
    match parse_text("true") {
        Some(Json::Bool(true)) => {}
        _ => panic!("true"),
    }
    match parse_text("false") {
        Some(Json::Bool(false)) => {}
        _ => panic!("false"),
    }
    match parse_text("-1.5e+10") {
        Some(Json::Num(t)) => assert_eq!(t, "-1.5e+10"),
        _ => panic!("number"),
    }
    match parse_text("0") {
        Some(Json::Num(t)) => assert_eq!(t, "0"),
        _ => panic!("zero"),
    }
}

#[test]
fn parse_nested_structure() {
    let v = parse_text("{\"a\":[1,true,null],\"b\":{\"c\":\"x\"}}").expect("parses");
    match v {
        Json::Obj(members) => {
            assert_eq!(members.len(), 2);
            assert_eq!(members[0].0, "a");
            match &members[0].1 {
                Json::Arr(items) => {
                    assert_eq!(items.len(), 3);
                    assert!(matches!(items[1], Json::Bool(true)));
                    assert!(matches!(items[2], Json::Null));
                }
                _ => panic!("a is an array"),
            }
            assert_eq!(members[1].0, "b");
            match &members[1].1 {
                Json::Obj(inner) => {
                    assert_eq!(inner.len(), 1);
                    assert_eq!(inner[0].0, "c");
                    match &inner[0].1 {
                        Json::Str(s) => assert_eq!(s, "x"),
                        _ => panic!("c is a string"),
                    }
                }
                _ => panic!("b is an object"),
            }
        }
        _ => panic!("top is an object"),
    }
}

#[test]
fn parse_string_escapes() {
    let v = parse_text("\"a\\nb\\tc\\u0041\\\\d\\\"e\\/f\"").expect("parses");
    match v {
        Json::Str(s) => assert_eq!(s, "a\nb\tcA\\d\"e/f"),
        _ => panic!("string"),
    }
}

#[test]
fn parse_surrogate_pair() {
    let v = parse_text("\"\\uD83D\\uDE00\"").expect("parses");
    match v {
        Json::Str(s) => assert_eq!(s, "\u{1F600}"),
        _ => panic!("string"),
    }
}

#[test]
fn parse_rejects_lone_surrogate() {
    assert!(parse_text("\"\\uD83D\"").is_none());
    assert!(parse_text("\"\\uDE00\"").is_none());
}

#[test]
fn parse_rejects_malformed_text() {
    assert!(parse_text("").is_none());
    assert!(parse_text("{} x").is_none());
    assert!(parse_text("{\"a\":}").is_none());
    assert!(parse_text("[1,]").is_none());
    assert!(parse_text("\"ab").is_none());
    assert!(parse_text("\"a\\qb\"").is_none());
    assert!(parse_text("01").is_none());
    assert!(parse_text("1.").is_none());
    assert!(parse_text("nul").is_none());
}

#[test]
fn parse_tolerates_whitespace() {
    let v = parse_text(" \t\r\n{ \"a\" : [ 1 , 2 ] } \n").expect("parses");
    match v {
        Json::Obj(members) => {
            assert_eq!(members.len(), 1);
            match &members[0].1 {
                Json::Arr(items) => assert_eq!(items.len(), 2),
                _ => panic!("array"),
            }
        }
        _ => panic!("object"),
    }
}

#[test]
fn serialize_exact_text() {
    let v = Json::Obj(vec![
        (
            "a".to_string(),
            Json::Arr(vec![
                Json::Num("1".to_string()),
                Json::Bool(true),
                Json::Null,
                Json::Str("x\ny".to_string()),
            ]),
        ),
        ("b".to_string(), Json::Str("q\"z\\w".to_string())),
    ]);
    assert_eq!(to_text(&v), "{\"a\":[1,true,null,\"x\\ny\"],\"b\":\"q\\\"z\\\\w\"}");
}

#[test]
fn serialize_escapes_control_chars() {
    let v = Json::Str("\u{1}\u{8}\u{c}\u{1f}".to_string());
    assert_eq!(to_text(&v), "\"\\u0001\\b\\f\\u001f\"");
}

#[test]
fn round_trip_serialize_parse() {
    let v = Json::Obj(vec![
        ("list".to_string(), Json::Arr(vec![Json::Num("-2.5".to_string()), Json::Str("héllo \u{1F600}".to_string())])),
        ("empty".to_string(), Json::Obj(vec![])),
    ]);
    let text = to_text(&v);
    let back = parse_text(&text).expect("round trip parses");
    assert_eq!(to_text(&back), text);
}

#[test]
fn json_number_check() {
    assert!(check_json_number("0"));
    assert!(check_json_number("-12.75"));
    assert!(check_json_number("1e9"));
    assert!(check_json_number("2.5E-3"));
    assert!(!check_json_number(""));
    assert!(!check_json_number("01"));
    assert!(!check_json_number("1."));
    assert!(!check_json_number("NaN"));
    assert!(!check_json_number("inf"));
    assert!(!check_json_number("1,5"));
    assert!(!check_json_number(" 1"));
}
