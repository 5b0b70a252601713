use jsontree::api::{append, merge, read};
use jsontree::chars::string2parsechar;
use jsontree::errors::ParseErrorKind;
use jsontree::parser::{parse_array, parse_json};
use jsontree::tree::{ParsedValue, ParsingItem};

fn stack(text: &str) -> Vec<jsontree::chars::ParseCharElt> {
    string2parsechar("test.json", text)
}

#[test]
fn tokenizer_strips_whitespace_and_positions() {
    let s = stack(" a\nb ");
    // The stack is reversed: the last element is the first character read.
    assert_eq!(s.len(), 2);
    assert_eq!(s[1].ch, 'a');
    assert_eq!(s[1].line, 0);
    assert_eq!(s[1].col, 1);
    assert_eq!(s[0].ch, 'b');
    assert_eq!(s[0].line, 1);
    assert_eq!(s[0].col, 0);
}

#[test]
fn tokenizer_empty_input() {
    let s = stack("");
    assert_eq!(s.len(), 0);
}

#[test]
fn nested_scenario_structure() {
    // The braced group parses as the single top entry's object value.
    let mut s = stack("{\"a\": \"x\", \"b\": [1, 2, {\"c\": \"y\"}]}");
    let doc = parse_json(&mut s).unwrap();
    assert_eq!(doc.len(), 1);
    assert_eq!(doc[0].key, "");
    let inner = match &doc[0].value {
        ParsedValue::Object(o) => o,
        _ => panic!("expected an object"),
    };
    assert_eq!(inner.len(), 2);
    assert_eq!(inner[0].key, "a");
    match &inner[0].value {
        ParsedValue::Value(t) => assert_eq!(t, "\"x\""),
        _ => panic!("expected a scalar"),
    }
    assert_eq!(inner[1].key, "b");
    let arr = match &inner[1].value {
        ParsedValue::Array(a) => a,
        _ => panic!("expected an array"),
    };
    assert_eq!(arr.len(), 3);
    match &arr[0] {
        ParsedValue::Value(t) => assert_eq!(t, "1"),
        _ => panic!("expected a scalar"),
    }
    match &arr[1] {
        ParsedValue::Value(t) => assert_eq!(t, "2"),
        _ => panic!("expected a scalar"),
    }
    let obj = match &arr[2] {
        ParsedValue::Object(o) => o,
        _ => panic!("expected an object"),
    };
    assert_eq!(obj.len(), 1);
    assert_eq!(obj[0].key, "c");
    match &obj[0].value {
        ParsedValue::Value(t) => assert_eq!(t, "\"y\""),
        _ => panic!("expected a scalar"),
    }
}

#[test]
fn nested_scenario_rendered() {
    let mut s = stack("{\"a\": \"x\", \"b\": [1, 2, {\"c\": \"y\"}]}");
    let out = read(&mut s).unwrap();
    let expected = "{\n    \"\": {\n        \"a\": \"x\",\n        \"b\": [\n            1,\n            2,\n            {\n                \"c\": \"y\"\n            }\n        ]\n    }\n}";
    assert_eq!(out, expected);
}

#[test]
fn mismatched_closing_brace_in_array() {
    let mut s = stack("{\"a\": [1,2}");
    let err = read(&mut s).unwrap_err();
    assert_eq!(err.kind, ParseErrorKind::MismatchedClosingBrace);
    let at = err.at.unwrap();
    assert_eq!(at.path, "test.json");
    assert_eq!(at.line, 0);
    assert_eq!(at.col, 10);
}

#[test]
fn mismatched_closing_bracket_at_object_level() {
    let mut s = stack("]{\"a\": [1,2]}");
    let err = read(&mut s).unwrap_err();
    assert_eq!(err.kind, ParseErrorKind::MismatchedClosingBracket);
    let at = err.at.unwrap();
    assert_eq!(at.line, 0);
    assert_eq!(at.col, 0);
}

#[test]
fn unterminated_array_is_an_error() {
    let mut s = stack("[1,2");
    let err = read(&mut s).unwrap_err();
    assert_eq!(err.kind, ParseErrorKind::UnexpectedEndOfInput);
    assert!(err.at.is_none());
    // Running out of input drains the whole stack.
    assert_eq!(s.len(), 0);
}

#[test]
fn unterminated_object_is_tolerated() {
    let mut s = stack("{\"a\": 1");
    let out = read(&mut s).unwrap();
    assert_eq!(out, "{\n    \"\": {\n        \"a\": 1\n    }\n}");
}

#[test]
fn missing_comma_after_object_value() {
    let mut s = stack("{\"a\": {\"b\": \"c\"} x}");
    let err = read(&mut s).unwrap_err();
    assert_eq!(err.kind, ParseErrorKind::MissingComma);
    let at = err.at.unwrap();
    assert_eq!(at.ch, 'x');
    assert_eq!(at.line, 0);
    assert_eq!(at.col, 17);
}

#[test]
fn error_position_counts_lines() {
    let mut s = stack("{\n ]}");
    let err = read(&mut s).unwrap_err();
    assert_eq!(err.kind, ParseErrorKind::MismatchedClosingBracket);
    let at = err.at.unwrap();
    assert_eq!(at.line, 1);
    assert_eq!(at.col, 1);
}

#[test]
fn parse_array_reads_to_the_closing_bracket() {
    // The array parser starts after the opening bracket, as its caller
    // consumes it.
    let mut s = stack("1, 2]");
    let vals = parse_array(&mut s).unwrap();
    assert_eq!(vals.len(), 2);
    match &vals[0] {
        ParsedValue::Value(t) => assert_eq!(t, "1"),
        _ => panic!("expected a scalar"),
    }
}

#[test]
fn nested_arrays_are_spliced() {
    let mut s = stack("{\"a\": [[1,2],3]}");
    let doc = parse_json(&mut s).unwrap();
    let inner = match &doc[0].value {
        ParsedValue::Object(o) => o,
        _ => panic!("expected an object"),
    };
    let arr = match &inner[0].value {
        ParsedValue::Array(a) => a,
        _ => panic!("expected an array"),
    };
    assert_eq!(arr.len(), 3);
    match &arr[0] {
        ParsedValue::Value(t) => assert_eq!(t, "1"),
        _ => panic!("expected a scalar"),
    }
    match &arr[2] {
        ParsedValue::Value(t) => assert_eq!(t, "3"),
        _ => panic!("expected a scalar"),
    }
}

#[test]
fn trailing_empty_array_slot_is_dropped() {
    let mut s = stack("{\"a\": [1,2,]}");
    let doc = parse_json(&mut s).unwrap();
    let inner = match &doc[0].value {
        ParsedValue::Object(o) => o,
        _ => panic!("expected an object"),
    };
    let arr = match &inner[0].value {
        ParsedValue::Array(a) => a,
        _ => panic!("expected an array"),
    };
    assert_eq!(arr.len(), 2);
}

#[test]
fn append_two_documents() {
    let mut a = stack("{\"a\":\"1\"}");
    let mut b = stack("{\"b\":\"2\"}");
    let out = append(&mut a, &mut b).unwrap();
    let expected = "{\n    \"\": {\n        \"a\": \"1\"\n    },\n    \"\": {\n        \"b\": \"2\"\n    }\n}";
    assert_eq!(out, expected);
}

#[test]
fn append_error_comes_from_first_failing_input() {
    let mut a = stack("[1");
    let mut b = stack("{\"b\":\"2\"}");
    let err = append(&mut a, &mut b).unwrap_err();
    assert_eq!(err.kind, ParseErrorKind::UnexpectedEndOfInput);
    // The second input is not parsed and stays untouched.
    assert_eq!(b.len(), 9);
    let mut a2 = stack("{\"a\":\"1\"}");
    let mut b2 = stack("]");
    let err2 = append(&mut a2, &mut b2).unwrap_err();
    assert_eq!(err2.kind, ParseErrorKind::MismatchedClosingBracket);
}

#[test]
fn merge_is_concatenation_in_order() {
    let mut a = stack("\"a\": 1, \"b\": 2");
    let mut b = stack("\"c\": 3");
    let da = parse_json(&mut a).unwrap();
    let db = parse_json(&mut b).unwrap();
    let m = merge(da, db);
    assert_eq!(m.len(), 3);
    assert_eq!(m[0].key, "a");
    assert_eq!(m[1].key, "b");
    assert_eq!(m[2].key, "c");
}

#[test]
fn entry_equality_goes_by_key_alone() {
    let x = ParsingItem { key: "k".to_owned(), value: ParsedValue::Value("1".to_owned()) };
    let y = ParsingItem { key: "k".to_owned(), value: ParsedValue::Value("2".to_owned()) };
    let z = ParsingItem { key: "other".to_owned(), value: ParsedValue::Value("1".to_owned()) };
    assert!(x == y);
    assert!(x != z);
}
