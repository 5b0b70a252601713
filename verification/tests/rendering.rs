use jsontree::api::read;
use jsontree::chars::{string2parsechar, ParseCharElt};
use jsontree::errors::{get_code_color, raise, ParseErrorKind};
use jsontree::parser::parse_json;
use jsontree::render::{int2indent, LocalToString};

fn stack(text: &str) -> Vec<ParseCharElt> {
    string2parsechar("test.json", text)
}

#[test]
fn indentation_is_four_spaces_per_level() {
    assert_eq!(int2indent(0), "");
    assert_eq!(int2indent(1), "    ");
    assert_eq!(int2indent(3), "            ");
}

#[test]
fn rendering_twice_is_byte_identical() {
    let mut s = stack("{\"a\": \"x\", \"b\": [1, {\"c\": 2}]}");
    let doc = parse_json(&mut s).unwrap();
    let first = doc.to_string(0, false);
    let second = doc.to_string(0, false);
    assert_eq!(first, second);
}

#[test]
fn entries_keep_declaration_order() {
    let mut s = stack("{\"z\": 1, \"a\": 2, \"m\": 3}");
    let out = read(&mut s).unwrap();
    let z = out.find("\"z\"").unwrap();
    let a = out.find("\"a\"").unwrap();
    let m = out.find("\"m\"").unwrap();
    assert!(z < a && a < m);
}

#[test]
fn empty_list_rendering_closes_its_bracket() {
    let mut s = stack("{\"a\": []}");
    let out = read(&mut s).unwrap();
    assert_eq!(out, "{\n    \"\": {\n        \"a\": [\n        ]\n    }\n}");
}

#[test]
fn empty_input_renders_one_empty_entry() {
    let mut s = stack("");
    let out = read(&mut s).unwrap();
    assert_eq!(out, "{\n    \"\": \n}");
}

#[test]
fn round_trip_reaches_a_fixed_shape() {
    // Re-reading a rendering nests the whole braced group one level down, as
    // the grammar treats every brace as a nested object.
    let mut s = stack("\"a\": 1");
    let once = read(&mut s).unwrap();
    assert_eq!(once, "{\n    \"a\": 1\n}");
    let mut s2 = stack(&once);
    let twice = read(&mut s2).unwrap();
    assert_eq!(twice, "{\n    \"\": {\n        \"a\": 1\n    }\n}");
}

#[test]
fn bare_entries_round_trip_entries_verbatim() {
    // Without an enclosing brace, entries parse and render directly.
    let mut s = stack("\"a\": 1, \"b\": xyz");
    let doc = parse_json(&mut s).unwrap();
    assert_eq!(doc.len(), 2);
    assert_eq!(doc[0].key, "a");
    assert_eq!(doc[1].key, "b");
    let text = doc.to_string(0, false);
    assert_eq!(text, "{\n    \"a\": 1,\n    \"b\": xyz\n}");
}

#[test]
fn error_message_carries_position() {
    let mut s = stack("{\"a\": [1,2}");
    let err = read(&mut s).unwrap_err();
    assert_eq!(err.message(), "test.json:0:10: Mismatched closing brace");
}

#[test]
fn end_of_input_message_has_no_position() {
    let mut s = stack("[1,2");
    let err = read(&mut s).unwrap_err();
    assert_eq!(err.kind, ParseErrorKind::UnexpectedEndOfInput);
    assert_eq!(err.message(), "EOF: missing closing bracket");
}

#[test]
fn raise_formats_label_line_and_column() {
    let elt = ParseCharElt { ch: 'x', path: "f.json".to_owned(), line: 123, col: 7 };
    assert_eq!(raise("oops", &elt), "f.json:123:7: oops");
}

#[test]
fn color_codes_for_named_colors() {
    assert_eq!(get_code_color("r"), "\x1b[38;5;1m");
    assert_eq!(get_code_color("red"), "\x1b[38;5;1m");
    assert_eq!(get_code_color("brightcyan"), "\x1b[38;5;14m");
    assert_eq!(get_code_color("w"), "\x1b[38;5;15m");
    assert_eq!(get_code_color("zzz"), "zzz");
}
