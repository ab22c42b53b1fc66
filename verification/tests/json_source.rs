use std::io::{Read, Seek};
use iotactl::error::ErrorKind;
use iotactl::highlight::build_registry;
use iotactl::json::{JsonSource, check_json_pipe, JsonValue, to_string_compact, to_string_pretty, truncate_to_char_boundary};

fn convert(v: &serde_json::Value) -> JsonValue {
    match v {
        serde_json::Value::Null => JsonValue::Null,
        serde_json::Value::Bool(b) => JsonValue::Bool(*b),
        serde_json::Value::Number(n) => JsonValue::Number(n.to_string()),
        serde_json::Value::String(s) => JsonValue::Str(s.clone()),
        serde_json::Value::Array(items) => JsonValue::Array(items.iter().map(convert).collect()),
        serde_json::Value::Object(map) => {
            JsonValue::Object(map.iter().map(|(k, v)| (k.clone(), convert(v))).collect())
        }
    }
}

fn build(json: &str, rest: &str) -> Result<JsonSource, iotactl::error::SourceError> {
    let value: serde_json::Value = serde_json::from_str(json).unwrap();
    JsonSource::new(convert(&value), rest)
}

#[test]
fn read_dir_lists_object_keys_in_document_order() {
    let source = build(r#"{"z": 1, "a": 2, "m": 3}"#, "").unwrap();
    let entries = source.read_dir(&[]).unwrap();
    let names: Vec<_> = entries.iter().map(|e| e.name.clone()).collect();
    assert_eq!(names, vec!["z", "a", "m"], "object keys should keep document order, not be re-sorted");
}

#[test]
fn read_dir_lists_array_positions_in_index_order() {
    let source = build(r#"[10, 20, 30]"#, "").unwrap();
    let entries = source.read_dir(&[]).unwrap();
    let names: Vec<_> = entries.iter().map(|e| e.name.clone()).collect();
    assert_eq!(names, vec!["0", "1", "2"]);
    assert!(entries.iter().all(|e| !e.is_dir), "array of scalars should have no container children");
}

#[test]
fn read_dir_marks_nested_containers_as_dirs() {
    let source = build(r#"{"obj": {"a": 1}, "arr": [1, 2], "leaf": "x"}"#, "").unwrap();
    let entries = source.read_dir(&[]).unwrap();
    let is_dir = |name: &str| entries.iter().find(|e| e.name == name).unwrap().is_dir;
    assert!(is_dir("obj"));
    assert!(is_dir("arr"));
    assert!(!is_dir("leaf"));
}

#[test]
fn read_dir_on_a_leaf_fails() {
    let source = build(r#"{"leaf": "x"}"#, "").unwrap();
    let Err(err) = source.read_dir(&["leaf".to_string()]) else {
        panic!("expected read_dir on a scalar leaf to fail");
    };
    assert_eq!(err.kind, ErrorKind::InvalidInput);
    assert_eq!(err.message, "leaf is a leaf value, not a container");
}

#[test]
fn read_dir_on_a_missing_key_fails_not_found() {
    let source = build(r#"{"a": 1}"#, "").unwrap();
    let Err(err) = source.read_dir(&["nope".to_string()]) else {
        panic!("expected read_dir on a missing key to fail");
    };
    assert_eq!(err.kind, ErrorKind::NotFound);
}

#[test]
fn construct_rejects_a_root_that_does_not_resolve() {
    let Err(err) = build(r#"{"a": 1}"#, "nope") else {
        panic!("expected construction with a bad root path to fail");
    };
    assert_eq!(err.kind, ErrorKind::NotFound);
}

#[test]
fn construction_scopes_every_id_relative_to_root() {
    let source = build(r#"{"outer": {"inner": {"x": 1, "y": 2}}}"#, "outer/inner").unwrap();
    let entries = source.read_dir(&[]).unwrap();
    let names: Vec<_> = entries.iter().map(|e| e.name.clone()).collect();
    assert_eq!(names, vec!["x", "y"]);
}

#[test]
fn root_entry_uses_dollar_sign_for_an_unscoped_root() {
    let source = build(r#"{"a": 1}"#, "").unwrap();
    assert_eq!(source.root_entry().name, "$");
}

#[test]
fn root_entry_uses_the_last_scoping_segment_otherwise() {
    let source = build(r#"{"outer": {"inner": 1}}"#, "outer").unwrap();
    assert_eq!(source.root_entry().name, "outer");
}

#[test]
fn open_returns_compact_json_bytes_for_a_subtree() {
    let source = build(r#"{"a": {"b": 1, "c": [1, 2]}}"#, "").unwrap();
    let text = source.serialize(&["a".to_string()]).unwrap();
    let parsed: serde_json::Value = serde_json::from_str(&text).unwrap();
    let expected: serde_json::Value = serde_json::from_str(r#"{"b": 1, "c": [1, 2]}"#).unwrap();
    assert_eq!(parsed, expected);
    assert_eq!(text, r#"{"b":1,"c":[1,2]}"#);
}

#[test]
fn preview_of_a_container_shows_its_full_pretty_printed_subtree() {
    let source = build(r#"{"a": 1, "b": {"c": 2}}"#, "").unwrap();
    let preview = source.preview(&build_registry(), &[]);
    assert!(!preview.override_disable_line_numbers);
    assert_eq!(preview.text.plain(), "{\n  \"a\": 1,\n  \"b\": {\n    \"c\": 2\n  }\n}");
}

#[test]
fn preview_of_a_leaf_shows_its_value() {
    let source = build(r#"{"a": 42}"#, "").unwrap();
    let preview = source.preview(&build_registry(), &["a".to_string()]);
    assert!(!preview.override_disable_line_numbers);
    assert_eq!(preview.text.plain(), "42");
}

#[test]
fn printers_agree_with_serde_json() {
    let doc = r#"{"s": "a\"b\\c\n\u0001é", "n": [1, -2.5, null, true], "e": {}, "a": []}"#;
    let value: serde_json::Value = serde_json::from_str(doc).unwrap();
    let mine = convert(&value);
    assert_eq!(to_string_compact(&mine), serde_json::to_string(&value).unwrap());
    assert_eq!(to_string_pretty(&mine), serde_json::to_string_pretty(&value).unwrap());
}

#[test]
fn truncation_backs_off_to_a_character_boundary() {
    assert_eq!(truncate_to_char_boundary("héllo", 2), "h");
    assert_eq!(truncate_to_char_boundary("héllo", 3), "hé");
    assert_eq!(truncate_to_char_boundary("abc", 10), "abc");
}

#[test]
fn a_missing_node_previews_as_an_error_line() {
    let source = build(r#"{"a": 1}"#, "").unwrap();
    let preview = source.preview(&build_registry(), &["b".to_string()]);
    assert_eq!(preview.text.plain(), "no such node in the JSON tree: b");
}

#[test]
fn construct_rejects_a_bare_json_scheme_with_no_pipe() {
    let Err(err) = check_json_pipe(false) else {
        panic!("expected json:// with no pipe to fail");
    };
    assert_eq!(err.kind, ErrorKind::InvalidInput);
    assert!(check_json_pipe(true).is_ok());
}

#[test]
fn open_seekable_supports_seeking_back_to_the_start() {
    let source = build(r#""hello""#, "").unwrap();
    let mut stream = std::io::Cursor::new(source.serialize(&[]).unwrap().into_bytes());
    let mut first = [0u8; 1];
    stream.read_exact(&mut first).unwrap();
    stream.seek(std::io::SeekFrom::Start(0)).unwrap();
    let mut all = Vec::new();
    stream.read_to_end(&mut all).unwrap();
    assert_eq!(all, b"\"hello\"");
}
