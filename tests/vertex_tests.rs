use smartifier::json::{transform_vertex_jsonl, JsonLineError};
use smartifier::table::Translation;
use smartifier::vertex::{transform_vertex_csv, vertex_header_csv};

fn header(line: &str, smart_value: &str, write_key: bool, key_value: &str) -> smartifier::vertex::VertexHeader {
    vertex_header_csv(line, ',', '"', "smart_id", smart_value, write_key, key_value).unwrap()
}

#[test]
fn vertex_without_attribute_source() {
    let h = header("name,_key", "", false, "");
    assert_eq!(h.line, "name,_key,smart_id");
    assert_eq!(h.columns.ncols, 3);
    let r = transform_vertex_csv("Alice,alice1", ',', '"', &h.columns, -1);
    assert_eq!(r.attribute, "");
    assert_eq!(r.line, "Alice,:alice1,");
}

#[test]
fn vertex_value_column_with_index() {
    let h = header("name,country,_key", "country", false, "");
    assert_eq!(h.line, "name,country,_key,smart_id");
    assert!(!h.value_column_missing);
    let r = transform_vertex_csv("Bob,DE,bob1", ',', '"', &h.columns, 2);
    assert_eq!(r.attribute, "DE");
    assert_eq!(r.line, "Bob,DE,DE:bob1,DE");
}

#[test]
fn vertex_truncation_takes_first_chars() {
    let h = header("name,country,_key", "country", false, "");
    let r = transform_vertex_csv("Bob,DEU,bob1", ',', '"', &h.columns, 2);
    assert_eq!(r.attribute, "DE");
    assert_eq!(r.line, "Bob,DEU,DE:bob1,DE");
}

#[test]
fn vertex_truncation_applies_to_attribute_column() {
    let h = header("smart_id,_key", "", false, "");
    let r = transform_vertex_csv("ABCDEF,k1", ',', '"', &h.columns, 3);
    assert_eq!(r.attribute, "ABC");
    assert_eq!(r.line, "ABC,ABC:k1");
}

#[test]
fn vertex_existing_attribute_is_used() {
    let h = header("smart_id,_key", "", false, "");
    let r = transform_vertex_csv("FR,k1", ',', '"', &h.columns, -1);
    assert_eq!(r.line, "FR,FR:k1");
    assert!(!r.mismatch);
}

#[test]
fn vertex_wrong_prefix_is_corrected() {
    let h = header("smart_id,_key", "", false, "");
    let r = transform_vertex_csv("FR,DE:k1", ',', '"', &h.columns, -1);
    assert!(r.mismatch);
    assert_eq!(r.line, "FR,FR:k1");
}

#[test]
fn vertex_transform_is_idempotent_on_its_output() {
    let h = header("name,country,_key", "country", false, "");
    let once = transform_vertex_csv("Bob,DEU,bob1", ',', '"', &h.columns, 2);
    let twice = transform_vertex_csv(&once.line, ',', '"', &h.columns, 2);
    assert_eq!(twice.line, once.line);
    assert!(!twice.mismatch);
}

#[test]
fn vertex_key_value_column() {
    let h = header("name,id,_key", "", true, "id");
    let r = transform_vertex_csv("n,42,", ',', '"', &h.columns, -1);
    assert_eq!(r.key, "42");
    assert_eq!(r.line, "n,42,:42,");
}

#[test]
fn vertex_header_appends_key_when_asked() {
    let h = header("name", "", true, "");
    assert_eq!(h.line, "name,smart_id,_key");
    let r = transform_vertex_csv("Zed", ',', '"', &h.columns, -1);
    assert_eq!(r.line, "Zed,,:");
}

#[test]
fn vertex_header_without_key_column() {
    assert!(vertex_header_csv("name", ',', '"', "smart_id", "", false, "").is_none());
}

#[test]
fn vertex_header_reports_missing_value_column() {
    let h = header("name,_key", "country", false, "nope");
    assert!(h.value_column_missing);
    assert!(h.key_value_column_missing);
    assert!(h.columns.smart_value_pos.is_none());
}

#[test]
fn vertex_quoted_value_is_unquoted_then_quoted() {
    let h = header("name,country,_key", "country", false, "");
    let r = transform_vertex_csv("Bob,\"D\"\"E\",bob1", ',', '"', &h.columns, -1);
    assert_eq!(r.attribute, "D\"E");
    assert_eq!(r.line, "Bob,\"D\"\"E\",\"D\"\"E:bob1\",\"D\"\"E\"");
}

#[test]
fn object_vertex_value_member() {
    let r = transform_vertex_jsonl("{\"_key\":\"x1\",\"country\":\"DE\"}", "smart_id", "country", -1, "", false, "")
        .unwrap();
    assert_eq!(r.line, "{\"_key\":\"DE:x1\",\"smart_id\":\"DE\",\"country\":\"DE\"}");
}

#[test]
fn object_vertex_number_attribute_is_converted() {
    let r = transform_vertex_jsonl("{\"_key\":\"x\",\"smart_id\":12}", "smart_id", "", -1, "", false, "").unwrap();
    assert!(r.coerced);
    assert_eq!(r.line, "{\"_key\":\"12:x\",\"smart_id\":\"12\"}");
}

#[test]
fn object_vertex_bool_attribute_is_converted() {
    let r = transform_vertex_jsonl("{\"smart_id\":true,\"_key\":\"x\"}", "smart_id", "", -1, "", false, "").unwrap();
    assert!(r.coerced);
    assert_eq!(r.line, "{\"_key\":\"true:x\",\"smart_id\":\"true\"}");
}

#[test]
fn object_vertex_complex_attribute_is_empty() {
    let r = transform_vertex_jsonl("{\"_key\":\"x\",\"smart_id\":[1,2]}", "smart_id", "", -1, "", false, "").unwrap();
    assert!(r.complex);
    assert_eq!(r.line, "{\"_key\":\"x\",\"smart_id\":\"\"}");
}

#[test]
fn object_vertex_default_and_truncation() {
    let r = transform_vertex_jsonl("{\"_key\":\"x\",\"a\":{\"b\":1}}", "smart_id", "", 2, "XYZ", false, "").unwrap();
    assert_eq!(r.line, "{\"_key\":\"XY:x\",\"smart_id\":\"XY\",\"a\":{\"b\":1}}");
}

#[test]
fn object_vertex_wrong_prefix_only_reported() {
    let r = transform_vertex_jsonl("{\"_key\":\"FR:x\",\"smart_id\":\"DE\"}", "smart_id", "", -1, "", false, "").unwrap();
    assert!(r.mismatch);
    assert_eq!(r.line, "{\"_key\":\"FR:x\",\"smart_id\":\"DE\"}");
}

#[test]
fn object_vertex_write_key_without_key() {
    let r = transform_vertex_jsonl("{\"smart_id\":\"DE\"}", "smart_id", "", -1, "", true, "").unwrap();
    assert_eq!(r.line, "{\"_key\":\"\",\"smart_id\":\"DE\"}");
    let r = transform_vertex_jsonl("{\"smart_id\":\"DE\"}", "smart_id", "", -1, "", false, "").unwrap();
    assert_eq!(r.line, "{\"smart_id\":\"DE\"}");
}

#[test]
fn object_vertex_escapes_strings() {
    let r = transform_vertex_jsonl("{\"_key\":\"a\\\"b\",\"smart_id\":\"D\"}", "smart_id", "", -1, "", false, "").unwrap();
    assert_eq!(r.line, "{\"_key\":\"D:a\\\"b\",\"smart_id\":\"D\"}");
}

#[test]
fn object_vertex_is_idempotent() {
    let once = transform_vertex_jsonl("{\"_key\":\"x1\",\"country\":\"DEU\"}", "smart_id", "country", 2, "", false, "")
        .unwrap();
    let twice = transform_vertex_jsonl(&once.line, "smart_id", "country", 2, "", false, "").unwrap();
    assert_eq!(twice.line, once.line);
}

#[test]
fn object_vertex_parse_errors() {
    assert!(matches!(
        transform_vertex_jsonl("{oops", "smart_id", "", -1, "", false, ""),
        Err(JsonLineError::Malformed)
    ));
    assert!(matches!(
        transform_vertex_jsonl("[1,2]", "smart_id", "", -1, "", false, ""),
        Err(JsonLineError::NotObject)
    ));
}

#[test]
fn translation_insert_and_lookup() {
    let mut t = Translation::new();
    assert_eq!(t.lookup("persons/a"), None);
    t.insert("persons/a", "DE");
    t.insert("persons/b", "DE");
    t.insert("persons/c", "FR");
    assert_eq!(t.lookup("persons/a"), Some("DE".to_string()));
    assert_eq!(t.lookup("persons/c"), Some("FR".to_string()));
    t.insert("persons/a", "IT");
    assert_eq!(t.lookup("persons/a"), Some("IT".to_string()));
    assert_eq!(t.lookup("persons/b"), Some("DE".to_string()));
    assert_eq!(t.lookup("persons/d"), None);
}

#[test]
fn vertex_written_field_with_separator_is_quoted() {
    let h = header("name,country,_key", "country", false, "");
    let r = transform_vertex_csv("x,\"a,b\",k1", ',', '"', &h.columns, -1);
    assert_eq!(r.attribute, "a,b");
    assert_eq!(r.line, "x,\"a,b\",\"a,b:k1\",\"a,b\"");
    let again = transform_vertex_csv(&r.line, ',', '"', &h.columns, -1);
    assert_eq!(again.line, r.line);
}

#[test]
fn vertex_header_name_with_separator_is_quoted() {
    let h = header("\"a,b\",_key", "", false, "");
    assert_eq!(h.line, "\"a,b\",_key,smart_id");
    assert_eq!(h.columns.ncols, 3);
}

#[test]
fn object_vertex_falls_back_to_attribute_member() {
    let r = transform_vertex_jsonl("{\"_key\":\"k\",\"smart_id\":\"FR\"}", "smart_id", "country", -1, "", false, "")
        .unwrap();
    assert_eq!(r.line, "{\"_key\":\"FR:k\",\"smart_id\":\"FR\"}");
}

#[test]
fn vertex_file_header_once_then_rows() {
    let lines: Vec<String> = ["name,country,_key", "Bob,DE,bob1", "Ann,\"F,R\",ann"].iter().map(|s| s.to_string()).collect();
    let out = smartifier::run::transform_vertices_csv(&lines, ',', '"', "smart_id", "country", false, "", 1).unwrap();
    assert_eq!(out, vec!["name,country,_key,smart_id", "Bob,DE,D:bob1,D", "Ann,\"F,R\",F:ann,F"]);
    assert_eq!(
        smartifier::run::transform_vertices_csv(&Vec::new(), ',', '"', "smart_id", "", false, "", 1),
        Err(smartifier::run::EXIT_BAD_HEADER)
    );
    let no_key = vec!["name".to_string()];
    assert_eq!(
        smartifier::run::transform_vertices_csv(&no_key, ',', '"', "smart_id", "", false, "", 1),
        Err(smartifier::run::EXIT_BAD_HEADER)
    );
}

#[test]
fn object_vertex_reports_attribute_and_key() {
    let r = transform_vertex_jsonl("{\"_key\":\"FR:x\",\"smart_id\":\"DE\"}", "smart_id", "", -1, "", false, "").unwrap();
    assert!(r.mismatch);
    assert_eq!(r.attribute, "DE");
    assert_eq!(r.key, "FR:x");
}

#[test]
fn object_vertex_escapes_control_characters() {
    let r = transform_vertex_jsonl("{\"_key\":\"a\\tb\\u0001\",\"smart_id\":\"D\"}", "smart_id", "", -1, "", false, "").unwrap();
    assert_eq!(r.line, "{\"_key\":\"D:a\\tb\\u0001\",\"smart_id\":\"D\"}");
}
