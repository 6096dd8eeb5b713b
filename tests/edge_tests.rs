use smartifier::collections::{parse_edge_collection, parse_edge_collections, parse_index, EdgeCollection};
use smartifier::edge::{edge_header_csv, transform_edge_csv};
use smartifier::json::{transform_edge_jsonl, JsonLineError};
use smartifier::run::{do_edges, transform_edges_csv, DataType, EXIT_BAD_HEADER, EXIT_NO_FROM_TO, EXIT_OK};
use smartifier::table::Translation;
use smartifier::vertex::{transform_vertex_csv, vertex_header_csv};

fn coll(file: &str, from: &str, to: &str) -> EdgeCollection {
    EdgeCollection {
        file_name: file.to_string(),
        from_vertex_coll: from.to_string(),
        to_vertex_coll: to.to_string(),
        column_renames: Vec::new(),
    }
}

fn lines(v: &[&str]) -> Vec<String> {
    v.iter().map(|s| s.to_string()).collect()
}

#[test]
fn edge_direct_truncation() {
    let t = Translation::new();
    let h = edge_header_csv("_key,_from,_to", ',', '"', &Vec::new());
    let cols = h.columns.unwrap();
    let r = transform_edge_csv("e1,persons/DE12345,persons/FR9876", ',', '"', &cols, "persons", "persons", 2, &t);
    assert_eq!(r, "DE:e1:FR,persons/DE:DE12345,persons/FR:FR9876");
}

#[test]
fn edge_already_composite_left_alone() {
    let mut t = Translation::new();
    t.insert("persons/DE12345", "XX");
    let h = edge_header_csv("_from,_to", ',', '"', &Vec::new());
    let cols = h.columns.unwrap();
    for n in [-1, 0, 1, 2, 5] {
        for c in ["persons", "other", ""] {
            let r = transform_edge_csv("persons/DE:DE12345,x", ',', '"', &cols, c, c, n, &t);
            assert!(r.starts_with("persons/DE:DE12345,"), "{}", r);
        }
    }
}

#[test]
fn edge_transform_is_idempotent() {
    let t = Translation::new();
    let h = edge_header_csv("_key,_from,_to", ',', '"', &Vec::new());
    let cols = h.columns.unwrap();
    let once = transform_edge_csv("e1,DE12345,persons/FR9876", ',', '"', &cols, "persons", "persons", 2, &t);
    assert_eq!(once, "DE:e1:FR,persons/DE:DE12345,persons/FR:FR9876");
    let twice = transform_edge_csv(&once, ',', '"', &cols, "persons", "persons", 2, &t);
    assert_eq!(twice, once);
}

#[test]
fn edge_bare_key_gets_default_collection() {
    let t = Translation::new();
    let h = edge_header_csv("_from,_to,_key", ',', '"', &Vec::new());
    let cols = h.columns.unwrap();
    let r = transform_edge_csv("a,b,k", ',', '"', &cols, "persons", "places", 5, &t);
    assert_eq!(r, "persons/a,places/b,k");
}

#[test]
fn edge_table_lookup_resolves() {
    let mut t = Translation::new();
    t.insert("persons/alice", "DE");
    t.insert("places/berlin", "DE");
    let h = edge_header_csv("_from,_to,_key", ',', '"', &Vec::new());
    let cols = h.columns.unwrap();
    let r = transform_edge_csv("alice,places/berlin,k", ',', '"', &cols, "persons", "places", -1, &t);
    assert_eq!(r, "persons/DE:alice,places/DE:berlin,DE:k:DE");
    let r = transform_edge_csv("bob,places/berlin,k", ',', '"', &cols, "persons", "places", -1, &t);
    assert_eq!(r, "persons/bob,places/DE:berlin,k");
}

#[test]
fn edge_endpoint_shapes() {
    let mut t = Translation::new();
    t.insert("p/x", "A");
    let h = edge_header_csv("_from,_to", ',', '"', &Vec::new());
    let cols = h.columns.unwrap();
    for (input, n) in [("x,y", -1), ("p/x,q/yy", 1), ("p/A:x,zz", 3)] {
        let r = transform_edge_csv(input, ',', '"', &cols, "p", "q", n, &t);
        for field in r.split(',') {
            let (c, rest) = field.split_once('/').unwrap();
            assert!(!c.is_empty() && !c.contains('/'));
            match rest.split_once(':') {
                Some((a, k)) => assert!(!a.is_empty() && !k.is_empty()),
                None => assert!(!rest.is_empty()),
            }
        }
    }
}

#[test]
fn edge_composite_key_not_rewritten() {
    let t = Translation::new();
    let h = edge_header_csv("_key,_from,_to", ',', '"', &Vec::new());
    let cols = h.columns.unwrap();
    let r = transform_edge_csv("a:b,p/DE1,p/FR1", ',', '"', &cols, "p", "p", 2, &t);
    assert_eq!(r, "a:b,p/DE:DE1,p/FR:FR1");
}

#[test]
fn edge_header_renames() {
    let renames = vec![(0usize, "_from".to_string()), (1usize, "_to".to_string()), (9usize, "x".to_string())];
    let h = edge_header_csv("src,dst,w", ',', '"', &renames);
    assert_eq!(h.line, "_from,_to,w");
    let cols = h.columns.unwrap();
    assert_eq!((cols.from_pos, cols.to_pos, cols.key_pos), (0, 1, None));
}

#[test]
fn edge_header_without_from_or_to() {
    let h = edge_header_csv("_from,x", ',', '"', &Vec::new());
    assert!(h.columns.is_none());
    assert_eq!(h.line, "_from,x");
}

#[test]
fn edge_short_row_is_padded() {
    let t = Translation::new();
    let h = edge_header_csv("_from,_to,w", ',', '"', &Vec::new());
    let cols = h.columns.unwrap();
    let r = transform_edge_csv("p/a", ',', '"', &cols, "p", "q", -1, &t);
    assert_eq!(r, "p/a,q/,");
}

#[test]
fn object_edge_direct_truncation() {
    let t = Translation::new();
    let r = transform_edge_jsonl("{\"w\":1,\"_to\":\"FR9876\",\"_from\":\"persons/DE12345\",\"_key\":\"e1\"}", "persons", "persons", 2, &t)
        .unwrap();
    assert_eq!(r, "{\"_key\":\"DE:e1:FR\",\"_from\":\"persons/DE:DE12345\",\"_to\":\"persons/FR:FR9876\",\"w\":1}");
}

#[test]
fn object_edge_non_string_endpoint_kept() {
    let t = Translation::new();
    let r = transform_edge_jsonl("{\"_from\":5,\"_to\":\"b\",\"_key\":\"k\"}", "p", "q", 0, &t).unwrap();
    assert_eq!(r, "{\"_key\":\"k\",\"_from\":5,\"_to\":\"q/b\"}");
}

#[test]
fn object_edge_errors() {
    let t = Translation::new();
    assert_eq!(transform_edge_jsonl("nope", "p", "q", 0, &t), Err(JsonLineError::Malformed));
    assert_eq!(transform_edge_jsonl("\"s\"", "p", "q", 0, &t), Err(JsonLineError::NotObject));
}

#[test]
fn parse_edge_specs() {
    let e = parse_edge_collection("edges.csv:persons:places:0:_from:x:bad:2:_to").unwrap();
    assert_eq!(e.file_name, "edges.csv");
    assert_eq!(e.from_vertex_coll, "persons");
    assert_eq!(e.to_vertex_coll, "places");
    assert_eq!(e.column_renames, vec![(0, "_from".to_string()), (2, "_to".to_string())]);
    assert!(parse_edge_collection("a:b").is_none());
    let all = parse_edge_collections(vec!["a:b".to_string(), "f:x:y:+3:n:7".to_string()]);
    assert_eq!(all.len(), 1);
    assert_eq!(all[0].file_name, "f");
    assert_eq!(all[0].column_renames, vec![(3, "n".to_string())]);
}

#[test]
fn edge_file_errors() {
    let t = Translation::new();
    let c = coll("f", "p", "q");
    assert_eq!(transform_edges_csv(&Vec::new(), &c, ',', '"', 2, &t), Err(EXIT_BAD_HEADER));
    assert_eq!(transform_edges_csv(&lines(&["a,b", "1,2"]), &c, ',', '"', 2, &t), Err(EXIT_NO_FROM_TO));
}

#[test]
fn do_edges_runs_files_in_order() {
    let t = Translation::new();
    let colls = vec![coll("one", "p", "p"), coll("two", "p", "p"), coll("three", "p", "p")];
    let inputs = vec![
        lines(&["_from,_to", "DE1,FR2"]),
        lines(&["x,y"]),
        lines(&["_from,_to", "a,b"]),
    ];
    let (outs, status) = do_edges(DataType::CSV, ',', '"', &colls, 2, &t, &inputs);
    assert_eq!(status, EXIT_NO_FROM_TO);
    assert_eq!(outs, vec![lines(&["_from,_to", "p/DE:DE1,p/FR:FR2"])]);
}

#[test]
fn do_edges_object_files() {
    let t = Translation::new();
    let colls = vec![coll("one", "p", "p")];
    let inputs = vec![lines(&["{\"_from\":\"AB1\",\"_to\":\"p/CD2\"}", "garbage", "{\"_from\":\"x\",\"_to\":\"y\"}"])];
    let (outs, status) = do_edges(DataType::JSONL, ',', '"', &colls, 2, &t, &inputs);
    assert_eq!(status, EXIT_OK);
    assert_eq!(
        outs,
        vec![lines(&["{\"_from\":\"p/AB:AB1\",\"_to\":\"p/CD:CD2\"}", "{\"_from\":\"p/x\",\"_to\":\"p/y\"}"])]
    );
}

#[test]
fn vertex_attributes_resolve_later_edges() {
    let h = vertex_header_csv("name,country,_key", ',', '"', "smart_id", "country", false, "").unwrap();
    let mut t = Translation::new();
    for row in ["Ann,DE,ann", "Bo,FR,bo"] {
        let r = transform_vertex_csv(row, ',', '"', &h.columns, -1);
        t.record_vertex("persons", &r.key, &r.attribute);
    }
    assert_eq!(t.lookup("persons/ann"), Some("DE".to_string()));
    let e = edge_header_csv("_key,_from,_to", ',', '"', &Vec::new());
    let r = transform_edge_csv("k,ann,persons/bo", ',', '"', &e.columns.unwrap(), "persons", "persons", -1, &t);
    assert_eq!(r, "DE:k:FR,persons/DE:ann,persons/FR:bo");
}

#[test]
fn every_vertex_key_is_composite() {
    let h = vertex_header_csv("smart_id,_key", ',', '"', "smart_id", "", false, "").unwrap();
    for row in ["DE,k1", "DE,FR:k2", "DE,DE:k3", "IT,"] {
        let r = transform_vertex_csv(row, ',', '"', &h.columns, -1);
        let fields: Vec<&str> = r.line.split(',').collect();
        let (prefix, rest) = fields[1].split_once(':').unwrap();
        assert_eq!(prefix, fields[0]);
        assert_eq!(prefix, r.attribute);
        assert!(!rest.contains(':'));
    }
}

#[test]
fn edge_default_collection_with_slash_is_kept_whole() {
    let mut t = Translation::new();
    let h = edge_header_csv("_from,_to", ',', '"', &Vec::new());
    let cols = h.columns.unwrap();
    let r = transform_edge_csv("kk,zz", ',', '"', &cols, "a/b", "c", 1, &t);
    assert_eq!(r, "a/b/k:kk,c/z:zz");
    t.insert("a/b/kk", "X");
    let r = transform_edge_csv("kk,zz", ',', '"', &cols, "a/b", "c", -1, &t);
    assert_eq!(r, "a/b/X:kk,c/zz");
}

#[test]
fn edge_written_reference_with_separator_is_quoted() {
    let t = Translation::new();
    let h = edge_header_csv("_from,_to", ',', '"', &Vec::new());
    let cols = h.columns.unwrap();
    let r = transform_edge_csv("\"p/a,b\",q/c", ',', '"', &cols, "p", "q", -1, &t);
    assert_eq!(r, "\"p/a,b\",q/c");
}

#[test]
fn parse_index_follows_unsigned_decimal_rules() {

    assert_eq!(parse_index("0"), Some(0));
    assert_eq!(parse_index("+12"), Some(12));
    assert_eq!(parse_index("18446744073709551615"), Some(usize::MAX));
    assert_eq!(parse_index("18446744073709551616"), None);
    assert_eq!(parse_index(""), None);
    assert_eq!(parse_index("+"), None);
    assert_eq!(parse_index("-1"), None);
    assert_eq!(parse_index("1a"), None);
    assert_eq!(parse_index(" 1"), None);
}
