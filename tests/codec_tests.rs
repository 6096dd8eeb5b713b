use smartifier::codec::{find_col_pos, quote_string, split, unquote};

#[test]
fn split_plain_fields() {
    assert_eq!(split("a,b,c", ',', '"'), vec!["a", "b", "c"]);
}

#[test]
fn split_keeps_separators_inside_quotes() {
    assert_eq!(split("\"a,b\",c", ',', '"'), vec!["\"a,b\"", "c"]);
}

#[test]
fn split_doubled_quote_stays_in_span() {
    assert_eq!(split("\"a\"\",b\",c", ',', '"'), vec!["\"a\"\",b\"", "c"]);
}

#[test]
fn split_unterminated_quote_runs_to_end() {
    assert_eq!(split("x,\"a,b", ',', '"'), vec!["x", "\"a,b"]);
}

#[test]
fn split_empty_line_gives_one_empty_field() {
    assert_eq!(split("", ',', '"'), vec![""]);
}

#[test]
fn split_trailing_separator_gives_empty_field() {
    assert_eq!(split("a,", ',', '"'), vec!["a", ""]);
}

#[test]
fn unquote_without_quotes_is_identity() {
    assert_eq!(unquote("abc", '"'), "abc");
}

#[test]
fn unquote_removes_quotes_and_undoubles() {
    assert_eq!(unquote("\"a\"\"b\"", '"'), "a\"b");
}

#[test]
fn unquote_drops_text_before_first_quote() {
    assert_eq!(unquote("xy\"ab\"", '"'), "ab");
}

#[test]
fn unquote_joins_reopened_spans() {
    assert_eq!(unquote("\"ab\"x\"cd\"", '"'), "abcd");
}

#[test]
fn quote_string_leaves_plain_value() {
    assert_eq!(quote_string("a,b", '"'), "a,b");
}

#[test]
fn quote_string_wraps_and_doubles() {
    assert_eq!(quote_string("a\"b", '"'), "\"a\"\"b\"");
}

#[test]
fn quote_round_trip_concrete() {
    for s in ["\"", "a\"b", "\"\"x\"", "q\"\"\"", "\"start", "end\""] {
        assert_eq!(unquote(&quote_string(s, '"'), '"'), s);
    }
}

#[test]
fn quote_round_trip_other_quote_char() {
    let s = "it's 'quoted'";
    assert_eq!(unquote(&quote_string(s, '\''), '\''), s);
}

#[test]
fn find_col_pos_finds_first_match() {
    let h = vec!["a".to_string(), "_key".to_string(), "_key".to_string()];
    assert_eq!(find_col_pos(&h, "_key"), 1);
    assert_eq!(find_col_pos(&h, "a"), 0);
}

#[test]
fn find_col_pos_missing_is_minus_one() {
    let h = vec!["a".to_string()];
    assert_eq!(find_col_pos(&h, "b"), -1);
    assert_eq!(find_col_pos(&[], "b"), -1);
}

