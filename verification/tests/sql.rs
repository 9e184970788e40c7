use sl_studio::sql::{join_strings, like_escape, placeholder_list};

#[test]
fn like_escape_doubles_quotes_and_backslashes() {
    assert_eq!(like_escape("o'brien"), "o''brien");
    assert_eq!(like_escape("a\\b"), "a\\\\b");
    assert_eq!(like_escape("plain"), "plain");
}

#[test]
fn escaped_text_reads_back() {
    let t = "it's a \\ test''";
    let e = like_escape(t);
    assert_eq!(e.replace("''", "'").replace("\\\\", "\\"), t);
}

#[test]
fn joins_and_placeholders() {
    assert_eq!(join_strings(&["a".to_string(), "b".to_string(), "c".to_string()], " AND "), "a AND b AND c");
    assert_eq!(join_strings(&[], ","), "");
    assert_eq!(placeholder_list(2, 3), "?2,?2,?2");
    assert_eq!(placeholder_list(9, 2), "?9,?9");
    assert_eq!(placeholder_list(1, 0), "");
}
