use sl_studio::tags::{add_tag_to_list, collect_unique_tags, parse_tag_list, remove_tag_from_list};

#[test]
fn tag_column_is_split_and_trimmed() {
    assert_eq!(parse_tag_list(" fraud, bank ,,x "), vec!["fraud", "bank", "x"]);
    assert_eq!(parse_tag_list(""), Vec::<String>::new());
}

#[test]
fn adding_a_tag_appends_once() {
    assert_eq!(add_tag_to_list(Some("a,b"), "c"), "a,b,c");
    assert_eq!(add_tag_to_list(Some("a, b"), "b"), "a,b");
    assert_eq!(add_tag_to_list(None, "x"), "x");
}

#[test]
fn added_tag_reads_back() {
    let col = add_tag_to_list(Some(" one , two"), "three");
    assert!(parse_tag_list(&col).contains(&"three".to_string()));
    assert_eq!(add_tag_to_list(Some(&col), "three"), col);
}

#[test]
fn removing_a_tag_drops_every_copy() {
    assert_eq!(remove_tag_from_list(Some("a,b,a,c"), "a"), "b,c");
    assert_eq!(remove_tag_from_list(Some("a"), "a"), "");
    assert_eq!(remove_tag_from_list(None, "a"), "");
    let col = remove_tag_from_list(Some("x, y"), "y");
    assert!(!parse_tag_list(&col).contains(&"y".to_string()));
}

#[test]
fn unique_tags_are_sorted() {
    let rows = vec![Some("b, a".to_string()), None, Some("c,a".to_string())];
    assert_eq!(collect_unique_tags(&rows), vec!["a", "b", "c"]);
}
