use sl_studio::csv::csv_escape;

#[test]
fn plain_fields_stay() {
    assert_eq!(csv_escape("plain"), "plain");
    assert_eq!(csv_escape(""), "");
}

#[test]
fn special_fields_are_quoted() {
    assert_eq!(csv_escape("a,b"), "\"a,b\"");
    assert_eq!(csv_escape("say \"hi\""), "\"say \"\"hi\"\"\"");
    assert_eq!(csv_escape("two\nlines"), "\"two\nlines\"");
}

#[test]
fn quoted_field_reads_back() {
    let text = "x, \"y\"";
    let f = csv_escape(text);
    assert!(f.starts_with('"') && f.ends_with('"'));
    let inner = &f[1..f.len() - 1];
    assert_eq!(inner.replace("\"\"", "\""), text);
}
