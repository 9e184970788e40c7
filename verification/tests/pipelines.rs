use sl_studio::pipelines::{builtins_to_list, check_savable};

fn ids(v: &[&str]) -> Vec<String> {
    v.iter().map(|s| s.to_string()).collect()
}

#[test]
fn builtins_fill_in_missing_ids() {
    let stored = ids(&["basic_facts", "custom"]);
    let builtin = ids(&["basic_facts", "financial", "ocr", "financial"]);
    assert_eq!(builtins_to_list(&stored, &builtin), vec![1, 2]);
    assert_eq!(builtins_to_list(&[], &builtin), vec![0, 1, 2]);
    assert_eq!(builtins_to_list(&stored, &[]), Vec::<usize>::new());
}

#[test]
fn builtin_pipelines_are_not_saved() {
    assert_eq!(check_savable(true), Err("Cannot persist builtin pipelines".to_string()));
    assert_eq!(check_savable(false), Ok(()));
}
