use sl_studio::chains::{
    count_keyword_hits, detect_chains, entity_chain_sql, match_reasons, suggestion_sql, summary_keywords, EntityRow,
    ENTITY_CHAIN_HEAD, ENTITY_CHAIN_TAIL, SUGGESTION_HEAD, SUGGESTION_TAIL,
};

fn row(fp: &str, v: &str) -> EntityRow {
    EntityRow { fingerprint: fp.to_string(), value: v.to_string() }
}

fn fps(v: &[&str]) -> Vec<String> {
    v.iter().map(|s| s.to_string()).collect()
}

#[test]
fn chains_need_two_related_facts() {
    let rows = vec![row("f1", "a"), row("f1", "b"), row("f2", "a"), row("f2", "b"), row("f2", "c"), row("f3", "c")];
    let facts = fps(&["f1", "f2", "f3", "f1"]);
    let chains = detect_chains(&facts, &rows, 2);
    let roots: Vec<usize> = chains.iter().map(|c| c.root).collect();
    assert_eq!(roots, vec![0, 1, 3]);
    assert_eq!(chains[0].related, vec![1, 3]);
    assert_eq!(chains[0].shared, vec![2, 2]);
    assert_eq!(chains[1].related, vec![0, 3]);
    assert_eq!(chains[2].related, vec![0, 1]);
}

#[test]
fn chains_with_more_links_come_first() {
    let rows = vec![row("f1", "a"), row("f1", "b"), row("f2", "a"), row("f2", "b"), row("f2", "c"), row("f3", "c")];
    let facts = fps(&["f1", "f2", "f3", "f1"]);
    let chains = detect_chains(&facts, &rows, 1);
    let roots: Vec<usize> = chains.iter().map(|c| c.root).collect();
    assert_eq!(roots, vec![1, 0, 3]);
    assert_eq!(chains[0].related, vec![0, 2, 3]);
    assert_eq!(chains[0].shared, vec![2, 1, 2]);
}

#[test]
fn repeated_values_count_once() {
    let rows = vec![row("f1", "x"), row("f1", "x"), row("f2", "x"), row("f3", "x")];
    let facts = fps(&["f1", "f2", "f3"]);
    let chains = detect_chains(&facts, &rows, 1);
    assert_eq!(chains[0].root, 0);
    assert_eq!(chains[0].related, vec![1, 2]);
    assert_eq!(chains[0].shared, vec![1, 1]);
    assert!(detect_chains(&facts, &rows, 2).is_empty());
}

#[test]
fn shared_count_does_not_depend_on_other_files() {
    let mut rows = Vec::new();
    for i in 0..51 {
        rows.push(row(&format!("g{i}"), "z"));
    }
    rows.push(row("f1", "a"));
    rows.push(row("f1", "a"));
    rows.push(row("f2", "a"));
    let facts = fps(&["f1", "f2", "f2"]);
    let chains = detect_chains(&facts, &rows, 1);
    assert_eq!(chains[0].root, 0);
    assert_eq!(chains[0].shared, vec![1, 1]);
    let few = vec![row("f1", "a"), row("f1", "a"), row("f2", "a")];
    let chains = detect_chains(&facts, &few, 1);
    assert_eq!(chains[0].shared, vec![1, 1]);
}

#[test]
fn no_chains_without_overlap() {
    let rows = vec![row("f1", "a"), row("f2", "b")];
    assert!(detect_chains(&fps(&["f1", "f2"]), &rows, 1).is_empty());
    assert!(detect_chains(&[], &[], 0).is_empty());
}

#[test]
fn keywords_are_long_words_lowercased() {
    assert_eq!(
        summary_keywords("The Quick brown foxes jumped over lazy dogs"),
        vec!["quick", "brown", "foxes", "jumped"]
    );
    let many = "alpha1 alpha2 alpha3 alpha4 alpha5 alpha6 alpha7 alpha8 alpha9 alpha10 alpha11";
    assert_eq!(summary_keywords(many).len(), 10);
    assert_eq!(summary_keywords("Café été abcd"), vec!["café", "été"]);
    assert!(summary_keywords("   ").is_empty());
}

#[test]
fn suggestion_statement() {
    let sql = suggestion_sql(&["o'hara".to_string(), "bank".to_string()]);
    assert_eq!(
        sql,
        format!(
            "{}LOWER(fact_summary) LIKE '%o''hara%' ESCAPE '\\' OR LOWER(fact_summary) LIKE '%bank%' ESCAPE '\\'{}",
            SUGGESTION_HEAD, SUGGESTION_TAIL
        )
    );
}

#[test]
fn keyword_hits_and_reasons() {
    let ks = vec!["quick".to_string(), "slow".to_string(), "fox".to_string()];
    assert_eq!(count_keyword_hits("the quick brown fox", &ks), 2);
    assert_eq!(count_keyword_hits("", &ks), 0);
    assert_eq!(match_reasons(2), "2 keyword matches");
}

#[test]
fn entity_chain_statement() {
    assert_eq!(entity_chain_sql(3), format!("{}?,?,?{}", ENTITY_CHAIN_HEAD, ENTITY_CHAIN_TAIL));
    assert_eq!(entity_chain_sql(0), format!("{}{}", ENTITY_CHAIN_HEAD, ENTITY_CHAIN_TAIL));
}
