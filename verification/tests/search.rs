use sl_studio::search::{
    entity_search_sql, fact_search_sql, parse_search_query, tag_search_sql, timeline_sql, ENTITY_SEARCH_SELECT,
    FACT_SEARCH_SELECT, TAG_SEARCH_HEAD, TIMELINE_SELECT,
};

#[test]
fn query_operators_are_upper_cased() {
    assert_eq!(parse_search_query("fraud and  bank"), "fraud AND bank");
    assert_eq!(parse_search_query("alpha or beta"), "alpha OR beta");
    assert_eq!(parse_search_query("\"wire  transfer\" not cash"), "\"wire  transfer\" NOT cash");
    assert_eq!(parse_search_query("(a)  or (b)"), "(a) OR (b)");
}

#[test]
fn query_spacing_is_collapsed_and_trimmed() {
    assert_eq!(parse_search_query("  hello   world  "), "hello world");
    assert_eq!(parse_search_query("orange"), "orange");
    assert_eq!(parse_search_query(""), "");
}

#[test]
fn query_operator_prefix_is_taken_as_operator() {
    assert_eq!(parse_search_query("x android"), "x AND roid");
}

#[test]
fn fact_search_without_filters() {
    let sql = fact_search_sql(0, false, false, false);
    assert_eq!(sql, format!("{} ORDER BY rank LIMIT ?", FACT_SEARCH_SELECT));
}

#[test]
fn fact_search_numbers_its_filters() {
    let sql = fact_search_sql(2, true, false, true);
    assert_eq!(
        sql,
        format!(
            "{} AND category IN (?2,?2) AND severity_score >= ?4 AND associated_date <= ?5 ORDER BY rank LIMIT ?",
            FACT_SEARCH_SELECT
        )
    );
    let sql = fact_search_sql(0, false, true, true);
    assert_eq!(
        sql,
        format!("{} AND associated_date >= ?2 AND associated_date <= ?3 ORDER BY rank LIMIT ?", FACT_SEARCH_SELECT)
    );
}

#[test]
fn entity_search_numbers_its_filters() {
    assert_eq!(
        entity_search_sql(3, true),
        format!("{} AND e.entity_type IN (?2,?2,?2) AND e.confidence >= ?5 ORDER BY rank LIMIT ?", ENTITY_SEARCH_SELECT)
    );
    assert_eq!(entity_search_sql(0, false), format!("{} ORDER BY rank LIMIT ?", ENTITY_SEARCH_SELECT));
}

#[test]
fn tag_search_escapes_and_joins() {
    let tags = vec!["o'brien".to_string(), "a\\b".to_string()];
    let any = tag_search_sql(&tags, false).unwrap();
    assert_eq!(
        any,
        format!(
            "{}tags LIKE '%o''brien%' ESCAPE '\\' OR tags LIKE '%a\\\\b%' ESCAPE '\\') LIMIT ?",
            TAG_SEARCH_HEAD
        )
    );
    let all = tag_search_sql(&tags[..1], true).unwrap();
    assert_eq!(all, format!("{}tags LIKE '%o''brien%' ESCAPE '\\') LIMIT ?", TAG_SEARCH_HEAD));
    assert_eq!(tag_search_sql(&[], true), None);
}

#[test]
fn tag_search_runs_on_sqlite() {
    let conn = rusqlite::Connection::open_in_memory().unwrap();
    conn.execute_batch(
        "CREATE TABLE intelligence (id INTEGER PRIMARY KEY, fingerprint TEXT, filename TEXT, fact_summary TEXT,
            category TEXT, severity_score INTEGER, confidence REAL, created_at TEXT, tags TEXT, is_deleted BOOLEAN DEFAULT FALSE);
         INSERT INTO intelligence (id, tags) VALUES (1, 'o''brien,fraud'), (2, 'fraud'), (3, 'other');",
    )
    .unwrap();
    let sql = tag_search_sql(&["o'brien".to_string(), "fraud".to_string()], true).unwrap();
    let ids: Vec<i64> = conn
        .prepare(&sql)
        .unwrap()
        .query_map([10], |r| r.get(0))
        .unwrap()
        .map(|r| r.unwrap())
        .collect();
    assert_eq!(ids, vec![1]);
}

#[test]
fn timeline_query_filters() {
    assert_eq!(timeline_sql(false, false), format!("{} ORDER BY associated_date ASC LIMIT ?", TIMELINE_SELECT));
    assert_eq!(
        timeline_sql(true, true),
        format!(
            "{} AND associated_date >= ? AND associated_date <= ? ORDER BY associated_date ASC LIMIT ?",
            TIMELINE_SELECT
        )
    );
}
