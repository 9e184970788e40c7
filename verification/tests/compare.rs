use sl_studio::compare::{compare_dates, compare_entity_counts, project_label, EntityCount};

fn ec(v: &str, t: &str, n: i32) -> EntityCount {
    EntityCount { value: v.to_string(), entity_type: t.to_string(), occurrence_count: n }
}

#[test]
fn shared_entities_sum_their_counts() {
    let e1 = vec![ec("Alice", "PERSON", 3), ec("Bob", "PERSON", 1), ec("Alice", "PERSON", 2), ec("Acme", "ORG", 4)];
    let e2 = vec![ec("Acme", "ORG", 1), ec("Alice", "PERSON", 5), ec("Carol", "PERSON", 2)];
    let r = compare_entity_counts(&e1, &e2);
    assert_eq!(r.overlap.len(), 2);
    assert_eq!(
        (r.overlap[0].entity_value.as_str(), r.overlap[0].entity_type.as_str(), r.overlap[0].count_project1, r.overlap[0].count_project2),
        ("Alice", "PERSON", 5, 5)
    );
    assert_eq!(
        (r.overlap[1].entity_value.as_str(), r.overlap[1].entity_type.as_str(), r.overlap[1].count_project1, r.overlap[1].count_project2),
        ("Acme", "ORG", 4, 1)
    );
    assert_eq!(r.common_rows, vec![0, 3]);
    assert_eq!((r.distinct1, r.distinct2), (3, 3));
}

#[test]
fn disjoint_projects_share_nothing() {
    let r = compare_entity_counts(&[ec("x", "T", 1)], &[ec("y", "T", 1)]);
    assert!(r.overlap.is_empty());
    assert!(r.common_rows.is_empty());
    let r = compare_entity_counts(&[], &[]);
    assert_eq!((r.distinct1, r.distinct2), (0, 0));
}

#[test]
fn dates_align_and_union() {
    let d1: Vec<String> = vec!["2024-01-01", "2024-01-02", "2024-01-01"].into_iter().map(String::from).collect();
    let d2: Vec<String> = vec!["2024-01-02", "2024-01-03"].into_iter().map(String::from).collect();
    let c = compare_dates(&d1, &d2);
    assert_eq!(c.aligned, 1);
    assert_eq!(c.union_size, 3);
    assert!(c.aligned <= c.union_size);
    assert_eq!(c.range1, ("2024-01-01".to_string(), "2024-01-01".to_string()));
    assert_eq!(c.range2, ("2024-01-02".to_string(), "2024-01-03".to_string()));
    let e = compare_dates(&[], &[]);
    assert_eq!((e.aligned, e.union_size), (0, 0));
    assert_eq!(e.range1, (String::new(), String::new()));
}

#[test]
fn second_project_is_named_after_its_folder() {
    assert_eq!(project_label("/cases/harbor"), "harbor");
    assert_eq!(project_label("/cases/harbor/"), "harbor");
    assert_eq!(project_label("/"), "Project 2");
}

#[test]
fn overlap_counts_distinct_shared_values() {
    let e1 = vec![ec("a", "T", 1), ec("a", "T", 1), ec("b", "T", 1), ec("c", "T", 1)];
    let e2 = vec![ec("c", "T", 1), ec("a", "T", 1), ec("a", "T", 1), ec("d", "T", 1)];
    let r = compare_entity_counts(&e1, &e2);
    // {a, b, c} and {a, c, d} share {a, c}
    assert_eq!(r.overlap.len(), 2);
    assert_eq!((r.distinct1, r.distinct2), (3, 3));
    assert_eq!((r.overlap[0].count_project1, r.overlap[0].count_project2), (2, 2));
}
