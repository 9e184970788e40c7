use sl_studio::dedup::merge_targets;

#[test]
fn merge_deletes_all_but_keeper() {
    assert_eq!(merge_targets(5, &[3, 5, 7, 5, 9]), vec![3, 7, 9]);
    assert_eq!(merge_targets(5, &[5]), Vec::<i64>::new());
    assert_eq!(merge_targets(5, &[]), Vec::<i64>::new());
}

#[test]
fn merge_never_deletes_the_keeper() {
    let members = [1, 2, 3, 2, 1];
    for keeper in [1i64, 2, 3, 4] {
        let t = merge_targets(keeper, &members);
        assert!(!t.contains(&keeper));
        for m in members {
            if m != keeper {
                assert!(t.contains(&m));
            }
        }
    }
}
