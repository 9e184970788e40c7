use sl_studio::workflow::{apply_processing_update, stats_from_counts, workflow_stage, BusyGuard, Operation, ProcessingState};

#[test]
fn labels() {
    assert_eq!(Operation::Scan.label(), "Scanning");
    assert_eq!(Operation::Extract.label(), "Extracting");
    assert_eq!(Operation::Analyze.label(), "Analyzing");
}

#[test]
fn lock_admits_one_operation() {
    let mut st = ProcessingState::idle();
    let g = BusyGuard::acquire(&mut st, Operation::Scan).unwrap();
    assert!(st.is_scanning && !st.is_extracting && !st.is_analyzing);
    let e = BusyGuard::acquire(&mut st, Operation::Extract).err().unwrap();
    assert_eq!(e, "Cannot start extracting: scanning is already in progress. Wait for it to finish or cancel it first.");
    assert!(!st.is_extracting);
    g.release(&mut st);
    assert!(!st.is_scanning);
    let g2 = BusyGuard::acquire(&mut st, Operation::Analyze).unwrap();
    assert_eq!(g2.op, Operation::Analyze);
}

#[test]
fn acquiring_resets_counters() {
    let mut st = ProcessingState::idle();
    apply_processing_update(&mut st, None, None, None, Some("f.pdf".to_string()), Some(5), Some(9));
    assert_eq!((st.current_file.as_str(), st.processed_count, st.total_count), ("f.pdf", 5, 9));
    let g = BusyGuard::acquire(&mut st, Operation::Extract).unwrap();
    assert_eq!((st.current_file.as_str(), st.processed_count, st.total_count), ("", 0, 0));
    g.release(&mut st);
}

#[test]
fn stages_and_stats() {
    assert_eq!(workflow_stage(0, 0, 0), "none");
    assert_eq!(workflow_stage(3, 0, 0), "scanned");
    assert_eq!(workflow_stage(3, 2, 0), "extracted");
    assert_eq!(workflow_stage(3, 2, 1), "analyzed");
    let s = stats_from_counts(Some(4), None);
    assert_eq!((s.registry_count, s.intelligence_count), (4, 0));
}

#[test]
fn releasing_clears_progress() {
    let mut st = ProcessingState::idle();
    let g = BusyGuard::acquire(&mut st, Operation::Analyze).unwrap();
    apply_processing_update(&mut st, None, None, None, Some("b.pdf".to_string()), Some(3), Some(7));
    assert_eq!((st.processed_count, st.total_count), (3, 7));
    g.release(&mut st);
    assert!(!st.is_analyzing);
    assert_eq!((st.current_file.as_str(), st.processed_count, st.total_count), ("", 0, 0));
}
