use sl_studio::registry::{
    batch_progress, change_fingerprint, change_priority, content_fingerprint, file_extension, registry_file_type,
    scan_audit_detail, unregistered_positions, RegistryProgress,
};

#[test]
fn test_hash_file() {
    let hash = content_fingerprint(b"test content");
    assert_eq!(hash.len(), 64);
}

#[test]
fn content_fingerprint_is_sha256_hex() {
    assert_eq!(
        content_fingerprint(b"test content"),
        "6ae8a75555209fd6c44157c0aed8016e763ff435a19cf186f76863140143ff72"
    );
    assert_eq!(content_fingerprint(b""), "e3b0c44298fc1c149afbf4c8996fb92427ae41e4649b934ca495991b7852b855");
}

#[test]
fn change_fingerprint_hashes_size_time_and_content() {
    assert_eq!(
        change_fingerprint(12, Some(1700000000), b"test content"),
        "87a112a9313678712831892f0c549313c1d04d8ed1c584644b2ee72e4454040d-12"
    );
    assert_eq!(
        change_fingerprint(12, None, b"test content"),
        "f029ad8ae75c60d6914dd88a20862ef82afd4095aedbf1af4d3f18e680bfd1d0-12"
    );
}

#[test]
fn change_fingerprint_differs_with_size() {
    let a = change_fingerprint(12, Some(5), b"same");
    let b = change_fingerprint(13, Some(5), b"same");
    assert_ne!(a, b);
    assert!(a.ends_with("-12"));
    assert!(b.ends_with("-13"));
}

#[test]
fn priority_follows_registry_state() {
    assert_eq!(change_priority(false, Some(10), 20, true, false), 0);
    assert_eq!(change_priority(true, None, 20, true, false), 0);
    assert_eq!(change_priority(true, Some(10), 20, false, false), 1);
    assert_eq!(change_priority(true, Some(20), 20, true, false), 2);
    assert_eq!(change_priority(true, Some(30), 20, true, true), 3);
    assert_eq!(change_priority(true, Some(30), 20, false, false), 3);
}

#[test]
fn extensions_follow_path_rules() {
    assert_eq!(file_extension("report.PDF"), Some("PDF".to_string()));
    assert_eq!(file_extension("archive.tar.gz"), Some("gz".to_string()));
    assert_eq!(file_extension(".bashrc"), None);
    assert_eq!(file_extension("README"), None);
    assert_eq!(file_extension("trailing."), Some(String::new()));
    assert_eq!(file_extension(".."), None);
    assert_eq!(registry_file_type("Scan.JPG"), "jpg");
    assert_eq!(registry_file_type("Makefile"), "unknown");
}

#[test]
fn scan_progress_messages() {
    let p = RegistryProgress::discovering();
    assert_eq!((p.total, p.processed, p.current_file.as_str(), p.phase.as_str()), (0, 0, "Discovering files...", "discovery"));
    let p = RegistryProgress::discovered(42);
    assert_eq!(p.current_file, "Found 42 files...");
    let p = RegistryProgress::loading_cache(42);
    assert_eq!((p.current_file.as_str(), p.phase.as_str()), ("Loading cache...", "cache"));
    let p = RegistryProgress::hashing(42);
    assert_eq!((p.current_file.as_str(), p.phase.as_str()), ("Hashing files...", "hashing"));
    let p = RegistryProgress::batch_stored(100, 250);
    assert_eq!((p.processed, p.total), (100, 250));
    assert_eq!(p.current_file, "Hashing 100 / 250...");
    let p = RegistryProgress::complete(10, 3);
    assert_eq!(p.processed, 10);
    assert_eq!(p.current_file, "Scan complete: 3 new, 7 existing");
    assert_eq!(p.phase, "complete");
    let p = RegistryProgress::complete(2, 5);
    assert_eq!(p.current_file, "Scan complete: 5 new, 0 existing");
    assert_eq!(scan_audit_detail(4, 9), "Added 4 new files, 9 existing");
}

#[test]
fn only_unregistered_files_are_added() {
    let fps = vec!["a".to_string(), "b".to_string(), "c".to_string(), "a".to_string()];
    let existing = vec!["b".to_string()];
    assert_eq!(unregistered_positions(&fps, &existing), vec![0, 2, 3]);
    assert_eq!(unregistered_positions(&fps, &fps), Vec::<usize>::new());
}

#[test]
fn batches_report_running_totals() {
    assert_eq!(batch_progress(250, 100), vec![100, 200, 250]);
    assert_eq!(batch_progress(0, 100), Vec::<usize>::new());
    assert_eq!(batch_progress(100, 100), vec![100]);
}

#[test]
fn rescan_after_registering_adds_nothing() {
    let fps = vec!["x".to_string(), "y".to_string(), "x".to_string()];
    let mut existing = vec!["z".to_string()];
    let first = unregistered_positions(&fps, &existing);
    assert_eq!(first, vec![0, 1, 2]);
    existing.extend(fps.iter().cloned());
    assert!(unregistered_positions(&fps, &existing).is_empty());
}
