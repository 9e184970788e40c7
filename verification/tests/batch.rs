use sl_studio::batch::{
    extraction_audit_detail, people_field, persist_action, plan_extraction, AnalysisAction, AnalysisEvent,
    AnalysisProgress, AnalysisRun, ExtractionOutcome, ExtractionProgress, PersistAction, TextLookup,
};

#[test]
fn cached_texts_are_reused() {
    let lookups = vec![
        TextLookup { registered: true, cached_text: Some("héllo".to_string()) },
        TextLookup { registered: false, cached_text: Some("ignored".to_string()) },
        TextLookup { registered: true, cached_text: None },
        TextLookup { registered: true, cached_text: Some(String::new()) },
    ];
    let p = plan_extraction(&lookups);
    assert_eq!(p.cached, vec![0]);
    assert_eq!(p.cached_chars, vec![5]);
    assert_eq!(p.to_extract, vec![2, 3]);
}

#[test]
fn checkpoint_every_tenth_stored_result() {
    let (a, n) = persist_action(9, &ExtractionOutcome::Extracted { has_text: true });
    assert!(matches!(a, PersistAction::Store { checkpoint: true }));
    assert_eq!(n, 10);
    let (a, n) = persist_action(3, &ExtractionOutcome::Extracted { has_text: true });
    assert!(matches!(a, PersistAction::Store { checkpoint: false }));
    assert_eq!(n, 4);
    let (a, n) = persist_action(3, &ExtractionOutcome::Failed { has_error: true });
    assert!(matches!(a, PersistAction::RecordError));
    assert_eq!(n, 3);
    let (a, _) = persist_action(3, &ExtractionOutcome::Failed { has_error: false });
    assert!(matches!(a, PersistAction::Nothing));
    let (a, n) = persist_action(3, &ExtractionOutcome::Extracted { has_text: false });
    assert!(matches!(a, PersistAction::Nothing));
    assert_eq!(n, 3);
}

#[test]
fn extraction_summary_counts() {
    let p = ExtractionProgress::finished(5, &[true, false, true, true]);
    assert_eq!((p.total, p.processed, p.success_count, p.error_count), (5, 4, 3, 1));
    assert_eq!(p.phase, "Complete");
    assert_eq!(p.current_file, "");
    assert_eq!(extraction_audit_detail(4, 3, 1, 2), "total=4,success=3,errors=1,cache_hits=2");
}

#[test]
fn analysis_run_counts_and_checkpoints() {
    let mut run = AnalysisRun::new(7);
    let s = AnalysisProgress::starting(7);
    assert_eq!((s.current_file.as_str(), s.phase.as_str()), ("Starting analysis...", "Initializing"));
    assert!(matches!(run.step(AnalysisEvent::LookupFailed), AnalysisAction::RecordError));
    assert!(matches!(run.step(AnalysisEvent::NoText), AnalysisAction::Skip));
    assert_eq!(run.processed, 0);
    for _ in 0..4 {
        assert!(matches!(run.step(AnalysisEvent::Analyzed { facts: 2 }), AnalysisAction::Save { checkpoint: false }));
    }
    assert!(matches!(run.step(AnalysisEvent::Failed), AnalysisAction::RecordError));
    assert!(matches!(run.step(AnalysisEvent::Analyzed { facts: 3 }), AnalysisAction::Save { checkpoint: false }));
    assert_eq!(run.processed, 6);
    assert_eq!(run.files_saved, 5);
    assert_eq!(run.facts_saved, 11);
    let p = run.progress("doc.pdf".to_string());
    assert_eq!((p.total, p.processed, p.current_file.as_str(), p.phase.as_str()), (7, 6, "doc.pdf", "Analyzing"));
    let f = run.finished();
    assert_eq!((f.processed, f.phase.as_str()), (6, "Complete"));
    assert_eq!(run.audit_detail(), "files=5,facts_saved=11");
}

#[test]
fn fifth_processed_file_checkpoints() {
    let mut run = AnalysisRun::new(5);
    for _ in 0..4 {
        run.step(AnalysisEvent::Failed);
    }
    assert!(matches!(run.step(AnalysisEvent::Analyzed { facts: 1 }), AnalysisAction::Save { checkpoint: true }));
}

#[test]
fn people_are_joined() {
    assert_eq!(people_field(&["Ann".to_string(), "Bo".to_string()]), Some("Ann, Bo".to_string()));
    assert_eq!(people_field(&["Ann".to_string()]), Some("Ann".to_string()));
    assert_eq!(people_field(&[]), None);
}
