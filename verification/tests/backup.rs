use sl_studio::backup::{
    backup_file_name, evidence_entry_name, open_project_db, project_db_files, require_db, restore_target, ProjectDirProbe,
    ProjectSummary, RestoreTarget,
};

#[test]
fn project_directory_checks() {
    let none = ProjectDirProbe { dir_exists: false, registry_exists: false, intelligence_exists: false };
    assert_eq!(open_project_db("/x", &none).err().unwrap(), "Database file not found: /x");
    let half = ProjectDirProbe { dir_exists: true, registry_exists: true, intelligence_exists: false };
    assert_eq!(open_project_db("/x", &half).err().unwrap(), "Invalid project directory - missing database files");
    let full = ProjectDirProbe { dir_exists: true, registry_exists: true, intelligence_exists: true };
    let f = open_project_db("/x", &full).ok().unwrap();
    assert_eq!(f.registry_db, "/x/registry.db");
    assert_eq!(f.intelligence_db, "/x/intelligence.db");
    let g = project_db_files("/p/");
    assert_eq!(g.registry_db, "/p/registry.db");
}

#[test]
fn missing_database_is_reported() {
    let db: Option<&u32> = None;
    assert_eq!(require_db(db).err().unwrap(), "Database not initialized");
    let x = 7u32;
    assert_eq!(*require_db(Some(&x)).unwrap(), 7);
}

#[test]
fn summary_path_is_the_database_folder() {
    let s = ProjectSummary::new("Case".to_string(), "/data/slstudio/registry.db", 3, 4, 5);
    assert_eq!(s.path, "/data/slstudio");
    assert_eq!((s.fact_count, s.entity_count, s.timeline_count), (3, 4, 5));
    let s = ProjectSummary::new("Case".to_string(), "", 0, 0, 0);
    assert_eq!(s.path, "");
}

#[test]
fn backup_names() {
    assert_eq!(backup_file_name("20240102_030405"), "slstudio_backup_20240102_030405.zip");
    assert_eq!(evidence_entry_name("a/b.txt"), "evidence/a/b.txt");
}

#[test]
fn restore_routes_entries() {
    assert!(matches!(restore_target("registry.db"), RestoreTarget::RegistryDb));
    assert!(matches!(restore_target("intelligence.db"), RestoreTarget::IntelligenceDb));
    assert!(matches!(restore_target("config.json"), RestoreTarget::Skip));
    assert!(matches!(restore_target("evidence"), RestoreTarget::Skip));
    match restore_target("evidence/a/b.txt") {
        RestoreTarget::Evidence(p) => assert_eq!(p, "a/b.txt"),
        _ => panic!("evidence entry not routed"),
    }
}

#[test]
fn evidence_round_trips_through_backup() {
    for rel in ["x.pdf", "deep/dir/y.msg", ""] {
        match restore_target(&evidence_entry_name(rel)) {
            RestoreTarget::Evidence(p) => assert_eq!(p, rel),
            _ => panic!("evidence entry not routed"),
        }
    }
}

#[test]
fn every_call_gets_the_one_open_handle() {
    let shared = vec![1u8, 2, 3];
    let open = Some(&shared);
    let first = require_db(open).unwrap();
    let later = require_db(open).unwrap();
    assert!(std::ptr::eq(first, later));
    assert!(std::ptr::eq(first, &shared));
}
