use rusqlite::Connection;
use sl_studio::migrations::{intelligence_migrations, pending_migrations, registry_migrations, Migration};

fn fake_migrations() -> Vec<Migration> {
    vec![
        Migration { version: 1, name: "create_foo", up_sql: "CREATE TABLE foo (id INTEGER)" },
        Migration { version: 2, name: "add_bar_column", up_sql: "ALTER TABLE foo ADD COLUMN bar TEXT" },
    ]
}

/// Applies the pending migrations the way the application does.
fn run_migrations(conn: &mut Connection, migrations: &[Migration]) -> rusqlite::Result<()> {
    conn.execute(
        "CREATE TABLE IF NOT EXISTS schema_migrations (
            version INTEGER PRIMARY KEY,
            name TEXT,
            applied_at DATETIME DEFAULT CURRENT_TIMESTAMP
        )",
        [],
    )?;
    let applied: Vec<i64> = {
        let mut stmt = conn.prepare("SELECT version FROM schema_migrations")?;
        let rows = stmt.query_map([], |row| row.get::<_, i64>(0))?;
        let mut v = Vec::new();
        for r in rows {
            v.push(r?);
        }
        v
    };
    for migration in pending_migrations(&applied, migrations) {
        let tx = conn.transaction()?;
        tx.execute_batch(migration.up_sql)?;
        tx.execute(
            "INSERT INTO schema_migrations (version, name) VALUES (?1, ?2)",
            (migration.version, migration.name),
        )?;
        tx.commit()?;
    }
    Ok(())
}

#[test]
fn applies_migrations_and_tracks_versions() {
    let mut conn = Connection::open_in_memory().unwrap();
    let migs = fake_migrations();
    run_migrations(&mut conn, &migs).unwrap();

    let versions: Vec<i64> = conn
        .prepare("SELECT version FROM schema_migrations ORDER BY version")
        .unwrap()
        .query_map([], |row| row.get(0))
        .unwrap()
        .map(|r| r.unwrap())
        .collect();
    assert_eq!(versions, vec![1, 2]);

    conn.execute("INSERT INTO foo (id, bar) VALUES (1, 'hi')", []).unwrap();
}

#[test]
fn rerun_is_idempotent() {
    let mut conn = Connection::open_in_memory().unwrap();
    let migs = fake_migrations();
    run_migrations(&mut conn, &migs).unwrap();
    run_migrations(&mut conn, &migs).unwrap();

    let count: i64 = conn.query_row("SELECT COUNT(*) FROM schema_migrations", [], |r| r.get(0)).unwrap();
    assert_eq!(count, 2);
}

#[test]
fn baseline_migrations_run_clean() {
    let mut conn = Connection::open_in_memory().unwrap();
    run_migrations(&mut conn, &intelligence_migrations()).unwrap();
    run_migrations(&mut conn, &registry_migrations()).unwrap();
    let max: i64 = conn
        .query_row("SELECT COALESCE(MAX(version), 0) FROM schema_migrations", [], |r| r.get(0))
        .unwrap();
    assert_eq!(max, 1);
}

#[test]
fn pending_skips_applied_versions_in_order() {
    let migs = fake_migrations();
    let p = pending_migrations(&[1], &migs);
    assert_eq!(p.len(), 1);
    assert_eq!(p[0].version, 2);
    assert_eq!(p[0].name, "add_bar_column");
    let all = pending_migrations(&[], &migs);
    assert_eq!(all.iter().map(|m| m.version).collect::<Vec<_>>(), vec![1, 2]);
}

#[test]
fn pending_after_applying_pending_is_empty() {
    let migs = fake_migrations();
    let first = pending_migrations(&[2], &migs);
    let mut applied = vec![2];
    applied.extend(first.iter().map(|m| m.version));
    assert!(pending_migrations(&applied, &migs).is_empty());
}

#[test]
fn baseline_migration_lists() {
    let i = intelligence_migrations();
    let r = registry_migrations();
    assert_eq!(i.len(), 1);
    assert_eq!((i[0].version, i[0].name, i[0].up_sql), (1, "baseline_intelligence_schema", "SELECT 1"));
    assert_eq!((r[0].version, r[0].name, r[0].up_sql), (1, "baseline_registry_schema", "SELECT 1"));
}

#[test]
fn only_versions_above_the_highest_applied_run() {
    let migs = fake_migrations();
    assert!(pending_migrations(&[2], &migs).is_empty());
    let three = vec![
        Migration { version: 1, name: "a", up_sql: "SELECT 1" },
        Migration { version: 2, name: "b", up_sql: "SELECT 1" },
        Migration { version: 3, name: "c", up_sql: "SELECT 1" },
    ];
    let p = pending_migrations(&[2, 1], &three);
    assert_eq!(p.iter().map(|m| m.version).collect::<Vec<_>>(), vec![3]);
    let q = pending_migrations(&[2], &three);
    assert_eq!(q.iter().map(|m| m.name).collect::<Vec<_>>(), vec!["c"]);
}

#[test]
fn skipped_lower_version_is_not_applied_by_a_run() {
    let mut conn = Connection::open_in_memory().unwrap();
    conn.execute(
        "CREATE TABLE schema_migrations (version INTEGER PRIMARY KEY, name TEXT, applied_at DATETIME DEFAULT CURRENT_TIMESTAMP)",
        [],
    )
    .unwrap();
    conn.execute("INSERT INTO schema_migrations (version, name) VALUES (2, 'add_bar_column')", []).unwrap();
    run_migrations(&mut conn, &fake_migrations()).unwrap();
    let count: i64 = conn.query_row("SELECT COUNT(*) FROM schema_migrations", [], |r| r.get(0)).unwrap();
    assert_eq!(count, 1);
}
