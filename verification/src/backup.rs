//! Project directories, backup archives and what a restore does with each
//! archive entry.

use vstd::prelude::*;
use crate::paths::{join, join_of, parent, parent_of};
use crate::text::{push_str, string_of};

verus! {

/// The two database files of a project directory.
pub struct ProjectDbFiles {
    pub registry_db: String,
    pub intelligence_db: String,
}

/// What the file system says about a directory that is to be opened as a
/// project.
pub struct ProjectDirProbe {
    pub dir_exists: bool,
    pub registry_exists: bool,
    pub intelligence_exists: bool,
}

/// The database files that a project directory holds.
pub fn project_db_files(dir: &str) -> (r: ProjectDbFiles)
    ensures
        r.registry_db@ == join_of(dir@, "registry.db"@),
        r.intelligence_db@ == join_of(dir@, "intelligence.db"@),
{
    ProjectDbFiles { registry_db: join(dir, "registry.db"), intelligence_db: join(dir, "intelligence.db") }
}

/// Decides whether a directory can be opened as a second project: it must
/// exist and hold both database files.
pub fn open_project_db(dir: &str, probe: &ProjectDirProbe) -> (r: Result<ProjectDbFiles, String>)
    ensures
        !probe.dir_exists ==> (r matches Err(e) && e@ == "Database file not found: "@ + dir@),
        probe.dir_exists && !(probe.registry_exists && probe.intelligence_exists) ==> (r matches Err(e)
            && e@ == "Invalid project directory - missing database files"@),
        probe.dir_exists && probe.registry_exists && probe.intelligence_exists ==> (r matches Ok(f)
            && f.registry_db@ == join_of(dir@, "registry.db"@) && f.intelligence_db@ == join_of(
            dir@,
            "intelligence.db"@,
        )),
{
    if !probe.dir_exists {
        let mut out: Vec<char> = Vec::new();
        push_str(&mut out, "Database file not found: ");
        push_str(&mut out, dir);
        return Err(string_of(out.as_slice()));
    }
    if !probe.registry_exists || !probe.intelligence_exists {
        return Err(String::from_str("Invalid project directory - missing database files"));
    }
    Ok(project_db_files(dir))
}

/// What asking for the database gives: the handle the state holds while a
/// project is open, else the error that commands give.
pub open spec fn require_db_outcome<T>(db: Option<&T>, r: Result<&T, String>) -> bool {
    match db {
        Some(d) => r == Ok::<&T, String>(d),
        None => r matches Err(e) && e@ == "Database not initialized"@,
    }
}

/// Returns the open database, or the error that commands give when no
/// project is open.
pub fn require_db<T>(db: Option<&T>) -> (r: Result<&T, String>)
    ensures
        require_db_outcome(db, r),
{
    match db {
        Some(d) => Ok(d),
        None => Err(String::from_str("Database not initialized")),
    }
}

/// Every command that asks for the database while a project is open gets the
/// one handle the state holds: once a call has succeeded, any later call on
/// the same state gives that same handle back.
pub proof fn law_require_db_shares_one_handle<T>(db: Option<&T>, first: Result<&T, String>, later: Result<&T, String>)
    requires
        require_db_outcome(db, first),
        require_db_outcome(db, later),
        first is Ok,
    ensures
        later == first,
        db matches Some(d) && first == Ok::<&T, String>(d),
{
}

/// Counts describing an open project.
pub struct ProjectSummary {
    pub name: String,
    pub path: String,
    pub fact_count: i64,
    pub entity_count: i64,
    pub timeline_count: i64,
}

/// The directory a project is shown under: the parent of its registry
/// database, or nothing.
pub open spec fn project_dir_of(registry_db: Seq<char>) -> Seq<char> {
    match parent_of(registry_db) {
        Some(p) => p,
        None => Seq::<char>::empty(),
    }
}

impl ProjectSummary {
    /// Summarises a project from its name, registry database path and counts.
    pub fn new(name: String, registry_db: &str, fact_count: i64, entity_count: i64, timeline_count: i64) -> (r: ProjectSummary)
        ensures
            r.name == name,
            r.path@ == project_dir_of(registry_db@),
            r.fact_count == fact_count,
            r.entity_count == entity_count,
            r.timeline_count == timeline_count,
    {
        let path = match parent(registry_db) {
            Some(p) => p,
            None => String::new(),
        };
        ProjectSummary { name, path, fact_count, entity_count, timeline_count }
    }
}

/// What a created backup archive holds.
pub struct BackupInfo {
    pub backup_path: String,
    pub size_bytes: u64,
    pub created_at: String,
    pub includes_evidence: bool,
}

/// The file name of a backup taken at the given local time stamp
/// (`YYYYmmdd_HHMMSS`).
pub fn backup_file_name(stamp: &str) -> (r: String)
    ensures
        r@ == "slstudio_backup_"@ + stamp@ + ".zip"@,
{
    let mut out: Vec<char> = Vec::new();
    push_str(&mut out, "slstudio_backup_");
    push_str(&mut out, stamp);
    push_str(&mut out, ".zip");
    string_of(out.as_slice())
}

/// The archive entry under which an evidence file is stored.
pub open spec fn evidence_entry_of(relative: Seq<char>) -> Seq<char> {
    "evidence/"@ + relative
}

/// Names the archive entry of an evidence file from its path below the
/// evidence root.
pub fn evidence_entry_name(relative: &str) -> (r: String)
    ensures
        r@ == evidence_entry_of(relative@),
{
    let mut out: Vec<char> = Vec::new();
    push_str(&mut out, "evidence/");
    push_str(&mut out, relative);
    string_of(out.as_slice())
}

/// Where a restore writes an archive entry.
pub enum RestoreTarget {
    RegistryDb,
    IntelligenceDb,
    /// A file below the evidence root, at this relative path.
    Evidence(String),
    Skip,
}

/// The spec side of [`RestoreTarget`].
pub enum RestoreTargetView {
    RegistryDb,
    IntelligenceDb,
    Evidence(Seq<char>),
    Skip,
}

impl RestoreTarget {
    pub open spec fn view(self) -> RestoreTargetView {
        match self {
            RestoreTarget::RegistryDb => RestoreTargetView::RegistryDb,
            RestoreTarget::IntelligenceDb => RestoreTargetView::IntelligenceDb,
            RestoreTarget::Evidence(p) => RestoreTargetView::Evidence(p@),
            RestoreTarget::Skip => RestoreTargetView::Skip,
        }
    }
}

/// Where a restore puts the archive entry of the given name.
pub open spec fn restore_target_of(name: Seq<char>) -> RestoreTargetView {
    if name == "registry.db"@ {
        RestoreTargetView::RegistryDb
    } else if name == "intelligence.db"@ {
        RestoreTargetView::IntelligenceDb
    } else if name.len() >= 9 && name.take(9) == "evidence/"@ {
        RestoreTargetView::Evidence(name.skip(9))
    } else {
        RestoreTargetView::Skip
    }
}

/// Decides where a restore writes an archive entry.
pub fn restore_target(name: &str) -> (r: RestoreTarget)
    ensures
        r.view() == restore_target_of(name@),
{
    proof {
        reveal_strlit("evidence/");
    }
    let cs = crate::text::chars_of(name);
    let reg = crate::text::chars_of("registry.db");
    let intel = crate::text::chars_of("intelligence.db");
    let prefix = crate::text::chars_of("evidence/");
    if crate::text::chars_eq(cs.as_slice(), reg.as_slice()) {
        return RestoreTarget::RegistryDb;
    }
    if crate::text::chars_eq(cs.as_slice(), intel.as_slice()) {
        return RestoreTarget::IntelligenceDb;
    }
    if cs.len() >= 9 && prefix.len() == 9 {
        let mut i: usize = 0;
        let mut same = true;
        assert(cs@.take(0) =~= prefix@.take(0));
        while i < 9
            invariant
                cs@ == name@,
                prefix@ == "evidence/"@,
                prefix@.len() == 9,
                cs@.len() >= 9,
                i <= 9,
                same == (cs@.take(i as int) == prefix@.take(i as int)),
            decreases 9 - i,
        {
            if cs[i] != prefix[i] {
                same = false;
            }
            proof {
                assert(cs@.take(i as int + 1) =~= cs@.take(i as int).push(cs@[i as int]));
                assert(prefix@.take(i as int + 1) =~= prefix@.take(i as int).push(prefix@[i as int]));
                if cs@.take(i as int + 1) == prefix@.take(i as int + 1) {
                    assert(cs@.take(i as int + 1)[i as int] == prefix@.take(i as int + 1)[i as int]);
                    assert(cs@.take(i as int) =~= cs@.take(i as int + 1).take(i as int));
                    assert(prefix@.take(i as int) =~= prefix@.take(i as int + 1).take(i as int));
                }
            }
            i = i + 1;
        }
        assert(prefix@.take(9) =~= prefix@);
        if same {
            let mut rest: Vec<char> = Vec::new();
            let mut j: usize = 9;
            while j < cs.len()
                invariant
                    9 <= j <= cs@.len(),
                    rest@ == cs@.subrange(9, j as int),
                decreases cs.len() - j,
            {
                rest.push(cs[j]);
                j = j + 1;
                assert(rest@ =~= cs@.subrange(9, j as int));
            }
            assert(rest@ =~= name@.skip(9));
            return RestoreTarget::Evidence(string_of(rest.as_slice()));
        }
    }
    RestoreTarget::Skip
}

/// An evidence file stored by a backup comes back, on restore, to the same
/// path below the evidence root.
pub proof fn law_evidence_round_trip(relative: Seq<char>)
    ensures
        restore_target_of(evidence_entry_of(relative)) == RestoreTargetView::Evidence(relative),
{
    reveal_strlit("evidence/");
    reveal_strlit("registry.db");
    reveal_strlit("intelligence.db");
    let e = evidence_entry_of(relative);
    assert(e.take(9) =~= "evidence/"@);
    assert(e.skip(9) =~= relative);
    assert(e[8] == '/');
    assert("registry.db"@[8] == '.');
    assert("intelligence.db"@[8] == 'e');
}

/// The two databases of a backup come back, on restore, to the project's
/// database files.
pub proof fn law_database_entries_restore()
    ensures
        restore_target_of("registry.db"@) == RestoreTargetView::RegistryDb,
        restore_target_of("intelligence.db"@) == RestoreTargetView::IntelligenceDb,
{
    reveal_strlit("registry.db");
    reveal_strlit("intelligence.db");
    assert("registry.db"@.len() == 11);
    assert("intelligence.db"@.len() == 15);
    assert("intelligence.db"@ != "registry.db"@);
}

} // verus!
