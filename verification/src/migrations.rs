//! Versioned schema migrations and the choice of which ones still have to run.

use vstd::prelude::*;

verus! {

/// One schema change: applied once, recorded under its version.
#[derive(Clone, Copy, Debug)]
pub struct Migration {
    pub version: i64,
    pub name: &'static str,
    pub up_sql: &'static str,
}

/// Migrations for the intelligence database. Version 1 is the baseline that
/// records the schema the application creates as already applied.
pub fn intelligence_migrations() -> (r: Vec<Migration>)
    ensures
        r@.len() == 1,
        r@[0].version == 1,
        r@[0].name@ == "baseline_intelligence_schema"@,
        r@[0].up_sql@ == "SELECT 1"@,
{
    let mut r = Vec::new();
    r.push(Migration { version: 1, name: "baseline_intelligence_schema", up_sql: "SELECT 1" });
    r
}

/// Migrations for the registry database.
pub fn registry_migrations() -> (r: Vec<Migration>)
    ensures
        r@.len() == 1,
        r@[0].version == 1,
        r@[0].name@ == "baseline_registry_schema"@,
        r@[0].up_sql@ == "SELECT 1"@,
{
    let mut r = Vec::new();
    r.push(Migration { version: 1, name: "baseline_registry_schema", up_sql: "SELECT 1" });
    r
}

/// The highest applied version, or `None` when nothing is applied yet.
pub open spec fn max_applied(applied: Seq<i64>) -> Option<i64>
    decreases applied.len(),
{
    if applied.len() == 0 {
        None
    } else {
        let x = applied.last();
        match max_applied(applied.drop_last()) {
            None => Some(x),
            Some(m) => Some(if x > m { x } else { m }),
        }
    }
}

/// Whether a migration of version `v` is newer than the highest applied
/// version `top` (every version is, when nothing is applied).
pub open spec fn newer_than(top: Option<i64>, v: i64) -> bool {
    match top {
        None => true,
        Some(m) => v > m,
    }
}

/// The migrations, in order, whose version is greater than the highest
/// applied version; all of them when nothing is applied.
pub open spec fn pending(applied: Seq<i64>, ms: Seq<Migration>) -> Seq<Migration>
    decreases ms.len(),
{
    if ms.len() == 0 {
        Seq::empty()
    } else {
        let rest = pending(applied, ms.drop_last());
        if newer_than(max_applied(applied), ms.last().version) { rest.push(ms.last()) } else { rest }
    }
}

/// The versions of a list of migrations.
pub open spec fn versions(ms: Seq<Migration>) -> Set<i64> {
    Set::new(|v: i64| exists|i: int| 0 <= i < ms.len() && #[trigger] ms[i].version == v)
}

/// The versions of a list of migrations, in list order.
pub open spec fn version_list(ms: Seq<Migration>) -> Seq<i64> {
    ms.map_values(|m: Migration| m.version)
}

/// Picks the migrations that still have to run, in their given order: those
/// whose version is greater than the highest applied version, or all of them
/// when no version is applied yet.
pub fn pending_migrations(applied: &[i64], migrations: &[Migration]) -> (r: Vec<Migration>)
    ensures
        r@ == pending(applied@, migrations@),
{
    let mut top: Option<i64> = None;
    let mut k: usize = 0;
    while k < applied.len()
        invariant
            k <= applied@.len(),
            top == max_applied(applied@.take(k as int)),
        decreases applied.len() - k,
    {
        proof {
            assert(applied@.take(k as int + 1).drop_last() =~= applied@.take(k as int));
        }
        let a = applied[k];
        top = match top {
            None => Some(a),
            Some(t) => Some(if a > t { a } else { t }),
        };
        k = k + 1;
    }
    assert(applied@.take(applied@.len() as int) =~= applied@);
    let mut r: Vec<Migration> = Vec::new();
    let mut i: usize = 0;
    while i < migrations.len()
        invariant
            i <= migrations@.len(),
            top == max_applied(applied@),
            r@ == pending(applied@, migrations@.take(i as int)),
        decreases migrations.len() - i,
    {
        let m = migrations[i];
        proof {
            assert(migrations@.take(i as int + 1).drop_last() =~= migrations@.take(i as int));
            assert(migrations@.take(i as int + 1).last() == m);
        }
        let newer = match top {
            None => true,
            Some(t) => m.version > t,
        };
        if newer {
            r.push(m);
        }
        i = i + 1;
    }
    assert(migrations@.take(migrations@.len() as int) =~= migrations@);
    r
}

/// `max_applied` is `None` exactly on no applied versions, and otherwise one
/// of them that none exceeds.
proof fn lemma_max_applied(applied: Seq<i64>)
    ensures
        max_applied(applied) is None <==> applied.len() == 0,
        max_applied(applied) matches Some(m) ==> {
            &&& forall|j: int| 0 <= j < applied.len() ==> #[trigger] applied[j] <= m
            &&& exists|j: int| 0 <= j < applied.len() && #[trigger] applied[j] == m
        },
    decreases applied.len(),
{
    if applied.len() > 0 {
        let init = applied.drop_last();
        lemma_max_applied(init);
        let x = applied.last();
        let n = applied.len() - 1;
        assert(applied[n] == x);
        match max_applied(init) {
            None => {},
            Some(m0) => {
                assert forall|j: int| 0 <= j < applied.len() implies #[trigger] applied[j] <= max_applied(applied)->0 by {
                    if j < n {
                        assert(init[j] == applied[j]);
                    }
                }
                if x <= m0 {
                    let j0 = choose|j: int| 0 <= j < init.len() && #[trigger] init[j] == m0;
                    assert(applied[j0] == m0);
                }
            },
        }
    }
}

/// A version is newer than the highest applied one exactly when it exceeds
/// every applied version.
proof fn lemma_newer_than_all(applied: Seq<i64>, v: i64)
    ensures
        newer_than(max_applied(applied), v) <==> (forall|j: int| 0 <= j < applied.len() ==> #[trigger] applied[j] < v),
{
    lemma_max_applied(applied);
    if let Some(m) = max_applied(applied) {
        if forall|j: int| 0 <= j < applied.len() ==> #[trigger] applied[j] < v {
            let j0 = choose|j: int| 0 <= j < applied.len() && #[trigger] applied[j] == m;
            assert(applied[j0] < v);
        }
    }
}

proof fn lemma_pending_versions(applied: Seq<i64>, ms: Seq<Migration>)
    ensures
        forall|v: i64| #[trigger] versions(pending(applied, ms)).contains(v)
            <==> (versions(ms).contains(v) && newer_than(max_applied(applied), v)),
    decreases ms.len(),
{
    if ms.len() > 0 {
        let init = ms.drop_last();
        lemma_pending_versions(applied, init);
        let rest = pending(applied, init);
        let p = pending(applied, ms);
        let top = max_applied(applied);
        assert forall|v: i64| versions(ms).contains(v) && newer_than(top, v) implies #[trigger] versions(p).contains(v) by {
            let i = choose|i: int| 0 <= i < ms.len() && #[trigger] ms[i].version == v;
            if i < ms.len() - 1 {
                assert(init[i].version == v);
                assert(versions(init).contains(v));
                assert(versions(rest).contains(v));
                let k = choose|k: int| 0 <= k < rest.len() && #[trigger] rest[k].version == v;
                assert(p[k].version == v);
            } else {
                assert(p[p.len() - 1].version == v);
            }
        }
        assert forall|v: i64| #[trigger] versions(p).contains(v) implies versions(ms).contains(v) && newer_than(top, v) by {
            let k = choose|k: int| 0 <= k < p.len() && #[trigger] p[k].version == v;
            if k < rest.len() {
                assert(rest[k].version == v);
                assert(versions(rest).contains(v));
                let i = choose|i: int| 0 <= i < init.len() && #[trigger] init[i].version == v;
                assert(ms[i].version == v);
            } else {
                assert(ms[ms.len() - 1].version == v);
            }
        }
    }
}

proof fn lemma_nothing_pending(applied: Seq<i64>, ms: Seq<Migration>)
    requires
        forall|i: int| 0 <= i < ms.len() ==> !newer_than(max_applied(applied), #[trigger] ms[i].version),
    ensures
        pending(applied, ms).len() == 0,
    decreases ms.len(),
{
    if ms.len() > 0 {
        let init = ms.drop_last();
        assert forall|i: int| 0 <= i < init.len() implies !newer_than(max_applied(applied), #[trigger] init[i].version) by {
            assert(ms[i] == init[i]);
        }
        lemma_nothing_pending(applied, init);
        assert(ms[ms.len() - 1] == ms.last());
    }
}

/// Running the migrations a second time finds nothing left to run: once the
/// versions of the pending ones are recorded after the applied ones, no
/// migration is newer than the highest recorded version.
pub proof fn law_rerun_is_idempotent(applied: Seq<i64>, ms: Seq<Migration>)
    ensures
        pending(applied + version_list(pending(applied, ms)), ms).len() == 0,
{
    let p = pending(applied, ms);
    let a2 = applied + version_list(p);
    lemma_pending_versions(applied, ms);
    assert forall|i: int| 0 <= i < ms.len() implies !newer_than(max_applied(a2), #[trigger] ms[i].version) by {
        let v = ms[i].version;
        lemma_newer_than_all(a2, v);
        lemma_newer_than_all(applied, v);
        assert(versions(ms).contains(v));
        if newer_than(max_applied(applied), v) {
            assert(versions(p).contains(v));
            let k = choose|k: int| 0 <= k < p.len() && #[trigger] p[k].version == v;
            assert(a2[applied.len() + k] == v);
        } else {
            let j = choose|j: int| 0 <= j < applied.len() && !(#[trigger] applied[j] < v);
            assert(a2[j] == applied[j]);
        }
    }
    lemma_nothing_pending(a2, ms);
}

/// A migration runs exactly when its version is greater than every applied
/// version: one that is not newer than the highest applied version never
/// runs, and every newer one does.
pub proof fn law_pending_exactly_newer(applied: Seq<i64>, ms: Seq<Migration>)
    ensures
        forall|v: i64| #[trigger] versions(pending(applied, ms)).contains(v)
            <==> (versions(ms).contains(v) && forall|j: int| 0 <= j < applied.len() ==> #[trigger] applied[j] < v),
{
    lemma_pending_versions(applied, ms);
    assert forall|v: i64| #[trigger] versions(pending(applied, ms)).contains(v)
        <==> (versions(ms).contains(v) && forall|j: int| 0 <= j < applied.len() ==> #[trigger] applied[j] < v) by {
        lemma_newer_than_all(applied, v);
    }
}

} // verus!
