//! Comparing two projects: the entities they share and how their timelines
//! line up.

use vstd::prelude::*;

verus! {

/// An entity value with its type and the number of times a project saw it.
pub struct EntityCount {
    pub value: String,
    pub entity_type: String,
    pub occurrence_count: i32,
}

/// An entity value found in both projects, with its count in each.
pub struct EntityOverlap {
    pub entity_value: String,
    pub entity_type: String,
    pub count_project1: i32,
    pub count_project2: i32,
}

/// The sum of the counts of every row whose value is `v`.
pub open spec fn total_for(es: Seq<EntityCount>, v: Seq<char>) -> int
    decreases es.len(),
{
    if es.len() == 0 {
        0
    } else {
        total_for(es.drop_last(), v) + if es.last().value@ == v {
            es.last().occurrence_count as int
        } else {
            0
        }
    }
}

/// Whether some row has the value `v`.
pub open spec fn occurs(es: Seq<EntityCount>, v: Seq<char>) -> bool {
    exists|j: int| 0 <= j < es.len() && es[j].value@ == v
}

/// Whether row `i` is the first with its value.
pub open spec fn is_first(es: Seq<EntityCount>, i: int) -> bool {
    forall|j: int| 0 <= j < i ==> es[j].value@ != es[i].value@
}

/// The rows among the first `n` of `e1` that first show a value which `e2`
/// also holds, in order.
pub open spec fn overlap_positions(e1: Seq<EntityCount>, e2: Seq<EntityCount>, n: nat) -> Seq<int>
    decreases n,
{
    if n == 0 {
        seq![]
    } else {
        let rest = overlap_positions(e1, e2, (n - 1) as nat);
        if is_first(e1, n - 1) && occurs(e2, e1[n - 1].value@) {
            rest.push(n - 1)
        } else {
            rest
        }
    }
}

/// The number of distinct values among the first `n` rows.
pub open spec fn distinct_count(es: Seq<EntityCount>, n: nat) -> nat
    decreases n,
{
    if n == 0 {
        0
    } else {
        distinct_count(es, (n - 1) as nat) + if is_first(es, n - 1) { 1nat } else { 0nat }
    }
}

pub open spec fn fits_i32(x: int) -> bool {
    i32::MIN <= x <= i32::MAX
}

/// What the comparison of two projects' entities finds.
pub struct EntityComparison {
    /// One entry per value in both projects, in the order in which the first
    /// project first lists them.
    pub overlap: Vec<EntityOverlap>,
    /// For each entry of `overlap`, the first row of the first project with
    /// that value.
    pub common_rows: Vec<usize>,
    /// The number of distinct values of each project.
    pub distinct1: usize,
    pub distinct2: usize,
}

fn total_count(es: &[EntityCount], v: &String) -> (t: i128)
    ensures
        t == total_for(es@, v@),
{
    let mut acc: i128 = 0;
    let mut i: usize = 0;
    while i < es.len()
        invariant
            i <= es@.len(),
            acc == total_for(es@.take(i as int), v@),
            -0x8000_0000 * (i as int) <= acc <= 0x8000_0000 * (i as int),
        decreases es.len() - i,
    {
        proof {
            assert(es@.take(i as int + 1).drop_last() =~= es@.take(i as int));
        }
        if es[i].value == *v {
            acc = acc + es[i].occurrence_count as i128;
        }
        i = i + 1;
    }
    assert(es@.take(es@.len() as int) =~= es@);
    acc
}

fn occurs_in(es: &[EntityCount], v: &String) -> (b: bool)
    ensures
        b == occurs(es@, v@),
{
    let mut i: usize = 0;
    while i < es.len()
        invariant
            i <= es@.len(),
            forall|j: int| 0 <= j < i ==> es@[j].value@ != v@,
        decreases es.len() - i,
    {
        if es[i].value == *v {
            return true;
        }
        i = i + 1;
    }
    false
}

fn first_with_value(es: &[EntityCount], i: usize) -> (b: bool)
    requires
        i < es@.len(),
    ensures
        b == is_first(es@, i as int),
{
    let mut j: usize = 0;
    while j < i
        invariant
            i < es@.len(),
            j <= i,
            forall|k: int| 0 <= k < j ==> es@[k].value@ != es@[i as int].value@,
        decreases i - j,
    {
        if es[j].value == es[i].value {
            return false;
        }
        j = j + 1;
    }
    true
}

fn count_distinct(es: &[EntityCount]) -> (n: usize)
    ensures
        n == distinct_count(es@, es@.len()),
{
    let mut n: usize = 0;
    let mut i: usize = 0;
    while i < es.len()
        invariant
            i <= es@.len(),
            n == distinct_count(es@, i as nat),
            n <= i,
        decreases es.len() - i,
    {
        if first_with_value(es, i) {
            n = n + 1;
        }
        i = i + 1;
    }
    n
}

/// Compares the entity counts of two projects: for every value that both
/// hold, its type (from the first project's first row with it) and its total
/// count in each; also how many distinct values each project has.
pub fn compare_entity_counts(e1: &[EntityCount], e2: &[EntityCount]) -> (r: EntityComparison)
    requires
        forall|i: int| 0 <= i < e1@.len() ==> fits_i32(total_for(e1@, #[trigger] e1@[i].value@))
            && fits_i32(total_for(e2@, e1@[i].value@)),
    ensures
        r.common_rows@.len() == overlap_positions(e1@, e2@, e1@.len()).len(),
        forall|k: int| 0 <= k < r.common_rows@.len() ==> r.common_rows@[k] as int == #[trigger] overlap_positions(e1@, e2@, e1@.len())[k],
        r.overlap@.len() == r.common_rows@.len(),
        forall|k: int| 0 <= k < r.overlap@.len() ==> {
            let p = r.common_rows@[k] as int;
            let v = e1@[p].value@;
            &&& #[trigger] r.overlap@[k].entity_value@ == v
            &&& r.overlap@[k].entity_type@ == e1@[p].entity_type@
            &&& r.overlap@[k].count_project1 == total_for(e1@, v)
            &&& r.overlap@[k].count_project2 == total_for(e2@, v)
        },
        r.distinct1 == distinct_count(e1@, e1@.len()),
        r.distinct2 == distinct_count(e2@, e2@.len()),
{
    let mut overlap: Vec<EntityOverlap> = Vec::new();
    let mut rows: Vec<usize> = Vec::new();
    let mut i: usize = 0;
    while i < e1.len()
        invariant
            i <= e1@.len(),
            forall|i: int| 0 <= i < e1@.len() ==> fits_i32(total_for(e1@, #[trigger] e1@[i].value@))
                && fits_i32(total_for(e2@, e1@[i].value@)),
            rows@.len() == overlap_positions(e1@, e2@, i as nat).len(),
            forall|k: int| 0 <= k < rows@.len() ==> rows@[k] as int == #[trigger] overlap_positions(e1@, e2@, i as nat)[k],
            forall|k: int| 0 <= k < rows@.len() ==> rows@[k] < i,
            overlap@.len() == rows@.len(),
            forall|k: int| 0 <= k < overlap@.len() ==> {
                let p = rows@[k] as int;
                let v = e1@[p].value@;
                &&& #[trigger] overlap@[k].entity_value@ == v
                &&& overlap@[k].entity_type@ == e1@[p].entity_type@
                &&& overlap@[k].count_project1 == total_for(e1@, v)
                &&& overlap@[k].count_project2 == total_for(e2@, v)
            },
        decreases e1.len() - i,
    {
        let ghost prev = overlap_positions(e1@, e2@, i as nat);
        if first_with_value(e1, i) && occurs_in(e2, &e1[i].value) {
            let c1 = total_count(e1, &e1[i].value);
            let c2 = total_count(e2, &e1[i].value);
            proof {
                assert(fits_i32(total_for(e1@, e1@[i as int].value@)));
            }
            overlap.push(EntityOverlap {
                entity_value: e1[i].value.clone(),
                entity_type: e1[i].entity_type.clone(),
                count_project1: c1 as i32,
                count_project2: c2 as i32,
            });
            rows.push(i);
            proof {
                assert(overlap_positions(e1@, e2@, (i + 1) as nat) == prev.push(i as int));
            }
        } else {
            proof {
                assert(overlap_positions(e1@, e2@, (i + 1) as nat) == prev);
            }
        }
        i = i + 1;
    }
    let distinct1 = count_distinct(e1);
    let distinct2 = count_distinct(e2);
    EntityComparison { overlap, common_rows: rows, distinct1, distinct2 }
}


/// The distinct entity values of a project.
pub open spec fn value_set(es: Seq<EntityCount>) -> Set<Seq<char>> {
    Set::new(|v: Seq<char>| occurs(es, v))
}

/// The distinct values among the first `n` rows.
pub open spec fn prefix_values(es: Seq<EntityCount>, n: nat) -> Set<Seq<char>> {
    Set::new(|v: Seq<char>| exists|i: int| 0 <= i < n && #[trigger] es[i].value@ == v)
}

proof fn lemma_prefix_values_step(es: Seq<EntityCount>, n: nat)
    requires
        0 < n <= es.len(),
    ensures
        prefix_values(es, n) == prefix_values(es, (n - 1) as nat).insert(es[n - 1].value@),
        is_first(es, n - 1) <==> !prefix_values(es, (n - 1) as nat).contains(es[n - 1].value@),
{
    let m = (n - 1) as nat;
    let x = es[n - 1].value@;
    let p = prefix_values(es, m);
    assert forall|v: Seq<char>| prefix_values(es, n).contains(v) implies p.insert(x).contains(v) by {
        let i = choose|i: int| 0 <= i < n && #[trigger] es[i].value@ == v;
        if i < m {
            assert(p.contains(v));
        }
    }
    assert forall|v: Seq<char>| p.insert(x).contains(v) implies prefix_values(es, n).contains(v) by {
        if v == x {
            assert(es[n - 1].value@ == v);
        } else {
            let i = choose|i: int| 0 <= i < m && #[trigger] es[i].value@ == v;
            assert(es[i].value@ == v);
        }
    }
    assert(prefix_values(es, n) =~= p.insert(x));
    if p.contains(x) {
        let i = choose|i: int| 0 <= i < m && #[trigger] es[i].value@ == x;
        assert(es[i].value@ == es[n - 1].value@);
    }
    if !is_first(es, n - 1) {
        let j = choose|j: int| 0 <= j < n - 1 && #[trigger] es[j].value@ == es[n - 1].value@;
        assert(es[j].value@ == x);
        assert(p.contains(x));
    }
}

proof fn lemma_overlap_is_set_size(e1: Seq<EntityCount>, e2: Seq<EntityCount>, n: nat)
    requires
        n <= e1.len(),
    ensures
        prefix_values(e1, n).finite(),
        distinct_count(e1, n) == prefix_values(e1, n).len(),
        overlap_positions(e1, e2, n).len() == prefix_values(e1, n).filter(|v: Seq<char>| occurs(e2, v)).len(),
    decreases n,
{
    let f = |v: Seq<char>| occurs(e2, v);
    if n == 0 {
        assert(prefix_values(e1, 0) =~= Set::<Seq<char>>::empty());
        assert(prefix_values(e1, 0).filter(f) =~= Set::<Seq<char>>::empty());
    } else {
        let m = (n - 1) as nat;
        lemma_overlap_is_set_size(e1, e2, m);
        lemma_prefix_values_step(e1, n);
        let p = prefix_values(e1, m);
        let x = e1[n - 1].value@;
        p.lemma_len_filter(f);
        if is_first(e1, n - 1) {
            if f(x) {
                assert(prefix_values(e1, n).filter(f) =~= p.filter(f).insert(x));
                assert(!p.filter(f).contains(x));
            } else {
                assert(prefix_values(e1, n).filter(f) =~= p.filter(f));
            }
        } else {
            assert(prefix_values(e1, n) =~= p);
        }
    }
}

/// The comparison counts distinct values: each project's count is the size
/// of its set of values, and the overlap holds one entry per value of their
/// intersection.
pub proof fn law_overlap_is_intersection(e1: Seq<EntityCount>, e2: Seq<EntityCount>)
    ensures
        distinct_count(e1, e1.len()) == value_set(e1).len(),
        distinct_count(e2, e2.len()) == value_set(e2).len(),
        overlap_positions(e1, e2, e1.len()).len() == value_set(e1).intersect(value_set(e2)).len(),
{
    lemma_overlap_is_set_size(e1, e2, e1.len());
    lemma_overlap_is_set_size(e2, e1, e2.len());
    assert(prefix_values(e1, e1.len()) =~= value_set(e1));
    assert(prefix_values(e2, e2.len()) =~= value_set(e2));
    assert(value_set(e1).filter(|v: Seq<char>| occurs(e2, v)) =~= value_set(e1).intersect(value_set(e2)));
}

/// Whether entry `i` is the first with its date.
pub open spec fn first_date(ds: Seq<String>, i: int) -> bool {
    forall|j: int| 0 <= j < i ==> ds[j]@ != ds[i]@
}

/// Whether some entry has the date `d`.
pub open spec fn has_date(ds: Seq<String>, d: Seq<char>) -> bool {
    exists|j: int| 0 <= j < ds.len() && ds[j]@ == d
}

/// Among the first `n` entries of `ds`: the distinct dates that `other`
/// holds (`shared`) or lacks (`shared == false`).
pub open spec fn date_count(ds: Seq<String>, other: Seq<String>, shared: bool, n: nat) -> nat
    decreases n,
{
    if n == 0 {
        0
    } else {
        date_count(ds, other, shared, (n - 1) as nat) + if first_date(ds, n - 1) && has_date(
            other,
            ds[n - 1]@,
        ) == shared {
            1nat
        } else {
            0nat
        }
    }
}

/// The number of distinct dates both timelines hold.
pub open spec fn aligned_dates(d1: Seq<String>, d2: Seq<String>) -> nat {
    date_count(d1, d2, true, d1.len())
}

/// The number of distinct dates either timeline holds.
pub open spec fn all_dates(d1: Seq<String>, d2: Seq<String>) -> nat {
    date_count(d1, d2, true, d1.len()) + date_count(d1, d2, false, d1.len()) + date_count(
        d2,
        d1,
        false,
        d2.len(),
    )
}

fn has_date_in(ds: &[String], d: &String) -> (b: bool)
    ensures
        b == has_date(ds@, d@),
{
    let mut i: usize = 0;
    while i < ds.len()
        invariant
            i <= ds@.len(),
            forall|j: int| 0 <= j < i ==> ds@[j]@ != d@,
        decreases ds.len() - i,
    {
        if ds[i] == *d {
            return true;
        }
        i = i + 1;
    }
    false
}

fn first_date_at(ds: &[String], i: usize) -> (b: bool)
    requires
        i < ds@.len(),
    ensures
        b == first_date(ds@, i as int),
{
    let mut j: usize = 0;
    while j < i
        invariant
            i < ds@.len(),
            j <= i,
            forall|k: int| 0 <= k < j ==> ds@[k]@ != ds@[i as int]@,
        decreases i - j,
    {
        if ds[j] == ds[i] {
            return false;
        }
        j = j + 1;
    }
    true
}

fn count_dates(ds: &[String], other: &[String], shared: bool) -> (n: usize)
    ensures
        n == date_count(ds@, other@, shared, ds@.len()),
        n <= ds@.len(),
{
    let mut n: usize = 0;
    let mut i: usize = 0;
    while i < ds.len()
        invariant
            i <= ds@.len(),
            n == date_count(ds@, other@, shared, i as nat),
            n <= i,
        decreases ds.len() - i,
    {
        if first_date_at(ds, i) && has_date_in(other, &ds[i]) == shared {
            n = n + 1;
        }
        i = i + 1;
    }
    n
}

/// How two timelines line up: the dates they share, all their dates, and
/// the first and last date of each (empty for an empty timeline).
pub struct DateComparison {
    pub aligned: usize,
    pub union_size: usize,
    pub range1: (String, String),
    pub range2: (String, String),
}

/// The first and last date of a timeline, or two empty strings.
pub open spec fn range_of(ds: Seq<String>) -> (Seq<char>, Seq<char>) {
    if ds.len() == 0 {
        (Seq::<char>::empty(), Seq::<char>::empty())
    } else {
        (ds[0]@, ds.last()@)
    }
}

fn date_range(ds: &[String]) -> (r: (String, String))
    ensures
        (r.0@, r.1@) == range_of(ds@),
{
    if ds.len() == 0 {
        (String::new(), String::new())
    } else {
        (ds[0].clone(), ds[ds.len() - 1].clone())
    }
}

/// Compares the event dates of two timelines.
pub fn compare_dates(d1: &[String], d2: &[String]) -> (r: DateComparison)
    requires
        d1@.len() + d2@.len() <= usize::MAX,
    ensures
        r.aligned == aligned_dates(d1@, d2@),
        r.union_size == all_dates(d1@, d2@),
        (r.range1.0@, r.range1.1@) == range_of(d1@),
        (r.range2.0@, r.range2.1@) == range_of(d2@),
{
    let shared = count_dates(d1, d2, true);
    let only1 = count_dates(d1, d2, false);
    let only2 = count_dates(d2, d1, false);
    proof {
        lemma_date_counts_bounded(d1@, d2@, d1@.len());
    }
    DateComparison {
        aligned: shared,
        union_size: shared + only1 + only2,
        range1: date_range(d1),
        range2: date_range(d2),
    }
}

proof fn lemma_date_counts_bounded(ds: Seq<String>, other: Seq<String>, n: nat)
    ensures
        date_count(ds, other, true, n) + date_count(ds, other, false, n) <= n,
    decreases n,
{
    if n > 0 {
        lemma_date_counts_bounded(ds, other, (n - 1) as nat);
    }
}

/// The distinct dates of a timeline.
pub open spec fn date_set(ds: Seq<String>) -> Set<Seq<char>> {
    Set::new(|d: Seq<char>| has_date(ds, d))
}

/// The distinct dates among the first `n` entries.
pub open spec fn prefix_dates(ds: Seq<String>, n: nat) -> Set<Seq<char>> {
    Set::new(|d: Seq<char>| exists|i: int| 0 <= i < n && #[trigger] ds[i]@ == d)
}

proof fn lemma_date_count_is_set_size(ds: Seq<String>, other: Seq<String>, shared: bool, n: nat)
    requires
        n <= ds.len(),
    ensures
        prefix_dates(ds, n).finite(),
        date_count(ds, other, shared, n) == prefix_dates(ds, n).filter(|d: Seq<char>| has_date(other, d) == shared).len(),
    decreases n,
{
    let f = |d: Seq<char>| has_date(other, d) == shared;
    if n == 0 {
        assert(prefix_dates(ds, 0) =~= Set::<Seq<char>>::empty());
        assert(prefix_dates(ds, 0).filter(f) =~= Set::<Seq<char>>::empty());
    } else {
        let m = (n - 1) as nat;
        lemma_date_count_is_set_size(ds, other, shared, m);
        let x = ds[n - 1]@;
        let p = prefix_dates(ds, m);
        assert(prefix_dates(ds, n) =~= p.insert(x)) by {
            assert forall|d: Seq<char>| prefix_dates(ds, n).contains(d) implies p.insert(x).contains(d) by {
                let i = choose|i: int| 0 <= i < n && #[trigger] ds[i]@ == d;
                if i < m {
                    assert(p.contains(d));
                }
            }
            assert forall|d: Seq<char>| p.insert(x).contains(d) implies prefix_dates(ds, n).contains(d) by {
                if d == x {
                    assert(ds[n - 1]@ == d);
                } else {
                    let i = choose|i: int| 0 <= i < m && #[trigger] ds[i]@ == d;
                    assert(ds[i]@ == d);
                }
            }
        }
        p.lemma_len_filter(f);
        if first_date(ds, n - 1) {
            assert(!p.contains(x)) by {
                if p.contains(x) {
                    let i = choose|i: int| 0 <= i < m && #[trigger] ds[i]@ == x;
                    assert(ds[i]@ != ds[n - 1]@);
                }
            }
            if f(x) {
                assert(prefix_dates(ds, n).filter(f) =~= p.filter(f).insert(x));
                assert(!p.filter(f).contains(x));
            } else {
                assert(prefix_dates(ds, n).filter(f) =~= p.filter(f));
            }
        } else {
            let j = choose|j: int| 0 <= j < n - 1 && #[trigger] ds[j]@ == ds[n - 1]@;
            assert(ds[j]@ == x);
            assert(p.contains(x));
            assert(prefix_dates(ds, n) =~= p);
        }
    }
}

/// The counts of a date comparison are set sizes: the shared dates are the
/// intersection of the two timelines' dates, all dates their union.
pub proof fn law_dates_are_set_sizes(d1: Seq<String>, d2: Seq<String>)
    ensures
        aligned_dates(d1, d2) == date_set(d1).intersect(date_set(d2)).len(),
        all_dates(d1, d2) == date_set(d1).union(date_set(d2)).len(),
        aligned_dates(d1, d2) <= all_dates(d1, d2),
{
    lemma_date_count_is_set_size(d1, d2, true, d1.len());
    lemma_date_count_is_set_size(d1, d2, false, d1.len());
    lemma_date_count_is_set_size(d2, d1, false, d2.len());
    let s1 = date_set(d1);
    let s2 = date_set(d2);
    assert(prefix_dates(d1, d1.len()) =~= s1);
    assert(prefix_dates(d2, d2.len()) =~= s2);
    assert(s1.filter(|d: Seq<char>| has_date(d2, d) == true) =~= s1.intersect(s2));
    assert(s1.filter(|d: Seq<char>| has_date(d2, d) == false) =~= s1.difference(s2));
    assert(s2.filter(|d: Seq<char>| has_date(d1, d) == false) =~= s2.difference(s1));
    vstd::set_lib::lemma_set_difference_len(s1, s2);
    assert(s1 + s2 == s1.union(s2));
}

/// The name a compared project is shown under: the last component of its
/// directory path, or `Project 2` where the path has none.
pub open spec fn project_label_of(path: Seq<char>) -> Seq<char> {
    match crate::paths::file_name_of(path) {
        Some(n) => n,
        None => "Project 2"@,
    }
}

/// Names the second project of a comparison after its directory.
pub fn project_label(path: &str) -> (r: String)
    ensures
        r@ == project_label_of(path@),
{
    match crate::paths::file_name(path) {
        Some(n) => n,
        None => String::from_str("Project 2"),
    }
}

} // verus!
