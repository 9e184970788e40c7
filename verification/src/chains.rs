//! Evidence chains: facts linked by the entities their source files share.

use vstd::prelude::*;
use crate::text::{decimal, is_white_space, is_white_space_char, lowercase, push_decimal, push_str, string_of, string_views, to_lowercase};
use crate::sql::{join_with, join_strings, like_escape, like_escape_of};

verus! {

/// An entity value found in the file with the given fingerprint.
pub struct EntityRow {
    pub fingerprint: String,
    pub value: String,
}

/// The entity values of a file, in row order (repeats kept).
pub open spec fn values_of(rows: Seq<EntityRow>, fp: Seq<char>) -> Seq<Seq<char>>
    decreases rows.len(),
{
    if rows.len() == 0 {
        seq![]
    } else {
        let rest = values_of(rows.drop_last(), fp);
        if rows.last().fingerprint@ == fp {
            rest.push(rows.last().value@)
        } else {
            rest
        }
    }
}

/// Among the first `n` values of `a`, how many distinct ones `b` holds.
spec fn shared_count(a: Seq<Seq<char>>, b: Seq<Seq<char>>, n: nat) -> nat
    decreases n,
{
    if n == 0 {
        0
    } else {
        let k = n - 1;
        let counted = b.contains(a[k]) && forall|m: int| 0 <= m < k ==> a[m] != a[k];
        shared_count(a, b, (n - 1) as nat) + if counted { 1nat } else { 0nat }
    }
}

/// The entities that the files `fp1` and `fp2` share: the number of
/// distinct values found in both.
pub open spec fn overlap(rows: Seq<EntityRow>, fp1: Seq<char>, fp2: Seq<char>) -> nat {
    values_of(rows, fp1).to_set().intersect(values_of(rows, fp2).to_set()).len()
}

/// The facts among the first `n` that are related to fact `i`: another
/// fact whose file shares at least `min` entities with that of `i`.
pub open spec fn related_upto(fps: Seq<String>, rows: Seq<EntityRow>, min: int, i: int, n: nat) -> Seq<int>
    decreases n,
{
    if n == 0 {
        seq![]
    } else {
        let j = n - 1;
        let rest = related_upto(fps, rows, min, i, (n - 1) as nat);
        if j != i && overlap(rows, fps[i]@, fps[j]@) >= min {
            rest.push(j)
        } else {
            rest
        }
    }
}

pub open spec fn related(fps: Seq<String>, rows: Seq<EntityRow>, min: int, i: int) -> Seq<int> {
    related_upto(fps, rows, min, i, fps.len())
}

/// The number of facts related to fact `i`.
pub open spec fn related_count(fps: Seq<String>, rows: Seq<EntityRow>, min: int, i: int) -> nat {
    related(fps, rows, min, i).len()
}

/// A fact roots a chain when at least two facts are related to it.
pub open spec fn is_root(fps: Seq<String>, rows: Seq<EntityRow>, min: int, i: int) -> bool {
    related(fps, rows, min, i).len() >= 2
}

/// Chains are listed by how many facts they link, most first; chains of
/// equal size keep the order of their roots.
pub open spec fn ranks_before(fps: Seq<String>, rows: Seq<EntityRow>, min: int, x: int, y: int) -> bool {
    let cx = related(fps, rows, min, x).len();
    let cy = related(fps, rows, min, y).len();
    cx > cy || (cx == cy && x < y)
}

/// A detected chain: its root fact, the related facts in order, and how
/// many entities each shares with the root.
pub struct DetectedChain {
    pub root: usize,
    pub related: Vec<usize>,
    pub shared: Vec<usize>,
}

/// The values at the given row positions.
pub open spec fn values_at(rows: Seq<EntityRow>, ps: Seq<usize>) -> Seq<Seq<char>> {
    Seq::new(ps.len(), |k: int| rows[ps[k] as int].value@)
}

/// The rows of one file.
fn rows_of_file(rows: &[EntityRow], fp: &String) -> (ps: Vec<usize>)
    ensures
        forall|k: int| 0 <= k < ps@.len() ==> ps@[k] < rows@.len(),
        values_at(rows@, ps@) == values_of(rows@, fp@),
{
    let mut ps: Vec<usize> = Vec::new();
    let mut i: usize = 0;
    while i < rows.len()
        invariant
            i <= rows@.len(),
            forall|k: int| 0 <= k < ps@.len() ==> ps@[k] < i,
            values_at(rows@, ps@) == values_of(rows@.take(i as int), fp@),
        decreases rows.len() - i,
    {
        proof {
            assert(rows@.take(i as int + 1).drop_last() =~= rows@.take(i as int));
        }
        if rows[i].fingerprint == *fp {
            let ghost before = ps@;
            ps.push(i);
            assert(values_at(rows@, ps@) =~= values_at(rows@, before).push(rows@[i as int].value@));
        }
        i = i + 1;
        assert(values_at(rows@, ps@) =~= values_of(rows@.take(i as int), fp@));
    }
    assert(rows@.take(rows@.len() as int) =~= rows@);
    ps
}

/// The entities that the files at two row lists share.
fn shared_between(rows: &[EntityRow], a: &Vec<usize>, b: &Vec<usize>) -> (n: usize)
    requires
        forall|k: int| 0 <= k < a@.len() ==> a@[k] < rows@.len(),
        forall|k: int| 0 <= k < b@.len() ==> b@[k] < rows@.len(),
    ensures
        n == shared_count(values_at(rows@, a@), values_at(rows@, b@), a@.len()),
{
    let ghost va = values_at(rows@, a@);
    let ghost vb = values_at(rows@, b@);
    let mut n: usize = 0;
    let mut k: usize = 0;
    while k < a.len()
        invariant
            va == values_at(rows@, a@),
            vb == values_at(rows@, b@),
            forall|x: int| 0 <= x < a@.len() ==> a@[x] < rows@.len(),
            forall|x: int| 0 <= x < b@.len() ==> b@[x] < rows@.len(),
            k <= a@.len(),
            n == shared_count(va, vb, k as nat),
            n <= k,
        decreases a.len() - k,
    {
        let v = &rows[a[k]].value;
        assert(v@ == va[k as int]);
        let mut in_b = false;
        let mut m: usize = 0;
        while m < b.len()
            invariant
                vb == values_at(rows@, b@),
                forall|x: int| 0 <= x < b@.len() ==> b@[x] < rows@.len(),
                m <= b@.len(),
                in_b == (exists|x: int| 0 <= x < m && vb[x] == v@),
            decreases b.len() - m,
        {
            if rows[b[m]].value == *v {
                in_b = true;
                assert(vb[m as int] == v@);
            }
            m = m + 1;
        }
        let mut fresh = true;
        let mut p: usize = 0;
        while p < k
            invariant
                va == values_at(rows@, a@),
                forall|x: int| 0 <= x < a@.len() ==> a@[x] < rows@.len(),
                k < a@.len(),
                p <= k,
                v@ == va[k as int],
                fresh == (forall|x: int| 0 <= x < p ==> va[x] != v@),
            decreases k - p,
        {
            assert(va[p as int] == rows@[a@[p as int] as int].value@);
            if rows[a[p]].value == *v {
                fresh = false;
            }
            p = p + 1;
        }
        proof {
            if in_b {
                let x = choose|x: int| 0 <= x < m && vb[x] == v@;
                assert(vb.contains(va[k as int]));
            } else {
                assert(!vb.contains(va[k as int]));
            }
        }
        if in_b && fresh {
            n = n + 1;
        }
        k = k + 1;
    }
    n
}

/// Finds the chains among weighted facts: for each fact (given by the
/// fingerprint of its file), the other facts whose files share at least
/// `min_related` entities with it; a fact with two or more such facts roots
/// a chain. Chains come most-linked first, ties in fact order. Shared
/// counts are compared as the signed 32-bit counts that chain records
/// carry, so the entity rows number at most `i32::MAX`.
pub fn detect_chains(fingerprints: &[String], rows: &[EntityRow], min_related: i32) -> (r: Vec<DetectedChain>)
    requires
        rows@.len() <= i32::MAX,
    ensures
        forall|k: int| 0 <= k < r@.len() ==> {
            let c = #[trigger] r@[k];
            &&& c.root < fingerprints@.len()
            &&& is_root(fingerprints@, rows@, min_related as int, c.root as int)
            &&& c.related@.len() == related(fingerprints@, rows@, min_related as int, c.root as int).len()
            &&& c.shared@.len() == c.related@.len()
            &&& forall|m: int| 0 <= m < c.related@.len() ==> {
                &&& c.related@[m] as int == #[trigger] related(fingerprints@, rows@, min_related as int, c.root as int)[m]
                &&& c.related@[m] < fingerprints@.len()
                &&& c.shared@[m] == overlap(rows@, fingerprints@[c.root as int]@, fingerprints@[c.related@[m] as int]@)
            }
        },
        forall|i: int| 0 <= i < fingerprints@.len() && is_root(fingerprints@, rows@, min_related as int, i)
            ==> exists|k: int| 0 <= k < r@.len() && r@[k].root == i,
        forall|a: int, b: int| 0 <= a < b < r@.len() ==> ranks_before(fingerprints@, rows@, min_related as int, r@[a].root as int, r@[b].root as int),
{
    let ghost fps = fingerprints@;
    let ghost min = min_related as int;
    let n = fingerprints.len();
    let mut lists: Vec<Vec<usize>> = Vec::new();
    let mut i: usize = 0;
    while i < n
        invariant
            n == fps.len(),
            fps == fingerprints@,
            i <= n,
            lists@.len() == i,
            forall|x: int, k: int| 0 <= x < i && 0 <= k < lists@[x]@.len() ==> #[trigger] lists@[x]@[k] < rows@.len(),
            forall|x: int| 0 <= x < i ==> values_at(rows@, #[trigger] lists@[x]@) == values_of(rows@, fps[x]@),
        decreases n - i,
    {
        let ps = rows_of_file(rows, &fingerprints[i]);
        lists.push(ps);
        i = i + 1;
    }
    // Related facts of every fact, with the shared counts.
    let mut found: Vec<DetectedChain> = Vec::new();
    let mut i: usize = 0;
    while i < n
        invariant
            n == fps.len(),
            fps == fingerprints@,
            min == min_related as int,
            lists@.len() == n,
            forall|x: int, k: int| 0 <= x < n && 0 <= k < lists@[x]@.len() ==> #[trigger] lists@[x]@[k] < rows@.len(),
            forall|x: int| 0 <= x < n ==> values_at(rows@, #[trigger] lists@[x]@) == values_of(rows@, fps[x]@),
            rows@.len() <= i32::MAX,
            i <= n,
            found@.len() == i,
            forall|x: int| 0 <= x < i ==> chain_for(fps, rows@, min, x, #[trigger] found@[x]),
        decreases n - i,
    {
        let c = relate(fingerprints, rows, &lists, min_related, i);
        found.push(c);
        i = i + 1;
    }
    // Order the roots: most related first, ties by position.
    let mut order: Vec<usize> = Vec::new();
    let mut c: usize = n;
    proof {
        assert forall|y: int| 0 <= y < n implies related_count(fps, rows@, min, y) < n by {
            lemma_related_len(fps, rows@, min, y, n as nat);
        }
    }
    while c >= 2
        invariant
            n == fps.len(),
            found@.len() == n,
            c <= n,
            forall|y: int| 0 <= y < n ==> related_count(fps, rows@, min, y) < n,
            forall|y: int| 0 <= y < n ==> #[trigger] found@[y].related@.len() == related_count(fps, rows@, min, y),
            forall|k: int| 0 <= k < order@.len() ==> order@[k] < n && related_count(fps, rows@, min, #[trigger] order@[k] as int) > c && related_count(fps, rows@, min, order@[k] as int) >= 2,
            forall|y: int| 0 <= y < n && related_count(fps, rows@, min, y) > c && related_count(fps, rows@, min, y) >= 2 ==> order@.contains(y as usize),
            forall|a: int, b: int| 0 <= a < b < order@.len() ==> ranks_before(fps, rows@, min, order@[a] as int, order@[b] as int),
        decreases c,
    {
        let ghost before = order@;
        let mut x: usize = 0;
        while x < n
            invariant
                n == fps.len(),
                found@.len() == n,
                2 <= c <= n,
                x <= n,
                    forall|y: int| 0 <= y < n ==> #[trigger] found@[y].related@.len() == related_count(fps, rows@, min, y),
                order@.len() >= before.len(),
                order@.take(before.len() as int) == before,
                forall|k: int| 0 <= k < before.len() ==> before[k] < n && related_count(fps, rows@, min, #[trigger] before[k] as int) > c,
                forall|k: int| before.len() <= k < order@.len() ==> order@[k] < x && related_count(fps, rows@, min, #[trigger] order@[k] as int) == c,
                forall|y: int| 0 <= y < n && related_count(fps, rows@, min, y) > c && related_count(fps, rows@, min, y) >= 2 ==> before.contains(y as usize),
                forall|y: int| 0 <= y < x && related_count(fps, rows@, min, y) == c ==> order@.contains(y as usize),
                forall|a: int, b: int| 0 <= a < b < order@.len() ==> ranks_before(fps, rows@, min, order@[a] as int, order@[b] as int),
            decreases n - x,
        {
            if found[x].related.len() == c {
                let ghost prev = order@;
                order.push(x);
                proof {
                    assert(order@.take(before.len() as int) =~= prev.take(before.len() as int));
                    assert forall|a: int, b: int| 0 <= a < b < order@.len() implies ranks_before(fps, rows@, min, order@[a] as int, order@[b] as int) by {
                        if b == order@.len() - 1 {
                            if a < before.len() {
                                assert(order@[a] == before[a]);
                            }
                        } else {
                            assert(order@[a] == prev[a] && order@[b] == prev[b]);
                        }
                    }
                    assert forall|y: int| 0 <= y <= x && related_count(fps, rows@, min, y) == c implies order@.contains(y as usize) by {
                        if y == x {
                            assert(order@[order@.len() - 1] == y as usize);
                        } else {
                            let k = choose|k: int| 0 <= k < prev.len() && prev[k] == y as usize;
                            assert(order@[k] == y as usize);
                        }
                    }
                    assert forall|k: int| before.len() <= k < order@.len() implies order@[k] < x + 1 && related_count(fps, rows@, min, #[trigger] order@[k] as int) == c by {
                        if k < prev.len() {
                            assert(order@[k] == prev[k]);
                        }
                    }
                }
            }
            x = x + 1;
        }
        proof {
            assert forall|k: int| 0 <= k < order@.len() implies order@[k] < n && related_count(fps, rows@, min, #[trigger] order@[k] as int) > c - 1 && related_count(fps, rows@, min, order@[k] as int) >= 2 by {
                if k < before.len() {
                    assert(order@[k] == before[k]);
                }
            }
            assert forall|y: int| 0 <= y < n && related_count(fps, rows@, min, y) > c - 1 && related_count(fps, rows@, min, y) >= 2 implies order@.contains(y as usize) by {
                if related_count(fps, rows@, min, y) > c {
                    let k = choose|k: int| 0 <= k < before.len() && before[k] == y as usize;
                    assert(order@[k] == before[k]);
                }
            }
        }
        c = c - 1;
    }
    let mut r: Vec<DetectedChain> = Vec::new();
    let mut k: usize = 0;
    while k < order.len()
        invariant
            n == fps.len(),
            fps == fingerprints@,
            min == min_related as int,
            found@.len() == n,
            forall|k: int| 0 <= k < order@.len() ==> order@[k] < n && related_count(fps, rows@, min, #[trigger] order@[k] as int) >= 2,
            forall|x: int| 0 <= x < n ==> chain_for(fps, rows@, min, x, #[trigger] found@[x]),
            k <= order@.len(),
            r@.len() == k,
            forall|j: int| 0 <= j < k ==> (#[trigger] r@[j]).root == order@[j] && r@[j].related@ == found@[order@[j] as int].related@
                && r@[j].shared@ == found@[order@[j] as int].shared@,
        decreases order.len() - k,
    {
        let x = order[k];
        let q = DetectedChain { root: x, related: copy_indices(&found[x].related), shared: copy_indices(&found[x].shared) };
        r.push(q);
        k = k + 1;
    }
    proof {
        assert forall|k: int| 0 <= k < r@.len() implies {
            let q = #[trigger] r@[k];
            &&& q.root < fingerprints@.len()
            &&& is_root(fingerprints@, rows@, min_related as int, q.root as int)
            &&& q.related@.len() == related(fingerprints@, rows@, min_related as int, q.root as int).len()
            &&& q.shared@.len() == q.related@.len()
            &&& forall|m: int| 0 <= m < q.related@.len() ==> {
                &&& q.related@[m] as int == #[trigger] related(fingerprints@, rows@, min_related as int, q.root as int)[m]
                &&& q.related@[m] < fingerprints@.len()
                &&& q.shared@[m] == overlap(rows@, fingerprints@[q.root as int]@, fingerprints@[q.related@[m] as int]@)
            }
        } by {
            let q = r@[k];
            let f = found@[q.root as int];
            assert(f.root == q.root);
            assert(related_count(fps, rows@, min, order@[k] as int) >= 2);
        }
        assert forall|i: int| 0 <= i < fingerprints@.len() && is_root(fingerprints@, rows@, min_related as int, i)
            implies exists|k: int| 0 <= k < r@.len() && r@[k].root == i by {
            assert(related_count(fps, rows@, min, i) > 1);
            let k = choose|k: int| 0 <= k < order@.len() && order@[k] == i as usize;
            assert(r@[k].root == i);
        }
        assert forall|a: int, b: int| 0 <= a < b < r@.len() implies ranks_before(fps, rows@, min, r@[a].root as int, r@[b].root as int) by {
            assert(r@[a].root == order@[a] && r@[b].root == order@[b]);
        }
    }
    r
}

proof fn lemma_related_len(fps: Seq<String>, rows: Seq<EntityRow>, min: int, i: int, n: nat)
    requires
        0 <= i < n,
    ensures
        related_upto(fps, rows, min, i, n).len() < n,
    decreases n,
{
    if n > i + 1 {
        lemma_related_len(fps, rows, min, i, (n - 1) as nat);
    } else {
        lemma_related_upto_len(fps, rows, min, i, (n - 1) as nat);
    }
}

proof fn lemma_related_upto_len(fps: Seq<String>, rows: Seq<EntityRow>, min: int, i: int, n: nat)
    requires
        n <= i,
    ensures
        related_upto(fps, rows, min, i, n).len() <= n,
    decreases n,
{
    if n > 0 {
        lemma_related_upto_len(fps, rows, min, i, (n - 1) as nat);
    }
}

/// `c` is the chain candidate of fact `x`: rooted there, with its related
/// facts in order and the entities each shares with it.
pub open spec fn chain_for(fps: Seq<String>, rows: Seq<EntityRow>, min: int, x: int, c: DetectedChain) -> bool {
    &&& c.root == x
    &&& c.related@.len() == related(fps, rows, min, x).len()
    &&& c.shared@.len() == c.related@.len()
    &&& forall|m: int| 0 <= m < c.related@.len() ==> {
        &&& c.related@[m] as int == #[trigger] related(fps, rows, min, x)[m]
        &&& c.related@[m] < fps.len()
        &&& c.shared@[m] == overlap(rows, fps[x]@, fps[c.related@[m] as int]@)
    }
}

/// The facts related to fact `i`, with the entities each shares with it.
fn relate(
    fingerprints: &[String],
    rows: &[EntityRow],
    lists: &Vec<Vec<usize>>,
    min_related: i32,
    i: usize,
) -> (c: DetectedChain)
    requires
        i < fingerprints@.len(),
        lists@.len() == fingerprints@.len(),
        forall|x: int, k: int| 0 <= x < lists@.len() && 0 <= k < lists@[x]@.len() ==> #[trigger] lists@[x]@[k] < rows@.len(),
        forall|x: int| 0 <= x < lists@.len() ==> values_at(rows@, #[trigger] lists@[x]@) == values_of(rows@, fingerprints@[x]@),
        rows@.len() <= i32::MAX,
    ensures
        chain_for(fingerprints@, rows@, min_related as int, i as int, c),
{
    let ghost fps = fingerprints@;
    let ghost min = min_related as int;
    let n = fingerprints.len();
    let mut rel: Vec<usize> = Vec::new();
    let mut shared: Vec<usize> = Vec::new();
    let mut j: usize = 0;
    while j < n
        invariant
            n == fps.len(),
            fps == fingerprints@,
            min == min_related as int,
            lists@.len() == n,
            forall|x: int, k: int| 0 <= x < n && 0 <= k < lists@[x]@.len() ==> #[trigger] lists@[x]@[k] < rows@.len(),
            forall|x: int| 0 <= x < n ==> values_at(rows@, #[trigger] lists@[x]@) == values_of(rows@, fps[x]@),
            rows@.len() <= i32::MAX,
            i < n,
            j <= n,
            rel@.len() == related_upto(fps, rows@, min, i as int, j as nat).len(),
            shared@.len() == rel@.len(),
            forall|m: int| 0 <= m < rel@.len() ==> {
                &&& rel@[m] as int == #[trigger] related_upto(fps, rows@, min, i as int, j as nat)[m]
                &&& rel@[m] < j
                &&& shared@[m] == overlap(rows@, fps[i as int]@, fps[rel@[m] as int]@)
            },
        decreases n - j,
    {
        let ghost prev = related_upto(fps, rows@, min, i as int, j as nat);
        let ghost rel0 = rel@;
        let ghost shared0 = shared@;
        let mut take = false;
        let mut ov: usize = 0;
        if j != i {
            ov = shared_between(rows, &lists[i], &lists[j]);
            proof {
                lemma_overlap_of_lists(rows@, lists@[i as int]@, lists@[j as int]@, fps[i as int]@, fps[j as int]@);
                lemma_values_of_len(rows@, fps[i as int]@);
                assert(values_at(rows@, lists@[i as int]@).len() == lists@[i as int]@.len());
                assert(ov <= i32::MAX);
            }
            take = (ov as i32) >= min_related;
        }
        proof {
            assert(take == (j != i && overlap(rows@, fps[i as int]@, fps[j as int]@) >= min));
        }
        if take {
            rel.push(j);
            shared.push(ov);
        }
        proof {
            let next = related_upto(fps, rows@, min, i as int, (j + 1) as nat);
            assert(next == if take { prev.push(j as int) } else { prev });
            assert forall|m: int| 0 <= m < rel@.len() implies {
                &&& rel@[m] as int == #[trigger] related_upto(fps, rows@, min, i as int, (j + 1) as nat)[m]
                &&& rel@[m] < j + 1
                &&& shared@[m] == overlap(rows@, fps[i as int]@, fps[rel@[m] as int]@)
            } by {
                if m < rel0.len() {
                    assert(rel@[m] == rel0[m]);
                    assert(shared@[m] == shared0[m]);
                    assert(next[m] == prev[m]);
                }
            }
        }
        j = j + 1;
    }
    assert(related(fps, rows@, min, i as int) == related_upto(fps, rows@, min, i as int, n as nat));
    DetectedChain { root: i, related: rel, shared }
}

fn copy_indices(v: &Vec<usize>) -> (r: Vec<usize>)
    ensures
        r@ == v@,
{
    let mut r: Vec<usize> = Vec::new();
    let mut i: usize = 0;
    while i < v.len()
        invariant
            i <= v@.len(),
            r@ == v@.take(i as int),
        decreases v.len() - i,
    {
        r.push(v[i]);
        i = i + 1;
        assert(r@ =~= v@.take(i as int));
    }
    assert(v@.take(v@.len() as int) =~= v@);
    r
}

proof fn lemma_shared_count_bounded(a: Seq<Seq<char>>, b: Seq<Seq<char>>, n: nat)
    ensures
        shared_count(a, b, n) <= n,
    decreases n,
{
    if n > 0 {
        lemma_shared_count_bounded(a, b, (n - 1) as nat);
    }
}

/// The count over two files' row lists is the overlap of those files.
proof fn lemma_overlap_of_lists(rows: Seq<EntityRow>, la: Seq<usize>, lb: Seq<usize>, fpa: Seq<char>, fpb: Seq<char>)
    requires
        values_at(rows, la) == values_of(rows, fpa),
        values_at(rows, lb) == values_of(rows, fpb),
    ensures
        shared_count(values_at(rows, la), values_at(rows, lb), la.len()) == overlap(rows, fpa, fpb),
        shared_count(values_at(rows, la), values_at(rows, lb), la.len()) <= la.len(),
{
    let va = values_at(rows, la);
    let vb = values_at(rows, lb);
    lemma_shared_count_is_intersection(va, vb, va.len());
    assert(va.take(va.len() as int) =~= va);
    lemma_shared_count_bounded(va, vb, la.len());
}

/// Counting the distinct values of a prefix of `a` that `b` holds gives the
/// size of the intersection of the two sets of values.
proof fn lemma_shared_count_is_intersection(a: Seq<Seq<char>>, b: Seq<Seq<char>>, n: nat)
    requires
        n <= a.len(),
    ensures
        shared_count(a, b, n) == a.take(n as int).to_set().intersect(b.to_set()).len(),
    decreases n,
{
    broadcast use vstd::seq_lib::seq_to_set_is_finite;
    broadcast use vstd::set_lib::group_set_properties;
    let bs = b.to_set();
    if n == 0 {
        assert(a.take(0).to_set().intersect(bs) =~= Set::<Seq<char>>::empty());
    } else {
        let k = (n - 1) as int;
        lemma_shared_count_is_intersection(a, b, (n - 1) as nat);
        let t0 = a.take(k);
        let t1 = a.take(k + 1);
        let s0 = t0.to_set().intersect(bs);
        let s1 = t1.to_set().intersect(bs);
        assert(t1.to_set() =~= t0.to_set().insert(a[k])) by {
            assert forall|x: Seq<char>| t1.to_set().contains(x) <==> t0.to_set().insert(a[k]).contains(x) by {
                if t1.contains(x) {
                    let m = choose|m: int| 0 <= m < t1.len() && #[trigger] t1[m] == x;
                    if m < k {
                        assert(t0[m] == x);
                    }
                }
                if t0.contains(x) {
                    let m = choose|m: int| 0 <= m < t0.len() && #[trigger] t0[m] == x;
                    assert(t1[m] == x);
                }
                if x == a[k] {
                    assert(t1[k] == x);
                }
            }
        }
        let fresh = forall|m: int| 0 <= m < k ==> a[m] != a[k];
        if bs.contains(a[k]) && fresh {
            if s0.contains(a[k]) {
                let m = choose|m: int| 0 <= m < t0.len() && #[trigger] t0[m] == a[k];
                assert(a[m] == a[k]);
            }
            assert(s1 =~= s0.insert(a[k]));
        } else if !bs.contains(a[k]) {
            assert(s1 =~= s0);
        } else {
            let m = choose|m: int| 0 <= m < k && #[trigger] a[m] == a[k];
            assert(t0[m] == a[k]);
            assert(t0.contains(a[k]));
            assert(s1 =~= s0);
        }
    }
}

proof fn lemma_values_of_len(rows: Seq<EntityRow>, fp: Seq<char>)
    ensures
        values_of(rows, fp).len() <= rows.len(),
    decreases rows.len(),
{
    if rows.len() > 0 {
        lemma_values_of_len(rows.drop_last(), fp);
    }
}


/// The number of bytes that a character takes in UTF-8.
pub open spec fn utf8_width(c: char) -> nat {
    let u = c as u32;
    if u < 0x80 { 1 } else if u < 0x800 { 2 } else if u < 0x10000 { 3 } else { 4 }
}

/// The UTF-8 length of a text in bytes.
pub open spec fn utf8_len(s: Seq<char>) -> nat
    decreases s.len(),
{
    if s.len() == 0 { 0 } else { utf8_len(s.drop_last()) + utf8_width(s.last()) }
}

/// The words of a text as `split_whitespace` yields them, continuing a
/// word `cur` that was begun before `s`.
pub open spec fn words_from(s: Seq<char>, cur: Seq<char>) -> Seq<Seq<char>>
    decreases s.len(),
{
    let flushed = if cur.len() > 0 { seq![cur] } else { Seq::<Seq<char>>::empty() };
    if s.len() == 0 {
        flushed
    } else if is_white_space(s[0]) {
        flushed + words_from(s.drop_first(), Seq::<char>::empty())
    } else {
        words_from(s.drop_first(), cur.push(s[0]))
    }
}

/// The words of a text: maximal runs of characters that are not white
/// space.
pub open spec fn words(s: Seq<char>) -> Seq<Seq<char>> {
    words_from(s, Seq::<char>::empty())
}

/// The words longer than four bytes, in order.
pub open spec fn long_words(ws: Seq<Seq<char>>) -> Seq<Seq<char>>
    decreases ws.len(),
{
    if ws.len() == 0 {
        seq![]
    } else {
        let rest = long_words(ws.drop_last());
        if utf8_len(ws.last()) > 4 { rest.push(ws.last()) } else { rest }
    }
}

/// The keywords by which related facts are suggested: the first ten words
/// of a summary longer than four bytes, lowercased.
pub open spec fn keywords_of(summary: Seq<char>) -> Seq<Seq<char>> {
    let ws = long_words(words(summary));
    let first = if ws.len() > 10 { ws.take(10) } else { ws };
    Seq::new(first.len(), |k: int| lowercase(first[k]))
}

proof fn lemma_words_from_split(a: Seq<char>, w: char, b: Seq<char>, cur: Seq<char>)
    requires
        is_white_space(w),
    ensures
        words_from(a + seq![w] + b, cur) == words_from(a, cur) + words_from(b, Seq::<char>::empty()),
    decreases a.len(),
{
    let s = a + seq![w] + b;
    let flushed = if cur.len() > 0 { seq![cur] } else { Seq::<Seq<char>>::empty() };
    if a.len() == 0 {
        assert(s[0] == w);
        assert(s.drop_first() =~= b);
    } else {
        assert(s[0] == a[0]);
        assert(s.drop_first() =~= a.drop_first() + seq![w] + b);
        if is_white_space(a[0]) {
            lemma_words_from_split(a.drop_first(), w, b, Seq::<char>::empty());
            assert(flushed + (words_from(a.drop_first(), Seq::<char>::empty()) + words_from(b, Seq::<char>::empty()))
                =~= (flushed + words_from(a.drop_first(), Seq::<char>::empty())) + words_from(b, Seq::<char>::empty()));
        } else {
            lemma_words_from_split(a.drop_first(), w, b, cur.push(a[0]));
        }
    }
}

proof fn lemma_words_from_solid(s: Seq<char>, cur: Seq<char>)
    requires
        forall|i: int| 0 <= i < s.len() ==> !is_white_space(#[trigger] s[i]),
    ensures
        words_from(s, cur) == if (cur + s).len() > 0 { seq![cur + s] } else { Seq::<Seq<char>>::empty() },
    decreases s.len(),
{
    if s.len() > 0 {
        assert(!is_white_space(s[0]));
        assert forall|i: int| 0 <= i < s.drop_first().len() implies !is_white_space(#[trigger] s.drop_first()[i]) by {
            assert(s.drop_first()[i] == s[i + 1]);
        }
        lemma_words_from_solid(s.drop_first(), cur.push(s[0]));
        assert(cur.push(s[0]) + s.drop_first() =~= cur + s);
    } else {
        assert(cur + s =~= cur);
    }
}

/// The words of a text are what white space separates: no text has none,
/// a text without white space is one word, and a white-space character
/// splits a text into the words before it and the words after it.
pub proof fn law_words_split_at_white_space(a: Seq<char>, w: char, b: Seq<char>)
    ensures
        words(Seq::<char>::empty()).len() == 0,
        a.len() > 0 && (forall|i: int| 0 <= i < a.len() ==> !is_white_space(#[trigger] a[i])) ==> words(a) == seq![a],
        is_white_space(w) ==> words(a + seq![w] + b) == words(a) + words(b),
{
    if is_white_space(w) {
        lemma_words_from_split(a, w, b, Seq::<char>::empty());
    }
    if a.len() > 0 && (forall|i: int| 0 <= i < a.len() ==> !is_white_space(#[trigger] a[i])) {
        lemma_words_from_solid(a, Seq::<char>::empty());
        assert(Seq::<char>::empty() + a =~= a);
    }
}

/// Each character takes one to four bytes, an ASCII one exactly one: an
/// ASCII word is long exactly when it has more than four characters.
pub proof fn law_utf8_len_bounds(w: Seq<char>)
    ensures
        w.len() <= utf8_len(w) <= 4 * w.len(),
        (forall|i: int| 0 <= i < w.len() ==> (#[trigger] w[i] as u32) < 0x80) ==> utf8_len(w) == w.len(),
    decreases w.len(),
{
    if w.len() > 0 {
        let init = w.drop_last();
        law_utf8_len_bounds(init);
        if forall|i: int| 0 <= i < w.len() ==> (#[trigger] w[i] as u32) < 0x80 {
            assert forall|i: int| 0 <= i < init.len() implies (#[trigger] init[i] as u32) < 0x80 by {
                assert(init[i] == w[i]);
            }
            assert((w[w.len() - 1] as u32) < 0x80);
        }
    }
}

/// How many of the first `n` words take more than four bytes.
pub open spec fn long_count(ws: Seq<Seq<char>>, n: nat) -> nat
    decreases n,
{
    if n == 0 {
        0
    } else {
        long_count(ws, (n - 1) as nat) + if utf8_len(ws[n - 1]) > 4 { 1nat } else { 0nat }
    }
}

proof fn lemma_long_words_take(ws: Seq<Seq<char>>, n: nat)
    requires
        n <= ws.len(),
    ensures
        long_words(ws.take(n as int)).len() == long_count(ws, n),
    decreases n,
{
    if n > 0 {
        let t = ws.take(n as int);
        assert(t.drop_last() =~= ws.take(n - 1));
        assert(t.last() == ws[n - 1]);
        lemma_long_words_take(ws, (n - 1) as nat);
    }
}

proof fn lemma_long_words_prefix(ws: Seq<Seq<char>>, n: nat, m: nat)
    requires
        n <= m <= ws.len(),
    ensures
        long_words(ws.take(n as int)).len() <= long_words(ws.take(m as int)).len(),
        forall|k: int| 0 <= k < long_words(ws.take(n as int)).len()
            ==> #[trigger] long_words(ws.take(m as int))[k] == long_words(ws.take(n as int))[k],
    decreases m,
{
    if m > n {
        lemma_long_words_prefix(ws, n, (m - 1) as nat);
        let t = ws.take(m as int);
        assert(t.drop_last() =~= ws.take(m - 1));
    }
}

/// The keywords of a summary are its words longer than four bytes,
/// lowercased, in order, at most ten: a long word preceded by fewer than
/// ten long words is the keyword at the position given by their count,
/// however many short words stand before it, and there are as many
/// keywords as long words, up to ten.
pub proof fn law_keywords_are_leading_long_words(summary: Seq<char>)
    ensures
        ({
            let ws = words(summary);
            let kw = keywords_of(summary);
            let total = long_count(ws, ws.len());
            &&& kw.len() == if total > 10 { 10 } else { total }
            &&& forall|i: int| 0 <= i < ws.len() && utf8_len(ws[i]) > 4 && long_count(ws, i as nat) < 10
                ==> kw[long_count(ws, i as nat) as int] == lowercase(#[trigger] ws[i])
        }),
{
    let ws = words(summary);
    let lw = long_words(ws);
    assert(ws.take(ws.len() as int) =~= ws);
    lemma_long_words_take(ws, ws.len());
    assert forall|i: int| 0 <= i < ws.len() && utf8_len(ws[i]) > 4 && long_count(ws, i as nat) < 10
        implies keywords_of(summary)[long_count(ws, i as nat) as int] == lowercase(#[trigger] ws[i]) by {
        let c = long_count(ws, i as nat);
        lemma_long_words_take(ws, i as nat);
        lemma_long_words_take(ws, (i + 1) as nat);
        let t = ws.take(i + 1);
        assert(t.drop_last() =~= ws.take(i));
        assert(t.last() == ws[i]);
        assert(long_words(t)[c as int] == ws[i]);
        lemma_long_words_prefix(ws, (i + 1) as nat, ws.len());
        assert(lw[c as int] == ws[i]);
    }
}

/// Whether a word takes more than four bytes in UTF-8.
fn longer_than_four_bytes(w: &Vec<char>) -> (b: bool)
    ensures
        b == (utf8_len(w@) > 4),
{
    let mut n: usize = 0;
    let mut i: usize = 0;
    while i < w.len()
        invariant
            i <= w@.len(),
            (n <= 4 && n as nat == utf8_len(w@.take(i as int))) || (n == 5 && utf8_len(w@.take(i as int)) > 4),
        decreases w.len() - i,
    {
        let u = w[i] as u32;
        let width: usize = if u < 0x80 { 1 } else if u < 0x800 { 2 } else if u < 0x10000 { 3 } else { 4 };
        assert(w@.take(i as int + 1).drop_last() =~= w@.take(i as int));
        assert(width == utf8_width(w@[i as int]));
        n = if n + width > 4 { 5 } else { n + width };
        i = i + 1;
    }
    assert(w@.take(w@.len() as int) =~= w@);
    n > 4
}

/// Splits a text into its words.
fn split_words(cs: &Vec<char>) -> (r: Vec<Vec<char>>)
    ensures
        crate::text::views(r@) == words(cs@),
{
    let mut done: Vec<Vec<char>> = Vec::new();
    let mut cur: Vec<char> = Vec::new();
    let mut i: usize = 0;
    assert(cs@.skip(0) =~= cs@);
    while i < cs.len()
        invariant
            i <= cs@.len(),
            crate::text::views(done@) + words_from(cs@.skip(i as int), cur@) == words(cs@),
        decreases cs.len() - i,
    {
        let c = cs[i];
        let ghost rest = cs@.skip(i as int);
        assert(rest[0] == c);
        assert(rest.drop_first() =~= cs@.skip(i as int + 1));
        if is_white_space_char(c) {
            if cur.len() > 0 {
                let ghost d0 = done@;
                let w = crate::text::copy_chars(cur.as_slice());
                done.push(w);
                proof {
                    crate::text::lemma_views_push(d0, w);
                }
                cur = Vec::new();
                assert(crate::text::views(done@) + words_from(cs@.skip(i as int + 1), cur@) =~= words(cs@));
            } else {
                assert(cur@ =~= Seq::<char>::empty());
                assert(crate::text::views(done@) + words_from(cs@.skip(i as int + 1), cur@) =~= words(cs@));
            }
        } else {
            cur.push(c);
        }
        i = i + 1;
    }
    assert(cs@.skip(cs@.len() as int) =~= Seq::<char>::empty());
    if cur.len() > 0 {
        let ghost d0 = done@;
        let w = crate::text::copy_chars(cur.as_slice());
        done.push(w);
        proof {
            crate::text::lemma_views_push(d0, w);
        }
    }
    assert(crate::text::views(done@) =~= words(cs@));
    done
}

/// Picks the keywords of a summary.
pub fn summary_keywords(summary: &str) -> (r: Vec<String>)
    ensures
        string_views(r@) == keywords_of(summary@),
{
    let cs = crate::text::chars_of(summary);
    let ws = split_words(&cs);
    let ghost wv = crate::text::views(ws@);
    let mut long: Vec<Vec<char>> = Vec::new();
    let mut k: usize = 0;
    while k < ws.len()
        invariant
            wv == crate::text::views(ws@),
            k <= ws@.len(),
            crate::text::views(long@) == long_words(wv.take(k as int)),
        decreases ws.len() - k,
    {
        assert(wv.take(k as int + 1).drop_last() =~= wv.take(k as int));
        assert(wv.take(k as int + 1).last() == ws@[k as int]@);
        if longer_than_four_bytes(&ws[k]) {
            let ghost l0 = long@;
            let w = crate::text::copy_chars(ws[k].as_slice());
            long.push(w);
            proof {
                crate::text::lemma_views_push(l0, w);
            }
        }
        k = k + 1;
    }
    assert(wv.take(ws@.len() as int) =~= wv);
    let ghost lv = crate::text::views(long@);
    let count = if long.len() > 10 { 10 } else { long.len() };
    let ghost first = if lv.len() > 10 { lv.take(10) } else { lv };
    let mut out: Vec<String> = Vec::new();
    let mut j: usize = 0;
    while j < count
        invariant
            lv == crate::text::views(long@),
            lv == long_words(words(summary@)),
            first == (if lv.len() > 10 { lv.take(10) } else { lv }),
            count == first.len(),
            j <= count,
            out@.len() == j,
            forall|m: int| 0 <= m < j ==> (#[trigger] out@[m])@ == lowercase(first[m]),
        decreases count - j,
    {
        let word = string_of(long[j].as_slice());
        assert(word@ == first[j as int]);
        out.push(to_lowercase(word.as_str()));
        j = j + 1;
    }
    assert(string_views(out@) =~= keywords_of(summary@));
    out
}

/// The statement that finds facts sharing keywords with a fact: live
/// facts of other files whose lowercased summary contains any keyword,
/// most severe first, at most twenty.
pub open spec fn suggestion_sql_of(keywords: Seq<Seq<char>>) -> Seq<char> {
    let conds = Seq::new(keywords.len(), |k: int| "LOWER(fact_summary) LIKE '%"@ + like_escape_of(keywords[k]) + "%' ESCAPE '\\'"@);
    SUGGESTION_HEAD@ + join_with(conds, " OR "@) + SUGGESTION_TAIL@
}

pub const SUGGESTION_HEAD: &'static str = "SELECT id, fact_summary, category, severity_score, confidence
             FROM intelligence
             WHERE is_deleted = FALSE AND fingerprint != ?1 AND (";

pub const SUGGESTION_TAIL: &'static str = ")
             ORDER BY severity_score DESC
             LIMIT 20";

/// Builds the suggestion statement for the given keywords.
pub fn suggestion_sql(keywords: &[String]) -> (r: String)
    ensures
        r@ == suggestion_sql_of(string_views(keywords@)),
{
    let ghost ks = string_views(keywords@);
    let mut conds: Vec<String> = Vec::new();
    let mut i: usize = 0;
    while i < keywords.len()
        invariant
            ks == string_views(keywords@),
            i <= keywords@.len(),
            conds@.len() == i,
            forall|k: int| 0 <= k < i ==> (#[trigger] conds@[k])@ == "LOWER(fact_summary) LIKE '%"@ + like_escape_of(ks[k]) + "%' ESCAPE '\\'"@,
        decreases keywords.len() - i,
    {
        let mut c: Vec<char> = Vec::new();
        push_str(&mut c, "LOWER(fact_summary) LIKE '%");
        let e = like_escape(keywords[i].as_str());
        push_str(&mut c, e.as_str());
        push_str(&mut c, "%' ESCAPE '\\'");
        assert(ks[i as int] == keywords@[i as int]@);
        assert(c@ =~= "LOWER(fact_summary) LIKE '%"@ + like_escape_of(ks[i as int]) + "%' ESCAPE '\\'"@);
        conds.push(string_of(c.as_slice()));
        i = i + 1;
    }
    assert(string_views(conds@) =~= Seq::new(ks.len(), |k: int| "LOWER(fact_summary) LIKE '%"@ + like_escape_of(ks[k]) + "%' ESCAPE '\\'"@));
    let joined = join_strings(conds.as_slice(), " OR ");
    let mut out: Vec<char> = Vec::new();
    push_str(&mut out, SUGGESTION_HEAD);
    push_str(&mut out, joined.as_str());
    push_str(&mut out, SUGGESTION_TAIL);
    assert(out@ =~= suggestion_sql_of(ks));
    string_of(out.as_slice())
}

/// Whether `k` occurs in `s` as a contiguous piece.
pub open spec fn contains_text(s: Seq<char>, k: Seq<char>) -> bool {
    exists|i: int| 0 <= i && i + k.len() <= s.len() && #[trigger] s.subrange(i, i + k.len()) == k
}

/// The number of keywords among the first `n` that the text contains.
pub open spec fn keyword_hits(s: Seq<char>, ks: Seq<Seq<char>>, n: nat) -> nat
    decreases n,
{
    if n == 0 {
        0
    } else {
        keyword_hits(s, ks, (n - 1) as nat) + if contains_text(s, ks[n - 1]) { 1nat } else { 0nat }
    }
}

fn contains_at(s: &Vec<char>, k: &Vec<char>, i: usize) -> (b: bool)
    requires
        i + k@.len() <= s@.len(),
    ensures
        b == (s@.subrange(i as int, i + k@.len()) == k@),
{
    let mut j: usize = 0;
    let slen = s.len();
    while j < k.len()
        invariant
            slen == s@.len(),
            i + k@.len() <= s@.len(),
            j <= k@.len(),
            forall|m: int| 0 <= m < j ==> s@[i + m] == k@[m],
        decreases k.len() - j,
    {
        assert(i + j < slen);
        if s[i + j] != k[j] {
            assert(s@.subrange(i as int, i + k@.len())[j as int] != k@[j as int]);
            return false;
        }
        j = j + 1;
    }
    assert(s@.subrange(i as int, i + k@.len()) =~= k@);
    true
}

pub(crate) fn contains_chars(s: &Vec<char>, k: &Vec<char>) -> (b: bool)
    ensures
        b == contains_text(s@, k@),
{
    if k.len() > s.len() {
        return false;
    }
    let mut i: usize = 0;
    let last = s.len() - k.len();
    while i <= last
        invariant
            k@.len() <= s@.len(),
            last == s@.len() - k@.len(),
            i <= last + 1,
            forall|m: int| 0 <= m < i ==> #[trigger] s@.subrange(m, m + k@.len()) != k@,
        decreases s@.len() - i,
    {
        if contains_at(s, k, i) {
            return true;
        }
        if i == last {
            return false;
        }
        i = i + 1;
    }
    false
}

/// Counts the keywords that a lowercased summary contains.
pub fn count_keyword_hits(summary_lower: &str, keywords: &[String]) -> (n: usize)
    ensures
        n == keyword_hits(summary_lower@, string_views(keywords@), keywords@.len()),
{
    let s = crate::text::chars_of(summary_lower);
    let ghost ks = string_views(keywords@);
    let mut n: usize = 0;
    let mut i: usize = 0;
    while i < keywords.len()
        invariant
            s@ == summary_lower@,
            ks == string_views(keywords@),
            i <= keywords@.len(),
            n == keyword_hits(summary_lower@, ks, i as nat),
            n <= i,
        decreases keywords.len() - i,
    {
        let k = crate::text::chars_of(keywords[i].as_str());
        if contains_chars(&s, &k) {
            n = n + 1;
        }
        i = i + 1;
    }
    n
}

/// Whether `k` occurs in `s` starting at position `i`.
pub open spec fn occurs_at(s: Seq<char>, k: Seq<char>, i: int) -> bool {
    0 <= i && i + k.len() <= s.len() && forall|m: int| 0 <= m < k.len() ==> #[trigger] s[i + m] == k[m]
}

/// Whether `k` occurs anywhere in `s`.
pub open spec fn occurs(s: Seq<char>, k: Seq<char>) -> bool {
    exists|i: int| #[trigger] occurs_at(s, k, i)
}

proof fn lemma_occurs_at_contains(s: Seq<char>, k: Seq<char>, i: int)
    requires
        occurs_at(s, k, i),
    ensures
        contains_text(s, k),
{
    assert forall|m: int| 0 <= m < k.len() implies s.subrange(i, i + k.len())[m] == k[m] by {
        assert(s[i + m] == k[m]);
    }
    assert(s.subrange(i, i + k.len()) =~= k);
}

proof fn lemma_occurs_iff_contains(s: Seq<char>, k: Seq<char>)
    ensures
        occurs(s, k) <==> contains_text(s, k),
{
    if occurs(s, k) {
        let i = choose|i: int| #[trigger] occurs_at(s, k, i);
        lemma_occurs_at_contains(s, k, i);
    }
    if contains_text(s, k) {
        lemma_contains_occurs_at(s, k);
    }
}

proof fn lemma_contains_occurs_at(s: Seq<char>, k: Seq<char>)
    requires
        contains_text(s, k),
    ensures
        exists|i: int| occurs_at(s, k, i),
{
    let i = choose|i: int| 0 <= i && i + k.len() <= s.len() && #[trigger] s.subrange(i, i + k.len()) == k;
    assert forall|m: int| 0 <= m < k.len() implies #[trigger] s[i + m] == k[m] by {
        assert(s.subrange(i, i + k.len())[m] == s[i + m]);
    }
    assert(occurs_at(s, k, i));
}

proof fn lemma_hits_bounded(s: Seq<char>, ks: Seq<Seq<char>>, n: nat)
    ensures
        keyword_hits(s, ks, n) <= n,
    decreases n,
{
    if n > 0 {
        lemma_hits_bounded(s, ks, (n - 1) as nat);
    }
}

proof fn lemma_hits_all(s: Seq<char>, ks: Seq<Seq<char>>, n: nat)
    requires
        n <= ks.len(),
        forall|k: int| 0 <= k < n ==> occurs(s, #[trigger] ks[k]),
    ensures
        keyword_hits(s, ks, n) == n,
    decreases n,
{
    if n > 0 {
        lemma_hits_all(s, ks, (n - 1) as nat);
        assert(occurs(s, ks[n - 1]));
        lemma_occurs_iff_contains(s, ks[n - 1]);
    }
}

proof fn lemma_hits_none(s: Seq<char>, ks: Seq<Seq<char>>, n: nat)
    requires
        n <= ks.len(),
        forall|k: int| 0 <= k < n ==> !occurs(s, #[trigger] ks[k]),
    ensures
        keyword_hits(s, ks, n) == 0,
    decreases n,
{
    if n > 0 {
        lemma_hits_none(s, ks, (n - 1) as nat);
        assert(!occurs(s, ks[n - 1]));
        lemma_occurs_iff_contains(s, ks[n - 1]);
    }
}

proof fn lemma_hits_push(s: Seq<char>, ks: Seq<Seq<char>>, w: Seq<char>, n: nat)
    requires
        n <= ks.len(),
    ensures
        keyword_hits(s, ks.push(w), n) == keyword_hits(s, ks, n),
    decreases n,
{
    if n > 0 {
        lemma_hits_push(s, ks, w, (n - 1) as nat);
        assert(ks.push(w)[n - 1] == ks[n - 1]);
    }
}

/// A keyword is a hit exactly when it occurs somewhere in the summary, the
/// very start included: the count never exceeds the number of keywords, is
/// all of them when each occurs, none when none does, and one more keyword
/// adds one exactly when it occurs.
pub proof fn law_keyword_hits_count_occurrences(s: Seq<char>, ks: Seq<Seq<char>>, w: Seq<char>)
    ensures
        keyword_hits(s, ks, ks.len()) <= ks.len(),
        (forall|k: int| 0 <= k < ks.len() ==> occurs(s, #[trigger] ks[k])) ==> keyword_hits(s, ks, ks.len()) == ks.len(),
        (forall|k: int| 0 <= k < ks.len() ==> !occurs(s, #[trigger] ks[k])) ==> keyword_hits(s, ks, ks.len()) == 0,
        occurs(s, w) ==> keyword_hits(s, ks.push(w), ks.len() + 1) == keyword_hits(s, ks, ks.len()) + 1,
        !occurs(s, w) ==> keyword_hits(s, ks.push(w), ks.len() + 1) == keyword_hits(s, ks, ks.len()),
        w.len() <= s.len() && s.take(w.len() as int) == w ==> occurs(s, w),
{
    lemma_hits_bounded(s, ks, ks.len());
    if forall|k: int| 0 <= k < ks.len() ==> occurs(s, #[trigger] ks[k]) {
        lemma_hits_all(s, ks, ks.len());
    }
    if forall|k: int| 0 <= k < ks.len() ==> !occurs(s, #[trigger] ks[k]) {
        lemma_hits_none(s, ks, ks.len());
    }
    lemma_hits_push(s, ks, w, ks.len());
    let ks2 = ks.push(w);
    assert(ks2[ks.len() as int] == w);
    lemma_occurs_iff_contains(s, w);
    if w.len() <= s.len() && s.take(w.len() as int) == w {
        assert forall|m: int| 0 <= m < w.len() implies #[trigger] s[0 + m] == w[m] by {
            assert(s.take(w.len() as int)[m] == s[m]);
        }
        assert(occurs_at(s, w, 0));
    }
}

/// The reason shown with a suggestion.
pub fn match_reasons(hits: usize) -> (r: String)
    ensures
        r@ == decimal(hits as nat) + " keyword matches"@,
{
    let mut out: Vec<char> = Vec::new();
    push_decimal(&mut out, hits as u64);
    push_str(&mut out, " keyword matches");
    string_of(out.as_slice())
}

/// The statement that finds facts naming several of the given entity
/// values: `n` unnumbered placeholders for the values, then the minimum
/// number of distinct matches as `?1`.
pub open spec fn entity_chain_sql_of(n: nat) -> Seq<char> {
    ENTITY_CHAIN_HEAD@ + join_with(Seq::new(n, |k: int| seq!['?']), ","@) + ENTITY_CHAIN_TAIL@
}

pub const ENTITY_CHAIN_HEAD: &'static str = "SELECT i.id, i.fingerprint, i.filename, i.fact_summary, i.severity_score, i.confidence,
                    GROUP_CONCAT(e.value) as entities
             FROM intelligence i
             JOIN entities e ON i.fingerprint = e.fingerprint
             WHERE e.value IN (";

pub const ENTITY_CHAIN_TAIL: &'static str = ")
             GROUP BY i.id
             HAVING COUNT(DISTINCT e.value) >= ?1";

/// Builds the statement for a search by `n` entity values.
pub fn entity_chain_sql(n: usize) -> (r: String)
    ensures
        r@ == entity_chain_sql_of(n as nat),
{
    let ghost ps = Seq::new(n as nat, |k: int| seq!['?']);
    let mut out: Vec<char> = Vec::new();
    push_str(&mut out, ENTITY_CHAIN_HEAD);
    let ghost head = out@;
    let mut k: usize = 0;
    while k < n
        invariant
            ps == Seq::new(n as nat, |k: int| seq!['?']),
            k <= n,
            out@ == head + join_with(ps.take(k as int), ","@),
        decreases n - k,
    {
        assert(ps.take(k as int + 1).drop_last() =~= ps.take(k as int));
        if k > 0 {
            push_str(&mut out, ",");
        }
        out.push('?');
        k = k + 1;
        proof {
            if k == 1 {
                assert(ps.take(1)[0] == seq!['?']);
            }
        }
        assert(out@ =~= head + join_with(ps.take(k as int), ","@));
    }
    assert(ps.take(n as int) =~= ps);
    push_str(&mut out, ENTITY_CHAIN_TAIL);
    assert(out@ =~= entity_chain_sql_of(n as nat));
    string_of(out.as_slice())
}

} // verus!
