//! Comma-separated tag lists stored on facts.

use vstd::prelude::*;
use crate::text::{copy_chars, trim_start, trim_end, chars_eq, chars_of, string_of, strings_of, trim, trim_chars, views, lemma_views_push, string_views, lemma_trim_idempotent};

verus! {

/// The pieces of `s` between commas, as `str::split(',')` yields them.
pub open spec fn split_commas(s: Seq<char>) -> Seq<Seq<char>>
    decreases s.len(),
{
    if s.len() == 0 {
        seq![Seq::<char>::empty()]
    } else {
        let rest = split_commas(s.drop_first());
        if s[0] == ',' {
            seq![Seq::<char>::empty()] + rest
        } else {
            rest.update(0, seq![s[0]] + rest[0])
        }
    }
}

/// The trimmed, non-empty pieces, in order.
pub open spec fn keep_tags(ps: Seq<Seq<char>>) -> Seq<Seq<char>>
    decreases ps.len(),
{
    if ps.len() == 0 {
        Seq::empty()
    } else {
        let rest = keep_tags(ps.drop_last());
        let t = trim(ps.last());
        if t.len() > 0 { rest.push(t) } else { rest }
    }
}

/// The tags that a stored tag column holds.
pub open spec fn tag_list(s: Seq<char>) -> Seq<Seq<char>> {
    keep_tags(split_commas(s))
}

/// The tags of an optional stored column; no column means no tags.
pub open spec fn current_tags(current: Option<Seq<char>>) -> Seq<Seq<char>> {
    match current {
        Some(s) => tag_list(s),
        None => Seq::empty(),
    }
}

/// Tags joined with commas, as `join(",")` writes them.
pub open spec fn join_tags(ts: Seq<Seq<char>>) -> Seq<char>
    decreases ts.len(),
{
    if ts.len() == 0 {
        Seq::empty()
    } else if ts.len() == 1 {
        ts[0]
    } else {
        join_tags(ts.drop_last()) + seq![','] + ts.last()
    }
}

/// The list with `t` appended unless it is already there.
pub open spec fn with_tag(ts: Seq<Seq<char>>, t: Seq<char>) -> Seq<Seq<char>> {
    if ts.contains(t) { ts } else { ts.push(t) }
}

/// The list with every occurrence of `t` removed.
pub open spec fn without_tag(ts: Seq<Seq<char>>, t: Seq<char>) -> Seq<Seq<char>>
    decreases ts.len(),
{
    if ts.len() == 0 {
        Seq::empty()
    } else {
        let rest = without_tag(ts.drop_last(), t);
        if ts.last() == t { rest } else { rest.push(ts.last()) }
    }
}

/// A tag that survives being stored and read back: non-empty, trimmed and
/// free of commas.
pub open spec fn is_clean_tag(t: Seq<char>) -> bool {
    t.len() > 0 && !t.contains(',') && trim(t) == t
}

pub proof fn lemma_split_nonempty(s: Seq<char>)
    ensures
        split_commas(s).len() >= 1,
    decreases s.len(),
{
    if s.len() > 0 {
        lemma_split_nonempty(s.drop_first());
    }
}

pub proof fn lemma_split_push(a: Seq<char>, c: char)
    ensures
        split_commas(a.push(c)) == (if c == ',' {
            split_commas(a).push(Seq::<char>::empty())
        } else {
            split_commas(a).update(split_commas(a).len() - 1, split_commas(a).last().push(c))
        }),
    decreases a.len(),
{
    lemma_split_nonempty(a);
    if a.len() == 0 {
        assert(a.push(c).drop_first() =~= Seq::<char>::empty());
        assert(split_commas(Seq::<char>::empty()) == seq![Seq::<char>::empty()]);
        if c == ',' {
            assert(split_commas(a.push(c)) =~= split_commas(a).push(Seq::<char>::empty()));
        } else {
            assert(seq![c] + Seq::<char>::empty() =~= Seq::<char>::empty().push(c));
            assert(split_commas(a.push(c)) =~= split_commas(a).update(0, split_commas(a).last().push(c)));
        }
    } else {
        let a1 = a.drop_first();
        assert(a.push(c).drop_first() =~= a1.push(c));
        lemma_split_push(a1, c);
        lemma_split_nonempty(a1);
        let r1 = split_commas(a1);
        if c == ',' {
            if a[0] == ',' {
                assert(split_commas(a.push(c)) =~= split_commas(a).push(Seq::<char>::empty()));
            } else {
                assert(split_commas(a.push(c)) =~= split_commas(a).push(Seq::<char>::empty()));
            }
        } else {
            if a[0] == ',' {
                assert(split_commas(a.push(c)) =~= split_commas(a).update(split_commas(a).len() - 1, split_commas(a).last().push(c)));
            } else {
                if r1.len() == 1 {
                    assert(seq![a[0]] + r1[0].push(c) =~= (seq![a[0]] + r1[0]).push(c));
                }
                assert(split_commas(a.push(c)) =~= split_commas(a).update(split_commas(a).len() - 1, split_commas(a).last().push(c)));
            }
        }
    }
}

proof fn lemma_split_pieces_comma_free(s: Seq<char>)
    ensures
        forall|i: int| 0 <= i < split_commas(s).len() ==> !(#[trigger] split_commas(s)[i]).contains(','),
    decreases s.len(),
{
    lemma_split_nonempty(s);
    if s.len() > 0 {
        lemma_split_pieces_comma_free(s.drop_first());
        lemma_split_nonempty(s.drop_first());
        let rest = split_commas(s.drop_first());
        if s[0] != ',' {
            let p0 = seq![s[0]] + rest[0];
            assert forall|j: int| 0 <= j < p0.len() implies p0[j] != ',' by {
                if j > 0 {
                    assert(p0[j] == rest[0][j - 1]);
                }
            }
        }
        assert forall|i: int| 0 <= i < split_commas(s).len() implies !(#[trigger] split_commas(s)[i]).contains(',') by {
            if s[0] == ',' {
                if i > 0 {
                    assert(split_commas(s)[i] == rest[i - 1]);
                }
            }
        }
    }
}

proof fn lemma_keep_tags_clean(ps: Seq<Seq<char>>)
    requires
        forall|i: int| 0 <= i < ps.len() ==> !(#[trigger] ps[i]).contains(','),
    ensures
        forall|i: int| 0 <= i < keep_tags(ps).len() ==> is_clean_tag(#[trigger] keep_tags(ps)[i]),
    decreases ps.len(),
{
    if ps.len() > 0 {
        assert forall|i: int| 0 <= i < ps.drop_last().len() implies !(#[trigger] ps.drop_last()[i]).contains(',') by {
            assert(ps.drop_last()[i] == ps[i]);
        }
        lemma_keep_tags_clean(ps.drop_last());
        let t = trim(ps.last());
        lemma_trim_idempotent(ps.last());
        let (a, b) = choose|a: int, b: int| 0 <= a <= b <= ps.last().len() && t == ps.last().subrange(a, b);
        assert(!ps[ps.len() - 1].contains(','));
        assert forall|j: int| 0 <= j < t.len() implies t[j] != ',' by {
            assert(t[j] == ps.last()[a + j]);
        }
        let rest = keep_tags(ps.drop_last());
        if t.len() > 0 {
            assert(!t.contains(','));
            assert(is_clean_tag(t));
            assert forall|i: int| 0 <= i < keep_tags(ps).len() implies is_clean_tag(#[trigger] keep_tags(ps)[i]) by {
                assert(keep_tags(ps) == rest.push(t));
                if i < rest.len() {
                    assert(keep_tags(ps)[i] == rest[i]);
                }
            }
        }
    }
}

/// Every tag read from a column is clean.
pub proof fn lemma_tag_list_clean(s: Seq<char>)
    ensures
        forall|i: int| 0 <= i < tag_list(s).len() ==> is_clean_tag(#[trigger] tag_list(s)[i]),
{
    lemma_split_pieces_comma_free(s);
    lemma_keep_tags_clean(split_commas(s));
}

proof fn lemma_split_single(b: Seq<char>)
    requires
        !b.contains(','),
    ensures
        split_commas(b) == seq![b],
    decreases b.len(),
{
    if b.len() > 0 {
        assert(!b.drop_first().contains(',')) by {
            if b.drop_first().contains(',') {
                let j = choose|j: int| 0 <= j < b.drop_first().len() && b.drop_first()[j] == ',';
                assert(b[j + 1] == ',');
            }
        }
        lemma_split_single(b.drop_first());
        assert(b[0] != ',') by {
            if b[0] == ',' { assert(b.contains(',')); }
        }
        assert(seq![b[0]] + b.drop_first() =~= b);
        assert(split_commas(b) =~= seq![b]);
    } else {
        assert(b =~= Seq::<char>::empty());
    }
}

proof fn lemma_split_concat(a: Seq<char>, b: Seq<char>)
    ensures
        split_commas(a + seq![','] + b) == split_commas(a) + split_commas(b),
    decreases a.len(),
{
    lemma_split_nonempty(a);
    lemma_split_nonempty(b);
    if a.len() == 0 {
        assert(a + seq![','] + b =~= seq![','] + b);
        assert((seq![','] + b).drop_first() =~= b);
    } else {
        let a1 = a.drop_first();
        assert((a + seq![','] + b).drop_first() =~= a1 + seq![','] + b);
        lemma_split_concat(a1, b);
        lemma_split_nonempty(a1);
        let whole = a + seq![','] + b;
        assert(whole[0] == a[0]);
        if a[0] == ',' {
            assert(split_commas(whole) =~= split_commas(a) + split_commas(b));
        } else {
            assert(split_commas(whole) =~= split_commas(a) + split_commas(b));
        }
    }
}

proof fn lemma_keep_tags_concat(p: Seq<Seq<char>>, q: Seq<Seq<char>>)
    ensures
        keep_tags(p + q) == keep_tags(p) + keep_tags(q),
    decreases q.len(),
{
    if q.len() == 0 {
        assert(p + q =~= p);
        assert(keep_tags(p) + keep_tags(q) =~= keep_tags(p));
    } else {
        assert((p + q).drop_last() =~= p + q.drop_last());
        lemma_keep_tags_concat(p, q.drop_last());
        assert((p + q).last() == q.last());
        let t = trim(q.last());
        if t.len() > 0 {
            assert(keep_tags(p) + keep_tags(q.drop_last()).push(t) =~= (keep_tags(p) + keep_tags(q.drop_last())).push(t));
        }
    }
}

proof fn lemma_keep_single(t: Seq<char>)
    requires
        is_clean_tag(t),
    ensures
        keep_tags(seq![t]) == seq![t],
{
    assert(seq![t].drop_last() =~= Seq::<Seq<char>>::empty());
    assert(seq![t].last() == t);
    assert(keep_tags(Seq::<Seq<char>>::empty()) == Seq::<Seq<char>>::empty());
    assert(Seq::<Seq<char>>::empty().push(t) =~= seq![t]);
}

/// Clean tags joined with commas read back as the same list.
pub proof fn lemma_tags_round_trip(ts: Seq<Seq<char>>)
    requires
        forall|i: int| 0 <= i < ts.len() ==> is_clean_tag(#[trigger] ts[i]),
    ensures
        tag_list(join_tags(ts)) == ts,
    decreases ts.len(),
{
    if ts.len() == 0 {
        assert(split_commas(Seq::<char>::empty()) == seq![Seq::<char>::empty()]);
        assert(seq![Seq::<char>::empty()].drop_last() =~= Seq::<Seq<char>>::empty());
        assert(trim_start(Seq::<char>::empty()) == Seq::<char>::empty());
        assert(trim_end(Seq::<char>::empty()) == Seq::<char>::empty());
        assert(keep_tags(Seq::<Seq<char>>::empty()) == Seq::<Seq<char>>::empty());
        assert(join_tags(ts) == Seq::<char>::empty());
        assert(ts =~= Seq::<Seq<char>>::empty());
    } else if ts.len() == 1 {
        assert(is_clean_tag(ts[0]));
        lemma_split_single(ts[0]);
        lemma_keep_single(ts[0]);
        assert(seq![ts[0]] =~= ts);
    } else {
        let init = ts.drop_last();
        assert forall|i: int| 0 <= i < init.len() implies is_clean_tag(#[trigger] init[i]) by {
            assert(init[i] == ts[i]);
        }
        lemma_tags_round_trip(init);
        assert(is_clean_tag(ts[ts.len() - 1]));
        lemma_split_concat(join_tags(init), ts.last());
        lemma_split_single(ts.last());
        lemma_keep_tags_concat(split_commas(join_tags(init)), seq![ts.last()]);
        lemma_keep_single(ts.last());
        assert(init + seq![ts.last()] =~= ts);
    }
}

proof fn lemma_with_tag_clean(ts: Seq<Seq<char>>, t: Seq<char>)
    requires
        forall|i: int| 0 <= i < ts.len() ==> is_clean_tag(#[trigger] ts[i]),
        is_clean_tag(t),
    ensures
        forall|i: int| 0 <= i < with_tag(ts, t).len() ==> is_clean_tag(#[trigger] with_tag(ts, t)[i]),
{
}

proof fn lemma_without_tag_props(ts: Seq<Seq<char>>, t: Seq<char>)
    requires
        forall|i: int| 0 <= i < ts.len() ==> is_clean_tag(#[trigger] ts[i]),
    ensures
        forall|i: int| 0 <= i < without_tag(ts, t).len() ==> is_clean_tag(#[trigger] without_tag(ts, t)[i]),
        !without_tag(ts, t).contains(t),
        forall|x: Seq<char>| x != t ==> (ts.contains(x) <==> without_tag(ts, t).contains(x)),
    decreases ts.len(),
{
    if ts.len() > 0 {
        let init = ts.drop_last();
        assert forall|i: int| 0 <= i < init.len() implies is_clean_tag(#[trigger] init[i]) by {
            assert(init[i] == ts[i]);
        }
        lemma_without_tag_props(init, t);
        assert(ts =~= init.push(ts.last()));
        let rest = without_tag(init, t);
        assert forall|x: Seq<char>| x != t implies (ts.contains(x) <==> without_tag(ts, t).contains(x)) by {
            if ts.contains(x) {
                let j = choose|j: int| 0 <= j < ts.len() && ts[j] == x;
                let w = without_tag(ts, t);
                assert(w == (if ts.last() == t { rest } else { rest.push(ts.last()) }));
                if j < ts.len() - 1 {
                    assert(init[j] == x);
                    assert(init.contains(x));
                    assert(rest.contains(x));
                    let k2 = choose|k2: int| 0 <= k2 < rest.len() && rest[k2] == x;
                    assert(w[k2] == x);
                } else {
                    assert(without_tag(ts, t) == rest.push(ts.last()));
                    assert(without_tag(ts, t)[rest.len() as int] == x);
                }
            }
            if without_tag(ts, t).contains(x) {
                let j = choose|j: int| 0 <= j < without_tag(ts, t).len() && without_tag(ts, t)[j] == x;
                if j < rest.len() {
                    assert(rest[j] == x);
                    assert(rest.contains(x));
                    assert(init.contains(x));
                    let k = choose|k: int| 0 <= k < init.len() && init[k] == x;
                    assert(ts[k] == x);
                } else {
                    assert(ts[ts.len() - 1] == x);
                }
            }
        }
        if without_tag(ts, t).contains(t) {
            let j = choose|j: int| 0 <= j < without_tag(ts, t).len() && without_tag(ts, t)[j] == t;
            if j < rest.len() {
                assert(rest[j] == t);
                assert(rest.contains(t));
            }
        }
    }
}

/// After a tag is added, reading the column back gives the previous tags
/// with the new one appended (unless it was already there), so the fact
/// carries the tag.
pub proof fn law_add_tag_reads_back(current: Option<Seq<char>>, t: Seq<char>)
    requires
        is_clean_tag(t),
    ensures
        tag_list(join_tags(with_tag(current_tags(current), t))) == with_tag(current_tags(current), t),
        tag_list(join_tags(with_tag(current_tags(current), t))).contains(t),
{
    if let Some(s) = current {
        lemma_tag_list_clean(s);
    }
    lemma_with_tag_clean(current_tags(current), t);
    lemma_tags_round_trip(with_tag(current_tags(current), t));
    let w = with_tag(current_tags(current), t);
    if !current_tags(current).contains(t) {
        assert(w[w.len() - 1] == t);
    }
}

/// Adding a tag twice leaves the same column as adding it once.
pub proof fn law_add_tag_idempotent(current: Option<Seq<char>>, t: Seq<char>)
    requires
        is_clean_tag(t),
    ensures
        join_tags(with_tag(tag_list(join_tags(with_tag(current_tags(current), t))), t))
            == join_tags(with_tag(current_tags(current), t)),
{
    law_add_tag_reads_back(current, t);
}

/// After a tag is removed, reading the column back gives the previous tags
/// without it, and every other tag is kept.
pub proof fn law_remove_tag_reads_back(current: Option<Seq<char>>, t: Seq<char>)
    ensures
        tag_list(join_tags(without_tag(current_tags(current), t))) == without_tag(current_tags(current), t),
        !tag_list(join_tags(without_tag(current_tags(current), t))).contains(t),
        forall|x: Seq<char>| x != t ==> (current_tags(current).contains(x)
            <==> tag_list(join_tags(without_tag(current_tags(current), t))).contains(x)),
{
    if let Some(s) = current {
        lemma_tag_list_clean(s);
    }
    lemma_without_tag_props(current_tags(current), t);
    lemma_tags_round_trip(without_tag(current_tags(current), t));
}

/// Finishes one piece: its trimmed form is kept when non-empty.
fn finish_piece(done: &mut Vec<Vec<char>>, cur: &Vec<char>)
    ensures
        views(final(done)@) == (if trim(cur@).len() > 0 { views(old(done)@).push(trim(cur@)) } else { views(old(done)@) }),
{
    let t = trim_chars(cur.as_slice());
    if t.len() > 0 {
        proof { lemma_views_push(done@, t); }
        done.push(t);
    }
}

/// Splits a stored tag column into its tags (`split(',')`, trim, drop empty).
fn parse_tags(s: &[char]) -> (r: Vec<Vec<char>>)
    ensures
        views(r@) == tag_list(s@),
{
    let mut done: Vec<Vec<char>> = Vec::new();
    let mut cur: Vec<char> = Vec::new();
    let mut i: usize = 0;
    assert(s@.take(0) =~= Seq::<char>::empty());
    assert(views(done@) =~= Seq::<Seq<char>>::empty());
    while i < s.len()
        invariant
            i <= s@.len(),
            split_commas(s@.take(i as int)).len() >= 1,
            split_commas(s@.take(i as int)).last() == cur@,
            keep_tags(split_commas(s@.take(i as int)).drop_last()) == views(done@),
        decreases s.len() - i,
    {
        let c = s[i];
        let ghost p = split_commas(s@.take(i as int));
        proof {
            lemma_split_push(s@.take(i as int), c);
            assert(s@.take(i as int + 1) =~= s@.take(i as int).push(c));
        }
        if c == ',' {
            finish_piece(&mut done, &cur);
            cur = Vec::new();
            proof {
                let q = p.push(Seq::<char>::empty());
                assert(q.drop_last() =~= p);
                assert(p.drop_last() == p.drop_last());
            }
        } else {
            cur.push(c);
            proof {
                let q = p.update(p.len() - 1, p.last().push(c));
                assert(q.drop_last() =~= p.drop_last());
            }
        }
        i = i + 1;
    }
    finish_piece(&mut done, &cur);
    assert(s@.take(s@.len() as int) =~= s@);
    done
}

/// Joins tags with commas.
fn join_tag_chars(ts: &Vec<Vec<char>>) -> (r: Vec<char>)
    ensures
        r@ == join_tags(views(ts@)),
{
    let mut out: Vec<char> = Vec::new();
    let mut k: usize = 0;
    while k < ts.len()
        invariant
            k <= ts@.len(),
            out@ == join_tags(views(ts@).take(k as int)),
        decreases ts.len() - k,
    {
        let piece = &ts[k];
        let ghost before = out@;
        if k > 0 {
            out.push(',');
        }
        let mut j: usize = 0;
        let ghost mid = out@;
        while j < piece.len()
            invariant
                j <= piece@.len(),
                out@ == mid + piece@.take(j as int),
            decreases piece.len() - j,
        {
            out.push(piece[j]);
            j = j + 1;
            assert(out@ =~= mid + piece@.take(j as int));
        }
        proof {
            let vs = views(ts@).take(k as int + 1);
            assert(vs.drop_last() =~= views(ts@).take(k as int));
            assert(piece@.take(piece@.len() as int) =~= piece@);
            if k == 0 {
                assert(out@ =~= join_tags(vs));
            } else {
                assert(out@ =~= join_tags(vs));
            }
        }
        k = k + 1;
    }
    assert(views(ts@).take(ts@.len() as int) =~= views(ts@));
    out
}

fn contains_tag(ts: &Vec<Vec<char>>, t: &[char]) -> (r: bool)
    ensures
        r == views(ts@).contains(t@),
{
    let mut i: usize = 0;
    while i < ts.len()
        invariant
            i <= ts@.len(),
            forall|j: int| 0 <= j < i ==> ts@[j]@ != t@,
        decreases ts.len() - i,
    {
        if chars_eq(ts[i].as_slice(), t) {
            assert(views(ts@)[i as int] == t@);
            return true;
        }
        i = i + 1;
    }
    proof {
        if views(ts@).contains(t@) {
            let j = choose|j: int| 0 <= j < views(ts@).len() && views(ts@)[j] == t@;
            assert(ts@[j]@ == t@);
        }
    }
    false
}

fn stored_tags(current: Option<&str>) -> (r: Vec<Vec<char>>)
    ensures
        views(r@) == current_tags(match current { Some(s) => Some(s@), None => None }),
{
    match current {
        Some(s) => {
            let cs = chars_of(s);
            parse_tags(cs.as_slice())
        },
        None => {
            let r: Vec<Vec<char>> = Vec::new();
            assert(views(r@) =~= Seq::<Seq<char>>::empty());
            r
        },
    }
}

/// Splits a stored tag column into its tags.
pub fn parse_tag_list(s: &str) -> (r: Vec<String>)
    ensures
        string_views(r@) == tag_list(s@),
{
    let cs = chars_of(s);
    let ts = parse_tags(cs.as_slice());
    strings_of(&ts)
}

/// The new tag column after adding `tag` to a fact whose column holds
/// `current`: the tag is appended unless the fact already carries it.
pub fn add_tag_to_list(current: Option<&str>, tag: &str) -> (r: String)
    ensures
        r@ == join_tags(with_tag(current_tags(match current { Some(s) => Some(s@), None => None }), tag@)),
{
    let mut ts = stored_tags(current);
    let t = chars_of(tag);
    if !contains_tag(&ts, t.as_slice()) {
        proof { lemma_views_push(ts@, t); }
        ts.push(t);
    }
    let out = join_tag_chars(&ts);
    string_of(out.as_slice())
}

/// The new tag column after removing every occurrence of `tag`.
pub fn remove_tag_from_list(current: Option<&str>, tag: &str) -> (r: String)
    ensures
        r@ == join_tags(without_tag(current_tags(match current { Some(s) => Some(s@), None => None }), tag@)),
{
    let ts = stored_tags(current);
    let t = chars_of(tag);
    let mut kept: Vec<Vec<char>> = Vec::new();
    let mut i: usize = 0;
    assert(views(kept@) =~= without_tag(views(ts@).take(0), t@));
    while i < ts.len()
        invariant
            i <= ts@.len(),
            views(kept@) == without_tag(views(ts@).take(i as int), t@),
        decreases ts.len() - i,
    {
        let ghost prefix = views(ts@).take(i as int + 1);
        assert(prefix.drop_last() =~= views(ts@).take(i as int));
        if !chars_eq(ts[i].as_slice(), t.as_slice()) {
            let piece = copy_chars(ts[i].as_slice());
            proof { lemma_views_push(kept@, piece); }
            kept.push(piece);
        }
        i = i + 1;
    }
    assert(views(ts@).take(ts@.len() as int) =~= views(ts@));
    let out = join_tag_chars(&kept);
    string_of(out.as_slice())
}

/// The order of `String`s: lexicographic by code point, which is the byte
/// order of their UTF-8 encodings.
pub open spec fn text_lt(a: Seq<char>, b: Seq<char>) -> bool
    decreases a.len(),
{
    if a.len() == 0 {
        b.len() > 0
    } else if b.len() == 0 {
        false
    } else if a[0] != b[0] {
        (a[0] as u32) < (b[0] as u32)
    } else {
        text_lt(a.drop_first(), b.drop_first())
    }
}

proof fn lemma_text_lt_irreflexive(a: Seq<char>)
    ensures
        !text_lt(a, a),
    decreases a.len(),
{
    if a.len() > 0 {
        lemma_text_lt_irreflexive(a.drop_first());
    }
}

proof fn lemma_text_lt_transitive(a: Seq<char>, b: Seq<char>, c: Seq<char>)
    requires
        text_lt(a, b),
        text_lt(b, c),
    ensures
        text_lt(a, c),
    decreases a.len(),
{
    if a.len() > 0 && b.len() > 0 && c.len() > 0 && a[0] == b[0] && b[0] == c[0] {
        lemma_text_lt_transitive(a.drop_first(), b.drop_first(), c.drop_first());
    }
}

proof fn lemma_text_lt_total(a: Seq<char>, b: Seq<char>)
    requires
        a != b,
    ensures
        text_lt(a, b) || text_lt(b, a),
    decreases a.len(),
{
    if a.len() == 0 {
        assert(b.len() > 0) by {
            if b.len() == 0 { assert(a =~= b); }
        }
    } else if b.len() > 0 && a[0] == b[0] {
        if a.drop_first() == b.drop_first() {
            assert(a =~= seq![a[0]] + a.drop_first());
            assert(b =~= seq![b[0]] + b.drop_first());
        }
        lemma_text_lt_total(a.drop_first(), b.drop_first());
    } else if b.len() > 0 {
        if (a[0] as u32) == (b[0] as u32) {
            vstd::utf8::char_u32_cast(a[0], a[0] as u32);
            vstd::utf8::char_u32_cast(b[0], b[0] as u32);
        }
    }
}

/// Strictly increasing in the `String` order, hence free of duplicates.
pub open spec fn strictly_sorted(s: Seq<Seq<char>>) -> bool {
    forall|i: int, j: int| 0 <= i < j < s.len() ==> text_lt(#[trigger] s[i], #[trigger] s[j])
}

/// Every tag found in the stored columns.
pub open spec fn tags_in_rows(rows: Seq<Option<Seq<char>>>) -> Set<Seq<char>> {
    Set::new(|t: Seq<char>| exists|i: int| 0 <= i < rows.len() && #[trigger] rows[i] is Some
        && tag_list(rows[i]->0).contains(t))
}

fn text_less(a: &[char], b: &[char]) -> (r: bool)
    ensures
        r == text_lt(a@, b@),
{
    let mut i: usize = 0;
    assert(a@.skip(0) =~= a@);
    assert(b@.skip(0) =~= b@);
    while i < a.len() && i < b.len() && a[i] == b[i]
        invariant
            i <= a@.len(),
            i <= b@.len(),
            text_lt(a@, b@) == text_lt(a@.skip(i as int), b@.skip(i as int)),
        decreases a.len() - i,
    {
        assert(a@.skip(i as int).drop_first() =~= a@.skip(i as int + 1));
        assert(b@.skip(i as int).drop_first() =~= b@.skip(i as int + 1));
        i = i + 1;
    }
    if i == a.len() {
        i < b.len()
    } else if i == b.len() {
        false
    } else {
        (a[i] as u32) < (b[i] as u32)
    }
}

/// Inserts `t` into a strictly sorted list unless it is already present.
fn insert_sorted(out: &mut Vec<Vec<char>>, t: Vec<char>)
    requires
        strictly_sorted(views(old(out)@)),
    ensures
        strictly_sorted(views(final(out)@)),
        views(final(out)@).to_set() == views(old(out)@).to_set().insert(t@),
{
    let ghost old_v = views(out@);
    let mut p: usize = 0;
    while p < out.len() && text_less(out[p].as_slice(), t.as_slice())
        invariant
            p <= out@.len(),
            views(out@) == old_v,
            forall|k: int| 0 <= k < p ==> text_lt(#[trigger] old_v[k], t@),
        decreases out.len() - p,
    {
        p = p + 1;
    }
    if p < out.len() && chars_eq(out[p].as_slice(), t.as_slice()) {
        assert(old_v[p as int] == t@);
        assert(old_v.to_set().insert(t@) =~= old_v.to_set());
        return;
    }
    proof {
        if p < out@.len() {
            assert(!text_lt(old_v[p as int], t@));
            assert(old_v[p as int] != t@);
            lemma_text_lt_total(old_v[p as int], t@);
        }
    }
    out.insert(p, t);
    let ghost nv = views(out@);
    assert(nv =~= old_v.insert(p as int, t@));
    assert forall|i: int, j: int| 0 <= i < j < nv.len() implies text_lt(#[trigger] nv[i], #[trigger] nv[j]) by {
        if j < p {
            assert(nv[i] == old_v[i] && nv[j] == old_v[j]);
        } else if j == p {
            assert(nv[i] == old_v[i]);
        } else if i == p {
            assert(nv[j] == old_v[j - 1]);
            if j - 1 > p {
                lemma_text_lt_transitive(t@, old_v[p as int], old_v[j - 1]);
            }
        } else if i < p {
            assert(nv[i] == old_v[i] && nv[j] == old_v[j - 1]);
            lemma_text_lt_transitive(old_v[i], t@, old_v[p as int]);
            if j - 1 > p {
                lemma_text_lt_transitive(old_v[i], old_v[p as int], old_v[j - 1]);
            }
        } else {
            assert(nv[i] == old_v[i - 1] && nv[j] == old_v[j - 1]);
        }
    }
    assert(nv.to_set() =~= old_v.to_set().insert(t@)) by {
        assert forall|x: Seq<char>| nv.to_set().contains(x) <==> old_v.to_set().insert(t@).contains(x) by {
            if nv.contains(x) {
                let k = choose|k: int| 0 <= k < nv.len() && nv[k] == x;
                if k < p { assert(old_v[k] == x); } else if k > p { assert(old_v[k - 1] == x); }
            }
            if old_v.contains(x) {
                let k = choose|k: int| 0 <= k < old_v.len() && old_v[k] == x;
                if k < p { assert(nv[k] == x); } else { assert(nv[k + 1] == x); }
            }
            if x == t@ {
                assert(nv[p as int] == x);
            }
        }
    }
}

/// All distinct tags found in the stored tag columns, sorted (what
/// `sort` then `dedup` leave).
pub fn collect_unique_tags(rows: &[Option<String>]) -> (r: Vec<String>)
    ensures
        strictly_sorted(string_views(r@)),
        string_views(r@).to_set() == tags_in_rows(
            Seq::new(rows@.len(), |i: int| match rows@[i] { Some(s) => Some(s@), None => None })),
{
    let ghost rs = Seq::new(rows@.len(), |i: int| match rows@[i] { Some(s) => Some(s@), None => None });
    let mut out: Vec<Vec<char>> = Vec::new();
    let mut i: usize = 0;
    assert(views(out@).to_set() =~= Set::<Seq<char>>::empty());
    while i < rows.len()
        invariant
            i <= rows@.len(),
            rs.len() == rows@.len(),
            forall|k: int| 0 <= k < rows@.len() ==> #[trigger] rs[k] == match rows@[k] { Some(s) => Some(s@), None => None },
            strictly_sorted(views(out@)),
            views(out@).to_set() == Set::new(|t: Seq<char>| exists|k: int| 0 <= k < i && #[trigger] rs[k] is Some
                && tag_list(rs[k]->0).contains(t)),
        decreases rows.len() - i,
    {
        let ghost before = views(out@).to_set();
        match &rows[i] {
            Some(s) => {
                let cs = chars_of(s.as_str());
                let ts = parse_tags(cs.as_slice());
                let mut j: usize = 0;
                while j < ts.len()
                    invariant
                        j <= ts@.len(),
                        views(ts@) == tag_list(s@),
                        strictly_sorted(views(out@)),
                        views(out@).to_set() == before.union(views(ts@).take(j as int).to_set()),
                    decreases ts.len() - j,
                {
                    let ghost prev = views(out@).to_set();
                    let c = copy_chars(ts[j].as_slice());
                    assert(c@ == ts@[j as int]@);
                    insert_sorted(&mut out, c);
                    proof {
                        assert(views(ts@).take(j as int + 1) =~= views(ts@).take(j as int).push(ts@[j as int]@));
                        let s0 = views(ts@).take(j as int);
                        let e = ts@[j as int]@;
                        assert forall|x: Seq<char>| s0.push(e).contains(x) <==> (s0.contains(x) || x == e) by {
                            if s0.push(e).contains(x) {
                                let k = choose|k: int| 0 <= k < s0.push(e).len() && s0.push(e)[k] == x;
                                if k < s0.len() { assert(s0[k] == x); }
                            }
                            if s0.contains(x) {
                                let k = choose|k: int| 0 <= k < s0.len() && s0[k] == x;
                                assert(s0.push(e)[k] == x);
                            }
                            if x == e { assert(s0.push(e)[s0.len() as int] == x); }
                        }
                        assert(views(ts@).take(j as int + 1) == s0.push(e));
                        s0.lemma_push_to_set_commute(e);
                        assert(views(out@).to_set() == prev.insert(e));
                        assert(prev == before.union(s0.to_set()));
                        assert(views(out@).to_set() =~= before.union(views(ts@).take(j as int + 1).to_set()));
                    }
                    j = j + 1;
                }
                proof {
                    assert(views(ts@).take(ts@.len() as int) =~= views(ts@));
                    assert(rs[i as int] == Some(s@));
                    assert(views(out@).to_set() =~= Set::new(|t: Seq<char>| exists|k: int| 0 <= k < i + 1 && #[trigger] rs[k] is Some
                        && tag_list(rs[k]->0).contains(t))) by {
                        assert forall|t: Seq<char>| views(out@).to_set().contains(t) <==> (exists|k: int| 0 <= k < i + 1 && #[trigger] rs[k] is Some
                            && tag_list(rs[k]->0).contains(t)) by {
                            if views(out@).to_set().contains(t) && !before.contains(t) {
                                assert(views(ts@).to_set().contains(t));
                                assert(tag_list(rs[i as int]->0).contains(t));
                            }
                            if exists|k: int| 0 <= k < i + 1 && #[trigger] rs[k] is Some && tag_list(rs[k]->0).contains(t) {
                                let k = choose|k: int| 0 <= k < i + 1 && #[trigger] rs[k] is Some && tag_list(rs[k]->0).contains(t);
                                if k == i {
                                    assert(views(ts@).contains(t));
                                    assert(views(ts@).to_set().contains(t));
                                }
                            }
                        }
                    }
                }
            },
            None => {
                proof {
                    assert(rs[i as int] is None);
                    assert(views(out@).to_set() =~= Set::new(|t: Seq<char>| exists|k: int| 0 <= k < i + 1 && #[trigger] rs[k] is Some
                        && tag_list(rs[k]->0).contains(t))) by {
                        assert forall|t: Seq<char>| views(out@).to_set().contains(t) <==> (exists|k: int| 0 <= k < i + 1 && #[trigger] rs[k] is Some
                            && tag_list(rs[k]->0).contains(t)) by {
                            if exists|k: int| 0 <= k < i + 1 && #[trigger] rs[k] is Some && tag_list(rs[k]->0).contains(t) {
                                let k = choose|k: int| 0 <= k < i + 1 && #[trigger] rs[k] is Some && tag_list(rs[k]->0).contains(t);
                                assert(k != i);
                            }
                        }
                    }
                }
            },
        }
        i = i + 1;
    }
    assert(tags_in_rows(rs) =~= views(out@).to_set());
    strings_of(&out)
}

} // verus!
