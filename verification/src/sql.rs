//! Pieces of SQL text: quoted `LIKE` patterns, joined lists and lists of
//! placeholders.

use vstd::prelude::*;
use crate::text::{decimal, push_decimal, push_str, string_of, string_views};

verus! {

/// The escaped text of one character: `'` and `\` doubled.
pub open spec fn piece(c: char) -> Seq<char> {
    if c == '\'' {
        seq!['\'', '\'']
    } else if c == '\\' {
        seq!['\\', '\\']
    } else {
        seq![c]
    }
}

/// A tag or keyword made safe for a single-quoted `LIKE` pattern with
/// `ESCAPE '\'`: each `'` doubled, then each `\` doubled (the two
/// replacements never see each other's output).
pub open spec fn like_escape_of(t: Seq<char>) -> Seq<char>
    decreases t.len(),
{
    if t.len() == 0 {
        seq![]
    } else {
        piece(t[0]) + like_escape_of(t.drop_first())
    }
}

/// What the database reads back from an escaped text: a doubled `'` or `\`
/// stands for one.
pub open spec fn like_unescape_of(e: Seq<char>) -> Seq<char>
    decreases e.len(),
{
    if e.len() == 0 {
        seq![]
    } else if e.len() >= 2 && (e[0] == '\'' || e[0] == '\\') && e[1] == e[0] {
        seq![e[0]] + like_unescape_of(e.skip(2))
    } else {
        seq![e[0]] + like_unescape_of(e.skip(1))
    }
}

/// Escaping then reading back gives the text back.
pub proof fn law_like_escape_round_trip(t: Seq<char>)
    ensures
        like_unescape_of(like_escape_of(t)) == t,
    decreases t.len(),
{
    if t.len() > 0 {
        let rest = like_escape_of(t.drop_first());
        let e = like_escape_of(t);
        law_like_escape_round_trip(t.drop_first());
        assert(e == piece(t[0]) + rest);
        if t[0] == '\'' || t[0] == '\\' {
            assert(e.skip(2) =~= rest);
        } else {
            assert(e.skip(1) =~= rest);
        }
        assert(seq![t[0]] + t.drop_first() =~= t);
    }
}

proof fn lemma_like_escape_push(t: Seq<char>, c: char)
    ensures
        like_escape_of(t.push(c)) == like_escape_of(t) + piece(c),
    decreases t.len(),
{
    if t.len() == 0 {
        assert(t.push(c).drop_first() =~= Seq::<char>::empty());
        assert(like_escape_of(Seq::<char>::empty()) =~= Seq::<char>::empty());
        assert(t.push(c)[0] == c);
        assert(like_escape_of(t.push(c)) =~= piece(c));
    } else {
        assert(t.push(c).drop_first() =~= t.drop_first().push(c));
        lemma_like_escape_push(t.drop_first(), c);
        assert(like_escape_of(t.push(c)) =~= like_escape_of(t) + piece(c));
    }
}

/// Escapes text for a single-quoted `LIKE` pattern.
pub fn like_escape(t: &str) -> (r: String)
    ensures
        r@ == like_escape_of(t@),
{
    let cs = crate::text::chars_of(t);
    let mut out: Vec<char> = Vec::new();
    let mut i: usize = 0;
    while i < cs.len()
        invariant
            cs@ == t@,
            i <= cs@.len(),
            out@ == like_escape_of(cs@.take(i as int)),
        decreases cs.len() - i,
    {
        let c = cs[i];
        proof {
            lemma_like_escape_push(cs@.take(i as int), c);
            assert(cs@.take(i as int + 1) =~= cs@.take(i as int).push(c));
        }
        if c == '\'' {
            out.push('\'');
            out.push('\'');
        } else if c == '\\' {
            out.push('\\');
            out.push('\\');
        } else {
            out.push(c);
        }
        i = i + 1;
        assert(out@ =~= like_escape_of(cs@.take(i as int)));
    }
    assert(cs@.take(cs@.len() as int) =~= cs@);
    string_of(out.as_slice())
}

/// Parts joined with a separator, as `join` writes them.
pub open spec fn join_with(parts: Seq<Seq<char>>, sep: Seq<char>) -> Seq<char>
    decreases parts.len(),
{
    if parts.len() == 0 {
        seq![]
    } else if parts.len() == 1 {
        parts[0]
    } else {
        join_with(parts.drop_last(), sep) + sep + parts.last()
    }
}

/// Joins strings with a separator.
pub fn join_strings(parts: &[String], sep: &str) -> (r: String)
    ensures
        r@ == join_with(string_views(parts@), sep@),
{
    let ghost ps = string_views(parts@);
    let mut out: Vec<char> = Vec::new();
    let mut i: usize = 0;
    while i < parts.len()
        invariant
            ps == string_views(parts@),
            i <= parts@.len(),
            out@ == join_with(ps.take(i as int), sep@),
        decreases parts.len() - i,
    {
        proof {
            assert(ps.take(i as int + 1).drop_last() =~= ps.take(i as int));
        }
        if i > 0 {
            push_str(&mut out, sep);
        }
        push_str(&mut out, parts[i].as_str());
        i = i + 1;
        proof {
            if i == 1 {
                assert(ps.take(1)[0] == parts@[0]@);
            }
        }
        assert(out@ =~= join_with(ps.take(i as int), sep@));
    }
    assert(ps.take(parts@.len() as int) =~= ps);
    string_of(out.as_slice())
}

/// `n` copies of the placeholder `?index`.
pub open spec fn repeated_placeholders(index: nat, n: nat) -> Seq<Seq<char>> {
    Seq::new(n, |k: int| seq!['?'] + decimal(index))
}

/// Writes `n` copies of the placeholder `?index`, joined with commas: the
/// list of an `IN (..)` filter whose every entry carries the same parameter
/// number.
pub fn placeholder_list(index: u64, n: u64) -> (r: String)
    ensures
        r@ == join_with(repeated_placeholders(index as nat, n as nat), ","@),
{
    let ghost ps = repeated_placeholders(index as nat, n as nat);
    let mut out: Vec<char> = Vec::new();
    let mut k: u64 = 0;
    while k < n
        invariant
            ps == repeated_placeholders(index as nat, n as nat),
            k <= n,
            out@ == join_with(ps.take(k as int), ","@),
        decreases n - k,
    {
        proof {
            assert(ps.take(k as int + 1).drop_last() =~= ps.take(k as int));
        }
        if k > 0 {
            push_str(&mut out, ",");
        }
        out.push('?');
        push_decimal(&mut out, index);
        k = k + 1;
        proof {
            if k == 1 {
                assert(ps.take(1)[0] == seq!['?'] + decimal(index as nat));
            }
        }
        assert(out@ =~= join_with(ps.take(k as int), ","@));
    }
    assert(ps.take(n as int) =~= ps);
    string_of(out.as_slice())
}

} // verus!
