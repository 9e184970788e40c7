//! CSV field escaping used by the export screens.

use vstd::prelude::*;
use crate::text::{chars_of, string_of};

verus! {

/// A field must be quoted when it holds a comma, a double quote or a newline.
pub open spec fn needs_quoting(s: Seq<char>) -> bool {
    s.contains(',') || s.contains('"') || s.contains('\n')
}

/// Every double quote doubled, all other characters kept.
pub open spec fn double_quotes(s: Seq<char>) -> Seq<char>
    decreases s.len(),
{
    if s.len() == 0 {
        Seq::empty()
    } else {
        (if s[0] == '"' { seq!['"', '"'] } else { seq![s[0]] }) + double_quotes(s.drop_first())
    }
}

/// The CSV form of one field.
pub open spec fn csv_field(s: Seq<char>) -> Seq<char> {
    if needs_quoting(s) {
        seq!['"'] + double_quotes(s) + seq!['"']
    } else {
        s
    }
}

/// Reverses `double_quotes`: a pair of double quotes reads as one.
pub open spec fn undouble_quotes(s: Seq<char>) -> Seq<char>
    decreases s.len(),
{
    if s.len() == 0 {
        Seq::empty()
    } else if s.len() >= 2 && s[0] == '"' && s[1] == '"' {
        seq!['"'] + undouble_quotes(s.skip(2))
    } else {
        seq![s[0]] + undouble_quotes(s.drop_first())
    }
}

/// How a CSV reader reads one field: a quoted field loses its quotes and
/// its doubled quotes, any other field is taken as it stands.
pub open spec fn read_csv_field(f: Seq<char>) -> Seq<char> {
    if f.len() >= 2 && f[0] == '"' && f[f.len() - 1] == '"' {
        undouble_quotes(f.subrange(1, f.len() - 1))
    } else {
        f
    }
}

proof fn lemma_double_quotes_push(s: Seq<char>, c: char)
    ensures
        double_quotes(s.push(c)) == double_quotes(s) + (if c == '"' { seq!['"', '"'] } else { seq![c] }),
    decreases s.len(),
{
    if s.len() == 0 {
        assert(s.push(c).drop_first() =~= Seq::<char>::empty());
        assert(s.push(c)[0] == c);
        assert(double_quotes(Seq::<char>::empty()) == Seq::<char>::empty());
        assert(double_quotes(s) == Seq::<char>::empty());
        assert(double_quotes(s.push(c)) =~= (if c == '"' { seq!['"', '"'] } else { seq![c] }));
    } else {
        assert(s.push(c).drop_first() =~= s.drop_first().push(c));
        lemma_double_quotes_push(s.drop_first(), c);
        assert(double_quotes(s.push(c)) =~= double_quotes(s) + (if c == '"' { seq!['"', '"'] } else { seq![c] }));
    }
}

proof fn lemma_undouble_double(s: Seq<char>)
    ensures
        undouble_quotes(double_quotes(s)) == s,
    decreases s.len(),
{
    if s.len() == 0 {
    } else {
        let rest = double_quotes(s.drop_first());
        lemma_undouble_double(s.drop_first());
        if s[0] == '"' {
            let d = seq!['"', '"'] + rest;
            assert(double_quotes(s) == d);
            assert(d.skip(2) =~= rest);
            assert(undouble_quotes(d) =~= seq!['"'] + undouble_quotes(rest));
        } else {
            let d = seq![s[0]] + rest;
            assert(double_quotes(s) == d);
            assert(d.drop_first() =~= rest);
            assert(undouble_quotes(d) =~= seq![s[0]] + undouble_quotes(rest));
        }
        assert(s =~= seq![s[0]] + s.drop_first());
    }
}

/// A CSV reader gets back exactly the value that `csv_escape` wrote.
pub proof fn law_csv_field_round_trip(s: Seq<char>)
    ensures
        read_csv_field(csv_field(s)) == s,
{
    if needs_quoting(s) {
        let f = seq!['"'] + double_quotes(s) + seq!['"'];
        assert(f.subrange(1, f.len() - 1) =~= double_quotes(s));
        lemma_undouble_double(s);
    } else {
        if s.len() >= 2 && s[0] == '"' {
            assert(s.contains('"'));
        }
    }
}

/// Escapes a string for use as one CSV field: quoted, with inner quotes
/// doubled, when it holds a comma, a double quote or a newline.
pub fn csv_escape(s: &str) -> (r: String)
    ensures
        r@ == csv_field(s@),
{
    let cs = chars_of(s);
    let mut special = false;
    let mut i: usize = 0;
    while i < cs.len()
        invariant
            cs@ == s@,
            i <= cs.len(),
            special == (exists|j: int| 0 <= j < i && (cs@[j] == ',' || cs@[j] == '"' || cs@[j] == '\n')),
        decreases cs.len() - i,
    {
        let c = cs[i];
        if c == ',' || c == '"' || c == '\n' {
            special = true;
        }
        i = i + 1;
    }
    proof {
        if special {
            let j = choose|j: int| 0 <= j < cs@.len() && (cs@[j] == ',' || cs@[j] == '"' || cs@[j] == '\n');
            if cs@[j] == ',' { assert(s@.contains(',')); }
            if cs@[j] == '"' { assert(s@.contains('"')); }
            if cs@[j] == '\n' { assert(s@.contains('\n')); }
        }
        if needs_quoting(s@) {
            if s@.contains(',') { let j = choose|j: int| 0 <= j < s@.len() && s@[j] == ','; assert(cs@[j] == ','); }
            if s@.contains('"') { let j = choose|j: int| 0 <= j < s@.len() && s@[j] == '"'; assert(cs@[j] == '"'); }
            if s@.contains('\n') { let j = choose|j: int| 0 <= j < s@.len() && s@[j] == '\n'; assert(cs@[j] == '\n'); }
        }
    }
    if !special {
        return string_of(cs.as_slice());
    }
    let mut out: Vec<char> = Vec::new();
    out.push('"');
    let mut k: usize = 0;
    while k < cs.len()
        invariant
            cs@ == s@,
            k <= cs.len(),
            out@ == seq!['"'] + double_quotes(cs@.take(k as int)),
        decreases cs.len() - k,
    {
        let c = cs[k];
        proof {
            lemma_double_quotes_push(cs@.take(k as int), c);
            assert(cs@.take(k as int + 1) =~= cs@.take(k as int).push(c));
        }
        if c == '"' {
            out.push('"');
            out.push('"');
        } else {
            out.push(c);
        }
        k = k + 1;
        assert(out@ =~= seq!['"'] + double_quotes(cs@.take(k as int)));
    }
    out.push('"');
    assert(cs@.take(cs@.len() as int) =~= cs@);
    string_of(out.as_slice())
}

} // verus!
