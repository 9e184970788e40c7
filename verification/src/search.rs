//! Full-text search: normalisation of user queries for the FTS5 engine and
//! the SQL text of the search screens.

use vstd::prelude::*;
use crate::text::{chars_of, string_of, trim, trim_chars, decimal, push_decimal, push_str, string_views};
use crate::sql::{join_with, join_strings, like_escape, like_escape_of, repeated_placeholders, placeholder_list};

verus! {

/// `char::eq_ignore_ascii_case` against an upper-case ASCII letter.
pub open spec fn is_letter_ic(c: char, upper: char) -> bool {
    c == upper || (c as u32) == (upper as u32) + 32
}

/// Whether the text built so far ends with a space.
pub open spec fn ends_with_space(r: Seq<char>) -> bool {
    r.len() > 0 && r.last() == ' '
}

/// The query normaliser as a left-to-right scan over `chars` from `pos`,
/// inside a quoted phrase or not, having written `r` so far:
/// double quotes toggle the phrase and are kept; a space outside a phrase is
/// kept only when the text does not already end with one; parentheses are
/// kept; after a space, `and`, `or` and `not` in any ASCII case become the
/// operators `AND `, `OR ` and `NOT ` (when enough characters follow);
/// everything else is copied.
pub open spec fn normalize_from(chars: Seq<char>, pos: int, in_phrase: bool, r: Seq<char>) -> Seq<char>
    decreases chars.len() - pos,
{
    if pos < 0 || pos >= chars.len() {
        r
    } else {
        let c = chars[pos];
        if c == '"' {
            normalize_from(chars, pos + 1, !in_phrase, r.push('"'))
        } else if c == ' ' && !in_phrase {
            normalize_from(chars, pos + 1, in_phrase, if ends_with_space(r) { r } else { r.push(' ') })
        } else if c == '(' || c == ')' {
            normalize_from(chars, pos + 1, in_phrase, r.push(c))
        } else if is_letter_ic(c, 'A') && ends_with_space(r) && pos + 2 < chars.len() {
            if is_letter_ic(chars[pos + 1], 'N') && is_letter_ic(chars[pos + 2], 'D') {
                normalize_from(chars, pos + 3, in_phrase, r + seq!['A', 'N', 'D', ' '])
            } else {
                normalize_from(chars, pos + 1, in_phrase, r.push(c))
            }
        } else if is_letter_ic(c, 'O') && ends_with_space(r) && pos + 1 < chars.len() {
            if is_letter_ic(chars[pos + 1], 'R') {
                normalize_from(chars, pos + 2, in_phrase, r + seq!['O', 'R', ' '])
            } else {
                normalize_from(chars, pos + 1, in_phrase, r.push(c))
            }
        } else if is_letter_ic(c, 'N') && ends_with_space(r) && pos + 2 < chars.len() {
            if is_letter_ic(chars[pos + 1], 'O') && is_letter_ic(chars[pos + 2], 'T') {
                normalize_from(chars, pos + 3, in_phrase, r + seq!['N', 'O', 'T', ' '])
            } else {
                normalize_from(chars, pos + 1, in_phrase, r.push(c))
            }
        } else {
            normalize_from(chars, pos + 1, in_phrase, r.push(c))
        }
    }
}

/// The FTS5 query that a user query becomes: the scan above, then trimmed.
pub open spec fn normalized_query(input: Seq<char>) -> Seq<char> {
    trim(normalize_from(input, 0, false, Seq::empty()))
}

fn letter_ic(c: char, upper: char) -> (b: bool)
    requires
        'A' <= upper <= 'Z',
    ensures
        b == is_letter_ic(c, upper),
{
    let u = c as u32;
    let up = upper as u32;
    u == up || u == up + 32
}

fn ends_space(r: &Vec<char>) -> (b: bool)
    ensures
        b == ends_with_space(r@),
{
    r.len() > 0 && r[r.len() - 1] == ' '
}

/// Normalises a user query for the full-text index: collapses spaces outside
/// quoted phrases, keeps quotes and parentheses, upper-cases the boolean
/// operators `and`, `or` and `not` that follow a space, and trims the result.
pub fn parse_search_query(input: &str) -> (out: String)
    ensures
        out@ == normalized_query(input@),
{
    let chars = chars_of(input);
    let n = chars.len();
    let mut result: Vec<char> = Vec::new();
    let mut in_phrase = false;
    let mut pos: usize = 0;
    while pos < n
        invariant
            chars@ == input@,
            n == chars@.len(),
            pos <= n,
            normalize_from(chars@, 0, false, Seq::empty()) == normalize_from(chars@, pos as int, in_phrase, result@),
        decreases n - pos,
    {
        let c = chars[pos];
        let ghost p0 = pos as int;
        let ghost ph0 = in_phrase;
        let ghost r0 = result@;
        if c == '"' {
            result.push('"');
            in_phrase = !in_phrase;
            pos = pos + 1;
        } else if c == ' ' && !in_phrase {
            if !ends_space(&result) {
                result.push(' ');
            }
            pos = pos + 1;
        } else if c == '(' || c == ')' {
            result.push(c);
            pos = pos + 1;
        } else if letter_ic(c, 'A') && ends_space(&result) && n - pos > 2 {
            if letter_ic(chars[pos + 1], 'N') && letter_ic(chars[pos + 2], 'D') {
                result.push('A');
                result.push('N');
                result.push('D');
                result.push(' ');
                pos = pos + 3;
                assert(result@ =~= r0 + seq!['A', 'N', 'D', ' ']);
            } else {
                result.push(c);
                pos = pos + 1;
            }
        } else if letter_ic(c, 'O') && ends_space(&result) && n - pos > 1 {
            if letter_ic(chars[pos + 1], 'R') {
                result.push('O');
                result.push('R');
                result.push(' ');
                pos = pos + 2;
                assert(result@ =~= r0 + seq!['O', 'R', ' ']);
            } else {
                result.push(c);
                pos = pos + 1;
            }
        } else if letter_ic(c, 'N') && ends_space(&result) && n - pos > 2 {
            if letter_ic(chars[pos + 1], 'O') && letter_ic(chars[pos + 2], 'T') {
                result.push('N');
                result.push('O');
                result.push('T');
                result.push(' ');
                pos = pos + 3;
                assert(result@ =~= r0 + seq!['N', 'O', 'T', ' ']);
            } else {
                result.push(c);
                pos = pos + 1;
            }
        } else {
            result.push(c);
            pos = pos + 1;
        }
        assert(normalize_from(chars@, p0, ph0, r0) == normalize_from(chars@, pos as int, in_phrase, result@));
    }
    let trimmed = trim_chars(result.as_slice());
    string_of(trimmed.as_slice())
}


/// The start of the fact search: full-text match on `?1`.
pub const FACT_SEARCH_SELECT: &'static str = "SELECT i.id, i.fingerprint, i.filename, i.fact_summary, i.category, i.severity_score, i.confidence, i.created_at,
                    bm25(facts_fts) as rank
             FROM facts_fts f
             JOIN intelligence i ON f.rowid = i.id
             WHERE facts_fts MATCH ?1";

/// The start of the entity search: full-text match on `?1`.
pub const ENTITY_SEARCH_SELECT: &'static str = "SELECT e.id, e.fingerprint, e.entity_type, e.value, e.normalized_value, e.confidence,
                    i.filename, bm25(entities_fts) as rank
             FROM entities_fts f
             JOIN entities e ON f.rowid = e.id
             JOIN intelligence i ON e.fingerprint = i.fingerprint
             WHERE entities_fts MATCH ?1";

/// `prefix ?n`.
pub open spec fn numbered(prefix: Seq<char>, n: nat) -> Seq<char> {
    prefix + seq!['?'] + decimal(n)
}

/// The filter conditions of a fact search, numbered from `?2` on:
/// categories (when any are given, every entry of the list written `?2`),
/// minimum severity, earliest and latest date, each present only when its
/// filter is. The number after the categories is `2` plus their count.
pub open spec fn fact_conditions(categories: nat, severity: bool, start: bool, end: bool) -> Seq<Seq<char>> {
    let c0 = if categories > 0 {
        seq!["category IN ("@ + join_with(repeated_placeholders(2, categories), ","@) + ")"@]
    } else {
        Seq::<Seq<char>>::empty()
    };
    let i1 = 2 + categories;
    let c1 = if severity { seq![numbered("severity_score >= "@, i1)] } else { Seq::<Seq<char>>::empty() };
    let i2 = if severity { i1 + 1 } else { i1 };
    let c2 = if start { seq![numbered("associated_date >= "@, i2)] } else { Seq::<Seq<char>>::empty() };
    let i3 = if start { i2 + 1 } else { i2 };
    let c3 = if end { seq![numbered("associated_date <= "@, i3)] } else { Seq::<Seq<char>>::empty() };
    c0 + c1 + c2 + c3
}

/// Every filter of a fact search that is present gets a number of its own:
/// after the category list (one condition, all of it `?2`), minimum
/// severity, earliest date and latest date are numbered consecutively from
/// `2` plus the category count, in that order, skipping the absent ones.
pub proof fn law_fact_filters_numbered_in_turn(c: nat, sev: bool, st: bool, en: bool)
    ensures
        ({
            let conds = fact_conditions(c, sev, st, en);
            let off: nat = if c > 0 { 1 } else { 0 };
            let a: nat = if sev { 1 } else { 0 };
            let b: nat = if st { 1 } else { 0 };
            let d: nat = if en { 1 } else { 0 };
            &&& conds.len() == off + a + b + d
            &&& c > 0 ==> conds[0] == "category IN ("@ + join_with(Seq::new(c, |k: int| seq!['?', '2']), ","@) + ")"@
            &&& sev ==> conds[off as int] == "severity_score >= ?"@ + decimal(2 + c)
            &&& st ==> conds[(off + a) as int] == "associated_date >= ?"@ + decimal(2 + c + a)
            &&& en ==> conds[(off + a + b) as int] == "associated_date <= ?"@ + decimal(2 + c + a + b)
        }),
{
    reveal_strlit("severity_score >= ?");
    reveal_strlit("severity_score >= ");
    reveal_strlit("associated_date >= ?");
    reveal_strlit("associated_date >= ");
    reveal_strlit("associated_date <= ?");
    reveal_strlit("associated_date <= ");
    assert("severity_score >= "@ + seq!['?'] =~= "severity_score >= ?"@);
    assert(decimal(2) == seq!['2']);
    assert(seq!['?'] + decimal(2) =~= seq!['?', '2']);
    assert(repeated_placeholders(2, c) =~= Seq::new(c, |k: int| seq!['?', '2']));
    assert("associated_date >= "@ + seq!['?'] =~= "associated_date >= ?"@);
    assert("associated_date <= "@ + seq!['?'] =~= "associated_date <= ?"@);
}

/// An entity search numbers its minimum confidence right after the type
/// list: `2` plus the count of types.
pub proof fn law_entity_confidence_numbered_after_types(types: nat, confidence: bool)
    ensures
        ({
            let conds = entity_conditions(types, confidence);
            let off: nat = if types > 0 { 1 } else { 0 };
            &&& conds.len() == off + (if confidence { 1nat } else { 0nat })
            &&& confidence ==> conds[off as int] == "e.confidence >= ?"@ + decimal(2 + types)
        }),
{
    reveal_strlit("e.confidence >= ?");
    reveal_strlit("e.confidence >= ");
    assert("e.confidence >= "@ + seq!['?'] =~= "e.confidence >= ?"@);
}

/// A search statement: the select, the conditions joined with ` AND `
/// after one more ` AND ` where there are any, then the ordering and an
/// unnumbered limit placeholder.
pub open spec fn search_sql_of(select: Seq<char>, conditions: Seq<Seq<char>>) -> Seq<char> {
    select + (if conditions.len() > 0 {
        " AND "@ + join_with(conditions, " AND "@)
    } else {
        Seq::<char>::empty()
    }) + " ORDER BY rank LIMIT ?"@
}

fn push_numbered(out: &mut Vec<char>, prefix: &str, n: u64)
    ensures
        final(out)@ == old(out)@ + numbered(prefix@, n as nat),
{
    push_str(out, prefix);
    out.push('?');
    push_decimal(out, n);
    assert(final(out)@ =~= old(out)@ + numbered(prefix@, n as nat));
}

fn chars_string(cs: Vec<char>) -> (s: String)
    ensures
        s@ == cs@,
{
    string_of(cs.as_slice())
}

/// Builds the statement of a filtered fact search, given how many
/// categories are filtered on and which other filters are set.
pub fn fact_search_sql(categories: usize, min_severity: bool, start_date: bool, end_date: bool) -> (r: String)
    requires
        categories + 5 <= i32::MAX,
    ensures
        r@ == search_sql_of(FACT_SEARCH_SELECT@, fact_conditions(categories as nat, min_severity, start_date, end_date)),
{
    let mut conds: Vec<String> = Vec::new();
    let ghost c0 = if categories > 0 {
        seq!["category IN ("@ + join_with(repeated_placeholders(2, categories as nat), ","@) + ")"@]
    } else {
        Seq::<Seq<char>>::empty()
    };
    if categories > 0 {
        let mut c: Vec<char> = Vec::new();
        push_str(&mut c, "category IN (");
        let list = placeholder_list(2, categories as u64);
        push_str(&mut c, list.as_str());
        push_str(&mut c, ")");
        conds.push(chars_string(c));
    }
    assert(string_views(conds@) =~= c0);
    let mut idx: u64 = 2 + categories as u64;
    if min_severity {
        let mut c: Vec<char> = Vec::new();
        push_numbered(&mut c, "severity_score >= ", idx);
        conds.push(chars_string(c));
        idx = idx + 1;
    }
    if start_date {
        let mut c: Vec<char> = Vec::new();
        push_numbered(&mut c, "associated_date >= ", idx);
        conds.push(chars_string(c));
        idx = idx + 1;
    }
    if end_date {
        let mut c: Vec<char> = Vec::new();
        push_numbered(&mut c, "associated_date <= ", idx);
        conds.push(chars_string(c));
    }
    assert(string_views(conds@) =~= fact_conditions(categories as nat, min_severity, start_date, end_date));
    search_sql(FACT_SEARCH_SELECT, &conds)
}

/// The filter conditions of an entity search, numbered from `?2` on:
/// entity types (when any are given, every entry of the list written `?2`),
/// then minimum confidence, numbered `2` plus the count of types.
pub open spec fn entity_conditions(types: nat, confidence: bool) -> Seq<Seq<char>> {
    let c0 = if types > 0 {
        seq!["e.entity_type IN ("@ + join_with(repeated_placeholders(2, types), ","@) + ")"@]
    } else {
        Seq::<Seq<char>>::empty()
    };
    let c1 = if confidence { seq![numbered("e.confidence >= "@, 2 + types)] } else { Seq::<Seq<char>>::empty() };
    c0 + c1
}

/// Builds the statement of a filtered entity search, given how many entity
/// types are filtered on and whether a minimum confidence is set.
pub fn entity_search_sql(types: usize, min_confidence: bool) -> (r: String)
    requires
        types + 3 <= i32::MAX,
    ensures
        r@ == search_sql_of(ENTITY_SEARCH_SELECT@, entity_conditions(types as nat, min_confidence)),
{
    let mut conds: Vec<String> = Vec::new();
    if types > 0 {
        let mut c: Vec<char> = Vec::new();
        push_str(&mut c, "e.entity_type IN (");
        let list = placeholder_list(2, types as u64);
        push_str(&mut c, list.as_str());
        push_str(&mut c, ")");
        conds.push(chars_string(c));
    }
    if min_confidence {
        let mut c: Vec<char> = Vec::new();
        push_numbered(&mut c, "e.confidence >= ", 2 + types as u64);
        conds.push(chars_string(c));
    }
    assert(string_views(conds@) =~= entity_conditions(types as nat, min_confidence));
    search_sql(ENTITY_SEARCH_SELECT, &conds)
}

fn search_sql(select: &str, conds: &Vec<String>) -> (r: String)
    ensures
        r@ == search_sql_of(select@, string_views(conds@)),
{
    let mut out: Vec<char> = Vec::new();
    push_str(&mut out, select);
    if conds.len() > 0 {
        push_str(&mut out, " AND ");
        let joined = join_strings(conds.as_slice(), " AND ");
        push_str(&mut out, joined.as_str());
    }
    push_str(&mut out, " ORDER BY rank LIMIT ?");
    assert(out@ =~= search_sql_of(select@, string_views(conds@)));
    string_of(out.as_slice())
}

/// The `LIKE` test of one tag.
pub open spec fn tag_condition(tag: Seq<char>) -> Seq<char> {
    "tags LIKE '%"@ + like_escape_of(tag) + "%' ESCAPE '\\'"@
}

/// The statement of a tag search: every tag (`match_all`) or any tag must
/// occur in the tag column of a live fact.
pub open spec fn tag_search_sql_of(tags: Seq<Seq<char>>, match_all: bool) -> Seq<char> {
    let conds = Seq::new(tags.len(), |k: int| tag_condition(tags[k]));
    TAG_SEARCH_HEAD@ + join_with(conds, if match_all { " AND "@ } else { " OR "@ }) + ") LIMIT ?"@
}

/// The start of the tag search statement.
pub const TAG_SEARCH_HEAD: &'static str = "SELECT id, fingerprint, filename, fact_summary, category, severity_score, confidence, created_at,
                    0.0 as rank
             FROM intelligence
             WHERE is_deleted = FALSE AND (";

/// Builds the statement of a tag search; no tags means no search.
pub fn tag_search_sql(tags: &[String], match_all: bool) -> (r: Option<String>)
    ensures
        tags@.len() == 0 ==> r is None,
        tags@.len() > 0 ==> (r matches Some(s) && s@ == tag_search_sql_of(string_views(tags@), match_all)),
{
    if tags.len() == 0 {
        return None;
    }
    let ghost ts = string_views(tags@);
    let mut conds: Vec<String> = Vec::new();
    let mut i: usize = 0;
    while i < tags.len()
        invariant
            ts == string_views(tags@),
            i <= tags@.len(),
            conds@.len() == i,
            forall|k: int| 0 <= k < i ==> (#[trigger] conds@[k])@ == tag_condition(ts[k]),
        decreases tags.len() - i,
    {
        let mut c: Vec<char> = Vec::new();
        push_str(&mut c, "tags LIKE '%");
        let e = like_escape(tags[i].as_str());
        push_str(&mut c, e.as_str());
        push_str(&mut c, "%' ESCAPE '\\'");
        assert(ts[i as int] == tags@[i as int]@);
        assert(c@ =~= tag_condition(ts[i as int]));
        conds.push(chars_string(c));
        i = i + 1;
    }
    assert(string_views(conds@) =~= Seq::new(tags@.len(), |k: int| tag_condition(ts[k])));
    let sep = if match_all { " AND " } else { " OR " };
    let joined = join_strings(conds.as_slice(), sep);
    let mut out: Vec<char> = Vec::new();
    push_str(&mut out, TAG_SEARCH_HEAD);
    push_str(&mut out, joined.as_str());
    push_str(&mut out, ") LIMIT ?");
    assert(out@ =~= tag_search_sql_of(ts, match_all));
    Some(string_of(out.as_slice()))
}


/// The start of the timeline query: live facts that carry a date.
pub const TIMELINE_SELECT: &'static str = "SELECT id, fingerprint, filename, fact_summary, category, associated_date, severity_score, confidence
             FROM intelligence
             WHERE is_deleted = FALSE AND associated_date IS NOT NULL";

/// The timeline query: optional earliest and latest date, oldest first,
/// then a limit; every parameter an unnumbered placeholder.
pub open spec fn timeline_sql_of(start: bool, end: bool) -> Seq<char> {
    TIMELINE_SELECT@ + (if start { " AND associated_date >= ?"@ } else { Seq::<char>::empty() }) + (if end {
        " AND associated_date <= ?"@
    } else {
        Seq::<char>::empty()
    }) + " ORDER BY associated_date ASC LIMIT ?"@
}

/// Builds the timeline query for the filters that are set.
pub fn timeline_sql(start_date: bool, end_date: bool) -> (r: String)
    ensures
        r@ == timeline_sql_of(start_date, end_date),
{
    let mut out: Vec<char> = Vec::new();
    push_str(&mut out, TIMELINE_SELECT);
    if start_date {
        push_str(&mut out, " AND associated_date >= ?");
    }
    if end_date {
        push_str(&mut out, " AND associated_date <= ?");
    }
    push_str(&mut out, " ORDER BY associated_date ASC LIMIT ?");
    assert(out@ =~= timeline_sql_of(start_date, end_date));
    string_of(out.as_slice())
}

/// The timeline query starts with the select and ends with the ordering and
/// limit; a start date puts `associated_date >= ?` right after the select,
/// and an end date puts `associated_date <= ?` right before the ordering,
/// each whether or not the other date is given.
pub proof fn law_timeline_date_bounds(start: bool, end: bool)
    ensures
        ({
            let q = timeline_sql_of(start, end);
            let sel = TIMELINE_SELECT@;
            let tail = " ORDER BY associated_date ASC LIMIT ?"@;
            let lower = " AND associated_date >= ?"@;
            let upper = " AND associated_date <= ?"@;
            &&& q.len() == sel.len() + (if start { lower.len() } else { 0 }) + (if end { upper.len() } else { 0 }) + tail.len()
            &&& q.take(sel.len() as int) == sel
            &&& q.skip(q.len() - tail.len()) == tail
            &&& start ==> q.subrange(sel.len() as int, (sel.len() + lower.len()) as int) == lower
            &&& end ==> q.subrange(q.len() - tail.len() - upper.len(), q.len() - tail.len()) == upper
        }),
{
    let q = timeline_sql_of(start, end);
    let sel = TIMELINE_SELECT@;
    let tail = " ORDER BY associated_date ASC LIMIT ?"@;
    let lower = " AND associated_date >= ?"@;
    let upper = " AND associated_date <= ?"@;
    let a = if start { lower } else { Seq::<char>::empty() };
    let b = if end { upper } else { Seq::<char>::empty() };
    assert(q == sel + a + b + tail);
    assert(q.take(sel.len() as int) =~= sel);
    assert(q.skip(q.len() - tail.len()) =~= tail);
    if start {
        assert(q.subrange(sel.len() as int, (sel.len() + lower.len()) as int) =~= lower);
    }
    if end {
        assert(q.subrange(q.len() - tail.len() - upper.len(), q.len() - tail.len()) =~= upper);
    }
}

} // verus!

