//! The layout of the printable report: which lines it holds, in which type
//! and where on an A4 page.

use vstd::prelude::*;
use crate::text::{decimal, push_decimal, push_signed_decimal, push_str, signed_decimal, string_of};
use crate::chains::{utf8_len, utf8_width};

verus! {

/// A line of text on the report page: font size in points, position in
/// millimetres from the bottom-left corner.
pub struct ReportLine {
    pub text: String,
    pub size: u32,
    pub x: i64,
    pub y: i64,
    pub bold: bool,
}

/// The spec side of a report line.
pub struct LineView {
    pub text: Seq<char>,
    pub size: u32,
    pub x: i64,
    pub y: i64,
    pub bold: bool,
}

impl ReportLine {
    pub open spec fn view(self) -> LineView {
        LineView { text: self.text@, size: self.size, x: self.x, y: self.y, bold: self.bold }
    }
}

/// The report's summary counts.
pub struct ReportStatistics {
    pub total_facts: i64,
    pub total_entities: i64,
    pub unique_entities: i64,
    pub total_chains: i64,
}

/// A category and how many facts it holds.
pub struct CategoryCount {
    pub category: String,
    pub count: i64,
}

/// What the report shows of a fact.
pub struct ReportFact {
    pub category: Option<String>,
    pub summary: String,
}

/// The first characters of `s` that take exactly `bytes` bytes in UTF-8,
/// where such a prefix exists.
pub open spec fn has_byte_prefix(s: Seq<char>, bytes: nat) -> bool {
    exists|k: int| 0 <= k <= s.len() && utf8_len(#[trigger] s.take(k)) == bytes
}

/// A summary as the report shows it: cut after 60 bytes with `...` added
/// when longer.
pub open spec fn shown_summary(s: Seq<char>) -> Seq<char> {
    if utf8_len(s) > 60 {
        (choose|p: Seq<char>| s.len() >= p.len() && s.take(p.len() as int) == p && utf8_len(p) == 60) + "..."@
    } else {
        s
    }
}

/// How many facts the report lists after `categories` category lines: at
/// most fifteen, and none below 30 mm from the bottom.
pub open spec fn facts_start(categories: nat) -> int {
    188 - 7 * (if categories > 10 { 10 } else { categories }) - 25
}

/// The line of the `i`-th listed fact (counting from zero).
pub open spec fn fact_line(f: ReportFact, i: nat, y: int) -> LineView {
    LineView {
        text: decimal(i + 1) + ". ["@ + match f.category {
            Some(c) => c@,
            None => "N/A"@,
        } + "] "@ + shown_summary(f.summary@),
        size: 9,
        x: 25,
        y: y as i64,
        bold: false,
    }
}

/// The line of the `i`-th category.
pub open spec fn category_line(c: CategoryCount, i: nat) -> LineView {
    LineView {
        text: c.category@ + ": "@ + signed_decimal(c.count as int) + " items"@,
        size: 11,
        x: 25,
        y: (188 - 7 * i) as i64,
        bold: false,
    }
}

/// The number of facts listed.
pub open spec fn facts_listed(nfacts: nat, categories: nat) -> nat {
    let fit = if facts_start(categories) >= 30 { ((facts_start(categories) - 30) / 6 + 1) as nat } else { 0nat };
    let m = if nfacts < 15 { nfacts } else { 15 };
    if m < fit { m } else { fit }
}

fn line(text: String, size: u32, x: i64, y: i64, bold: bool) -> (r: ReportLine)
    ensures
        r.view() == (LineView { text: text@, size, x, y, bold }),
{
    ReportLine { text, size, x, y, bold }
}

fn count_line(prefix: &str, n: i64, y: i64) -> (r: ReportLine)
    ensures
        r.view() == (LineView { text: prefix@ + signed_decimal(n as int), size: 12, x: 25, y, bold: false }),
{
    let mut out: Vec<char> = Vec::new();
    push_str(&mut out, prefix);
    push_signed_decimal(&mut out, n);
    line(string_of(out.as_slice()), 12, 25, y, false)
}

proof fn lemma_utf8_take_step(s: Seq<char>, j: int)
    requires
        0 <= j < s.len(),
    ensures
        utf8_len(s.take(j + 1)) == utf8_len(s.take(j)) + utf8_width(s[j]),
        utf8_width(s[j]) >= 1,
{
    assert(s.take(j + 1).drop_last() =~= s.take(j));
}

proof fn lemma_utf8_take_increasing(s: Seq<char>, a: int, b: int)
    requires
        0 <= a < b <= s.len(),
    ensures
        utf8_len(s.take(a)) < utf8_len(s.take(b)),
    decreases b - a,
{
    lemma_utf8_take_step(s, b - 1);
    if a < b - 1 {
        lemma_utf8_take_increasing(s, a, b - 1);
    }
}

/// Cuts a summary for the report.
fn shorten(s: &String) -> (r: String)
    requires
        utf8_len(s@) > 60 ==> has_byte_prefix(s@, 60),
    ensures
        r@ == shown_summary(s@),
{
    let cs = crate::text::chars_of(s.as_str());
    let mut bytes: usize = 0;
    let mut k: usize = 0;
    while k < cs.len() && bytes < 60
        invariant
            cs@ == s@,
            k <= cs@.len(),
            bytes as nat == utf8_len(cs@.take(k as int)),
            bytes <= 63,
            k > 0 ==> utf8_len(cs@.take(k - 1)) < 60,
        decreases cs.len() - k,
    {
        let u = cs[k] as u32;
        let w: usize = if u < 0x80 { 1 } else if u < 0x800 { 2 } else if u < 0x10000 { 3 } else { 4 };
        proof {
            lemma_utf8_take_step(cs@, k as int);
        }
        bytes = bytes + w;
        k = k + 1;
    }
    assert(cs@.take(cs@.len() as int) =~= cs@);
    if k == cs.len() && bytes <= 60 {
        assert(utf8_len(s@) <= 60);
        return s.clone();
    }
    // Here the text is longer than 60 bytes.
    proof {
        if k < cs@.len() {
            lemma_utf8_take_increasing(cs@, k as int, cs@.len() as int);
        }
        assert(utf8_len(s@) > 60);
    }
    if bytes > 60 {
        proof {
            let j = choose|j: int| 0 <= j <= s@.len() && utf8_len(#[trigger] s@.take(j)) == 60;
            if j < k {
                if j < k - 1 {
                    lemma_utf8_take_increasing(cs@, j, k - 1);
                }
            } else if j > k {
                lemma_utf8_take_increasing(cs@, k as int, j);
            }
            assert(false);
        }
        return s.clone();
    }
    let mut out: Vec<char> = Vec::new();
    let mut i: usize = 0;
    while i < k
        invariant
            cs@ == s@,
            k <= cs@.len(),
            i <= k,
            out@ == cs@.take(i as int),
        decreases k - i,
    {
        out.push(cs[i]);
        i = i + 1;
        assert(out@ =~= cs@.take(i as int));
    }
    let ghost p = cs@.take(k as int);
    proof {
        assert(s@.len() >= p.len() && s@.take(p.len() as int) == p && utf8_len(p) == 60);
        let q = choose|q: Seq<char>| s@.len() >= q.len() && s@.take(q.len() as int) == q && utf8_len(q) == 60;
        if q.len() < k {
            lemma_utf8_take_increasing(cs@, q.len() as int, k as int);
        } else if q.len() > k {
            lemma_utf8_take_increasing(cs@, k as int, q.len() as int);
        }
        assert(q == p);
    }
    push_str(&mut out, "...");
    string_of(out.as_slice())
}


pub open spec fn lv(text: Seq<char>, size: u32, x: i64, y: int, bold: bool) -> LineView {
    LineView { text, size, x, y: y as i64, bold }
}

/// The lines of the report, top to bottom: title, time of generation,
/// summary counts, up to ten categories, then the listed facts.
pub open spec fn report_layout(
    generated: Seq<char>,
    st: ReportStatistics,
    cats: Seq<CategoryCount>,
    facts: Seq<ReportFact>,
) -> Seq<LineView> {
    let nc = if cats.len() > 10 { 10 } else { cats.len() };
    let y = 188 - 7 * nc;
    let head = seq![
        lv("SL Studio - Forensic Document Analysis Report"@, 24, 20, 277, true),
        lv("Generated: "@ + generated, 10, 20, 268, false),
        lv("Summary Statistics"@, 16, 20, 250, true),
        lv("Total Facts: "@ + signed_decimal(st.total_facts as int), 12, 25, 240, false),
        lv("Total Entities: "@ + signed_decimal(st.total_entities as int), 12, 25, 232, false),
        lv("Unique Entities: "@ + signed_decimal(st.unique_entities as int), 12, 25, 224, false),
        lv("Total Chains: "@ + signed_decimal(st.total_chains as int), 12, 25, 216, false),
        lv("Category Distribution"@, 16, 20, 198, true),
    ];
    let cat_lines = Seq::new(nc as nat, |i: int| category_line(cats[i], i as nat));
    let nf = facts_listed(facts.len(), cats.len());
    let fact_lines = Seq::new(nf, |i: int| fact_line(facts[i], i as nat, y - 25 - 6 * i));
    head + cat_lines + seq![lv("Top Facts"@, 16, 20, y - 15, true)] + fact_lines
}

pub open spec fn line_views(ls: Seq<ReportLine>) -> Seq<LineView> {
    Seq::new(ls.len(), |i: int| ls[i].view())
}

fn push_line(ls: &mut Vec<ReportLine>, l: ReportLine)
    ensures
        line_views(final(ls)@) == line_views(old(ls)@).push(l.view()),
{
    ls.push(l);
    assert(line_views(final(ls)@) =~= line_views(old(ls)@).push(l.view()));
}

fn text_line(text: &str, size: u32, x: i64, y: i64, bold: bool) -> (r: ReportLine)
    ensures
        r.view() == lv(text@, size, x, y as int, bold),
{
    let mut out: Vec<char> = Vec::new();
    push_str(&mut out, text);
    line(string_of(out.as_slice()), size, x, y, bold)
}

/// Lays out the report: the given time of generation, summary counts,
/// categories (most frequent first) and facts (heaviest first).
pub fn report_lines(
    generated: &str,
    st: &ReportStatistics,
    cats: &[CategoryCount],
    facts: &[ReportFact],
) -> (r: Vec<ReportLine>)
    requires
        forall|i: int| 0 <= i < facts_listed(facts@.len(), cats@.len()) ==> (utf8_len(#[trigger] facts@[i].summary@) > 60
            ==> has_byte_prefix(facts@[i].summary@, 60)),
    ensures
        line_views(r@) == report_layout(generated@, *st, cats@, facts@),
{
    let mut ls: Vec<ReportLine> = Vec::new();
    assert(line_views(ls@) =~= Seq::<LineView>::empty());
    push_line(&mut ls, text_line("SL Studio - Forensic Document Analysis Report", 24, 20, 277, true));
    let mut g: Vec<char> = Vec::new();
    push_str(&mut g, "Generated: ");
    push_str(&mut g, generated);
    push_line(&mut ls, line(string_of(g.as_slice()), 10, 20, 268, false));
    push_line(&mut ls, text_line("Summary Statistics", 16, 20, 250, true));
    push_line(&mut ls, count_line("Total Facts: ", st.total_facts, 240));
    push_line(&mut ls, count_line("Total Entities: ", st.total_entities, 232));
    push_line(&mut ls, count_line("Unique Entities: ", st.unique_entities, 224));
    push_line(&mut ls, count_line("Total Chains: ", st.total_chains, 216));
    push_line(&mut ls, text_line("Category Distribution", 16, 20, 198, true));
    let ghost nc: int = if cats@.len() > 10 { 10 } else { cats@.len() as int };
    let ghost spec_all = report_layout(generated@, *st, cats@, facts@);
    assert(line_views(ls@) =~= spec_all.take(8));
    let mut y: i64 = 188;
    let mut i: usize = 0;
    while i < cats.len() && i < 10
        invariant
            spec_all == report_layout(generated@, *st, cats@, facts@),
            nc == (if cats@.len() > 10 { 10 } else { cats@.len() as int }),
            i <= nc,
            y == 188 - 7 * i,
            line_views(ls@) == spec_all.take(8 + i),
        decreases 10 - i,
    {
        let mut t: Vec<char> = Vec::new();
        push_str(&mut t, cats[i].category.as_str());
        push_str(&mut t, ": ");
        push_signed_decimal(&mut t, cats[i].count);
        push_str(&mut t, " items");
        let l = line(string_of(t.as_slice()), 11, 25, y, false);
        assert(l.view() == category_line(cats@[i as int], i as nat));
        assert(spec_all[8 + i] == category_line(cats@[i as int], i as nat));
        push_line(&mut ls, l);
        assert(spec_all.take(8 + i + 1) =~= spec_all.take(8 + i).push(spec_all[8 + i]));
        y = y - 7;
        i = i + 1;
    }
    assert(i == nc);
    push_line(&mut ls, text_line("Top Facts", 16, 20, y - 15, true));
    assert(spec_all.take(8 + nc + 1) =~= spec_all.take(8 + nc).push(spec_all[8 + nc]));
    y = y - 25;
    let ghost start: int = y as int;
    let ghost nf = facts_listed(facts@.len(), cats@.len());
    let mut k: usize = 0;
    while k < facts.len() && k < 15 && y >= 30
        invariant
            spec_all == report_layout(generated@, *st, cats@, facts@),
            nc == (if cats@.len() > 10 { 10 } else { cats@.len() as int }),
            start == 188 - 7 * nc - 25,
            nf == facts_listed(facts@.len(), cats@.len()),
            forall|i: int| 0 <= i < nf ==> (utf8_len(#[trigger] facts@[i].summary@) > 60
                ==> has_byte_prefix(facts@[i].summary@, 60)),
            k <= nf,
            y == start - 6 * k,
            line_views(ls@) == spec_all.take(8 + nc + 1 + k),
        decreases 15 - k,
    {
        proof {
            assert(start - 6 * k >= 30);
            assert(k < (start - 30) / 6 + 1);
        }
        let f = &facts[k];
        let mut t: Vec<char> = Vec::new();
        push_decimal(&mut t, (k + 1) as u64);
        push_str(&mut t, ". [");
        match &f.category {
            Some(c) => push_str(&mut t, c.as_str()),
            None => push_str(&mut t, "N/A"),
        }
        push_str(&mut t, "] ");
        let short = shorten(&f.summary);
        push_str(&mut t, short.as_str());
        let l = line(string_of(t.as_slice()), 9, 25, y, false);
        assert(l.view() == fact_line(facts@[k as int], k as nat, start - 6 * k));
        assert(spec_all[8 + nc + 1 + k] == fact_line(facts@[k as int], k as nat, start - 6 * k));
        push_line(&mut ls, l);
        assert(spec_all.take(8 + nc + 1 + k + 1) =~= spec_all.take(8 + nc + 1 + k).push(spec_all[8 + nc + 1 + k]));
        y = y - 6;
        k = k + 1;
    }
    proof {
        if y < 30 {
            assert((start - 30) / 6 + 1 <= k);
        }
        assert(k == nf);
    }
    assert(spec_all.take(8 + nc + 1 + nf) =~= spec_all);
    ls
}


/// How many facts the report lists, given how many categories and facts
/// there are.
pub fn listed_fact_count(categories: usize, facts: usize) -> (n: usize)
    ensures
        n == facts_listed(facts as nat, categories as nat),
{
    let nc: usize = if categories > 10 { 10 } else { categories };
    let start: usize = 188 - 7 * nc - 25;
    let fit: usize = (start - 30) / 6 + 1;
    let m: usize = if facts < 15 { facts } else { 15 };
    if m < fit { m } else { fit }
}


/// Every line of the report lies on the page, between 30 mm and 277 mm from
/// its bottom edge.
pub proof fn law_report_stays_on_page(
    generated: Seq<char>,
    st: ReportStatistics,
    cats: Seq<CategoryCount>,
    facts: Seq<ReportFact>,
)
    ensures
        forall|i: int| 0 <= i < report_layout(generated, st, cats, facts).len() ==> 30 <= #[trigger] report_layout(
            generated,
            st,
            cats,
            facts,
        )[i].y <= 277,
{
    let l = report_layout(generated, st, cats, facts);
    let nc: int = if cats.len() > 10 { 10 } else { cats.len() as int };
    let y = 188 - 7 * nc;
    let nf = facts_listed(facts.len(), cats.len());
    let start = y - 25;
    assert(facts_start(cats.len()) == start);
    assert(start >= 93);
    assert(nf <= (start - 30) / 6 + 1);
    assert forall|i: int| 0 <= i < l.len() implies 30 <= #[trigger] l[i].y <= 277 by {
        if i < 8 {
        } else if i < 8 + nc {
            assert(l[i] == category_line(cats[i - 8], (i - 8) as nat));
        } else if i == 8 + nc {
        } else {
            let k = i - 9 - nc;
            assert(0 <= k < nf);
            assert(l[i] == fact_line(facts[k], k as nat, start - 6 * k));
            assert(k <= (start - 30) / 6);
            assert(6 * k <= start - 30) by (nonlinear_arith)
                requires
                    0 <= k <= (start - 30) / 6,
                    start >= 30,
            {
            }
        }
    }
}

} // verus!
