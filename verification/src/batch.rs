//! The decisions of the batch extraction and batch analysis runs: which
//! files come from the text cache, what each outcome is recorded as, when a
//! checkpoint is written and what progress is reported.

use vstd::prelude::*;
use crate::text::{decimal, push_decimal, push_str, string_of};

verus! {

/// What the registry and the text cache hold for one requested fingerprint.
pub struct TextLookup {
    pub registered: bool,
    pub cached_text: Option<String>,
}

/// Whether a lookup is served from the text cache: registered, with
/// non-empty cached text.
pub open spec fn served_from_cache(l: TextLookup) -> bool {
    l.registered && (l.cached_text matches Some(t) && t@.len() > 0)
}

/// The positions among the first `n` lookups that come from the cache
/// (`cached`) or must be extracted (`!cached`), in order. Unregistered
/// fingerprints are in neither.
pub open spec fn plan_positions(ls: Seq<TextLookup>, cached: bool, n: nat) -> Seq<int>
    decreases n,
{
    if n == 0 {
        seq![]
    } else {
        let rest = plan_positions(ls, cached, (n - 1) as nat);
        let l = ls[n - 1];
        if l.registered && served_from_cache(l) == cached {
            rest.push(n - 1)
        } else {
            rest
        }
    }
}

/// How a batch extraction splits its fingerprints.
pub struct ExtractionPlan {
    /// Positions served from the text cache, in request order.
    pub cached: Vec<usize>,
    /// The character count of each cached text.
    pub cached_chars: Vec<usize>,
    /// Positions whose files must be extracted, in request order.
    pub to_extract: Vec<usize>,
}

/// Splits a batch: cached texts are reused, other registered files are
/// extracted, unregistered fingerprints are dropped.
pub fn plan_extraction(lookups: &[TextLookup]) -> (r: ExtractionPlan)
    ensures
        r.cached@.len() == plan_positions(lookups@, true, lookups@.len()).len(),
        forall|k: int| 0 <= k < r.cached@.len() ==> r.cached@[k] as int == #[trigger] plan_positions(lookups@, true, lookups@.len())[k],
        r.to_extract@.len() == plan_positions(lookups@, false, lookups@.len()).len(),
        forall|k: int| 0 <= k < r.to_extract@.len() ==> r.to_extract@[k] as int == #[trigger] plan_positions(lookups@, false, lookups@.len())[k],
        r.cached_chars@.len() == r.cached@.len(),
        forall|k: int| 0 <= k < r.cached@.len() ==> (lookups@[#[trigger] r.cached@[k] as int].cached_text matches Some(t)
            && r.cached_chars@[k] == t@.len()),
{
    let mut cached: Vec<usize> = Vec::new();
    let mut chars: Vec<usize> = Vec::new();
    let mut extract: Vec<usize> = Vec::new();
    let mut i: usize = 0;
    while i < lookups.len()
        invariant
            i <= lookups@.len(),
            cached@.len() == plan_positions(lookups@, true, i as nat).len(),
            forall|k: int| 0 <= k < cached@.len() ==> cached@[k] as int == #[trigger] plan_positions(lookups@, true, i as nat)[k],
            extract@.len() == plan_positions(lookups@, false, i as nat).len(),
            forall|k: int| 0 <= k < extract@.len() ==> extract@[k] as int == #[trigger] plan_positions(lookups@, false, i as nat)[k],
            chars@.len() == cached@.len(),
            forall|k: int| 0 <= k < cached@.len() ==> cached@[k] < i,
            forall|k: int| 0 <= k < cached@.len() ==> (lookups@[#[trigger] cached@[k] as int].cached_text matches Some(t)
                && chars@[k] == t@.len()),
        decreases lookups.len() - i,
    {
        let l = &lookups[i];
        if l.registered {
            let mut served = false;
            match &l.cached_text {
                Some(t) => {
                    let n = crate::text::chars_of(t.as_str()).len();
                    if n > 0 {
                        cached.push(i);
                        chars.push(n);
                        served = true;
                    }
                },
                None => {},
            }
            if !served {
                extract.push(i);
            }
        }
        i = i + 1;
    }
    ExtractionPlan { cached, cached_chars: chars, to_extract: extract }
}

/// How one extraction attempt ended.
pub enum ExtractionOutcome {
    /// The file could not be read; `has_error` says whether an error text
    /// came with it.
    Failed { has_error: bool },
    /// The file was read; `has_text` says whether text came with it.
    Extracted { has_text: bool },
}

/// What is done with an extraction outcome.
pub enum PersistAction {
    /// The error goes to the error queue.
    RecordError,
    /// Nothing is stored.
    Nothing,
    /// The text is cached and the file marked as extracted; with
    /// `checkpoint`, the job checkpoint is advanced too.
    Store { checkpoint: bool },
}

/// Decides what to do with one freshly extracted result, given how many
/// results were stored before it; returns the action and the new count.
/// A checkpoint is written after every tenth stored result.
pub fn persist_action(saved: i64, outcome: &ExtractionOutcome) -> (r: (PersistAction, i64))
    requires
        0 <= saved < i64::MAX,
    ensures
        match *outcome {
            ExtractionOutcome::Failed { has_error } => r.1 == saved && if has_error {
                r.0 is RecordError
            } else {
                r.0 is Nothing
            },
            ExtractionOutcome::Extracted { has_text } => if has_text {
                r.1 == saved + 1 && r.0 == (PersistAction::Store { checkpoint: (saved + 1) % 10 == 0 })
            } else {
                r.1 == saved && r.0 is Nothing
            },
        },
{
    match outcome {
        ExtractionOutcome::Failed { has_error } => {
            if *has_error {
                (PersistAction::RecordError, saved)
            } else {
                (PersistAction::Nothing, saved)
            }
        },
        ExtractionOutcome::Extracted { has_text } => {
            if *has_text {
                let next = saved + 1;
                (PersistAction::Store { checkpoint: next % 10 == 0 }, next)
            } else {
                (PersistAction::Nothing, saved)
            }
        },
    }
}

/// Progress of a batch extraction, as it is reported to the user.
pub struct ExtractionProgress {
    pub total: usize,
    pub processed: usize,
    pub current_file: String,
    pub phase: String,
    pub success_count: usize,
    pub error_count: usize,
}

/// The number of `true` entries among the first `n`.
pub open spec fn count_true(bs: Seq<bool>, n: nat) -> nat
    decreases n,
{
    if n == 0 {
        0
    } else {
        count_true(bs, (n - 1) as nat) + if bs[n - 1] { 1nat } else { 0nat }
    }
}

proof fn lemma_count_true_bounded(bs: Seq<bool>, n: nat)
    ensures
        count_true(bs, n) <= n,
    decreases n,
{
    if n > 0 {
        lemma_count_true_bounded(bs, (n - 1) as nat);
    }
}

impl ExtractionProgress {
    /// The closing report of a batch: every result counted, as a success
    /// or as an error.
    pub fn finished(total: usize, successes: &[bool]) -> (r: ExtractionProgress)
        ensures
            r.total == total,
            r.processed == successes@.len(),
            r.success_count == count_true(successes@, successes@.len()),
            r.error_count == successes@.len() - count_true(successes@, successes@.len()),
            r.current_file@ == Seq::<char>::empty(),
            r.phase@ == "Complete"@,
    {
        let mut ok: usize = 0;
        let mut i: usize = 0;
        while i < successes.len()
            invariant
                i <= successes@.len(),
                ok == count_true(successes@, i as nat),
            decreases successes.len() - i,
        {
            proof {
                lemma_count_true_bounded(successes@, i as nat);
            }
            if successes[i] {
                ok = ok + 1;
            }
            i = i + 1;
        }
        proof {
            lemma_count_true_bounded(successes@, successes@.len());
        }
        ExtractionProgress {
            total,
            processed: successes.len(),
            current_file: String::new(),
            phase: String::from_str("Complete"),
            success_count: ok,
            error_count: successes.len() - ok,
        }
    }
}

/// The audit-log detail of a batch extraction.
pub fn extraction_audit_detail(total: usize, success: usize, errors: usize, cache_hits: usize) -> (r: String)
    ensures
        r@ == "total="@ + decimal(total as nat) + ",success="@ + decimal(success as nat) + ",errors="@
            + decimal(errors as nat) + ",cache_hits="@ + decimal(cache_hits as nat),
{
    let mut out: Vec<char> = Vec::new();
    push_str(&mut out, "total=");
    push_decimal(&mut out, total as u64);
    push_str(&mut out, ",success=");
    push_decimal(&mut out, success as u64);
    push_str(&mut out, ",errors=");
    push_decimal(&mut out, errors as u64);
    push_str(&mut out, ",cache_hits=");
    push_decimal(&mut out, cache_hits as u64);
    string_of(out.as_slice())
}

/// Progress of a batch analysis, as it is reported to the user.
pub struct AnalysisProgress {
    pub total: usize,
    pub processed: usize,
    pub current_file: String,
    pub phase: String,
}

impl AnalysisProgress {
    /// The report sent before the first file.
    pub fn starting(total: usize) -> (r: AnalysisProgress)
        ensures
            r.total == total,
            r.processed == 0,
            r.current_file@ == "Starting analysis..."@,
            r.phase@ == "Initializing"@,
    {
        AnalysisProgress {
            total,
            processed: 0,
            current_file: String::from_str("Starting analysis..."),
            phase: String::from_str("Initializing"),
        }
    }
}

/// The state of a batch analysis run.
pub struct AnalysisRun {
    pub total: usize,
    /// Files whose analysis was attempted.
    pub processed: usize,
    /// Files whose facts were saved.
    pub files_saved: usize,
    /// Facts saved over all files.
    pub facts_saved: usize,
}

/// What happened to the next file of an analysis run.
pub enum AnalysisEvent {
    /// The file is not in the registry.
    LookupFailed,
    /// No extracted text is stored for it.
    NoText,
    /// The model returned this many facts.
    Analyzed { facts: usize },
    /// The model failed on it.
    Failed,
}

/// What the run does with an event.
pub enum AnalysisAction {
    /// The error goes to the error queue.
    RecordError,
    /// The file is passed over.
    Skip,
    /// The facts are saved and the file marked processed; with
    /// `checkpoint`, the job checkpoint is advanced too.
    Save { checkpoint: bool },
}

impl AnalysisRun {
    /// Files saved never outnumber files attempted.
    pub open spec fn wf(&self) -> bool {
        self.files_saved <= self.processed
    }

    /// A run over `total` files, before the first.
    pub fn new(total: usize) -> (r: AnalysisRun)
        ensures
            r.wf(),
            r.total == total,
            r.processed == 0,
            r.files_saved == 0,
            r.facts_saved == 0,
    {
        AnalysisRun { total, processed: 0, files_saved: 0, facts_saved: 0 }
    }

    /// The report sent when the analysis of a file starts.
    pub fn progress(&self, file_name: String) -> (r: AnalysisProgress)
        ensures
            r.total == self.total,
            r.processed == self.processed,
            r.current_file == file_name,
            r.phase@ == "Analyzing"@,
    {
        AnalysisProgress {
            total: self.total,
            processed: self.processed,
            current_file: file_name,
            phase: String::from_str("Analyzing"),
        }
    }

    /// The closing report.
    pub fn finished(&self) -> (r: AnalysisProgress)
        ensures
            r.total == self.total,
            r.processed == self.processed,
            r.current_file@ == Seq::<char>::empty(),
            r.phase@ == "Complete"@,
    {
        AnalysisProgress {
            total: self.total,
            processed: self.processed,
            current_file: String::new(),
            phase: String::from_str("Complete"),
        }
    }

    /// Advances the run by one event and says what to do. Lookups that
    /// fail and files without text leave the counts alone; an attempted
    /// analysis counts as processed; a checkpoint follows every fifth
    /// processed file that was saved on it.
    pub fn step(&mut self, event: AnalysisEvent) -> (a: AnalysisAction)
        requires
            old(self).wf(),
            old(self).processed < usize::MAX,
            event matches AnalysisEvent::Analyzed { facts } ==> old(self).facts_saved + facts <= usize::MAX,
        ensures
            final(self).wf(),
            final(self).total == old(self).total,
            match event {
                AnalysisEvent::LookupFailed => a is RecordError && *final(self) == *old(self),
                AnalysisEvent::NoText => a is Skip && *final(self) == *old(self),
                AnalysisEvent::Analyzed { facts } => {
                    &&& a == (AnalysisAction::Save { checkpoint: (old(self).processed + 1) % 5 == 0 })
                    &&& final(self).processed == old(self).processed + 1
                    &&& final(self).files_saved == old(self).files_saved + 1
                    &&& final(self).facts_saved == old(self).facts_saved + facts
                },
                AnalysisEvent::Failed => {
                    &&& a is RecordError
                    &&& final(self).processed == old(self).processed + 1
                    &&& final(self).files_saved == old(self).files_saved
                    &&& final(self).facts_saved == old(self).facts_saved
                },
            },
    {
        match event {
            AnalysisEvent::LookupFailed => AnalysisAction::RecordError,
            AnalysisEvent::NoText => AnalysisAction::Skip,
            AnalysisEvent::Analyzed { facts } => {
                let checkpoint = (self.processed + 1) % 5 == 0;
                self.processed = self.processed + 1;
                self.files_saved = self.files_saved + 1;
                self.facts_saved = self.facts_saved + facts;
                AnalysisAction::Save { checkpoint }
            },
            AnalysisEvent::Failed => {
                self.processed = self.processed + 1;
                AnalysisAction::RecordError
            },
        }
    }

    /// The audit-log detail of a finished run.
    pub fn audit_detail(&self) -> (r: String)
        ensures
            r@ == "files="@ + decimal(self.files_saved as nat) + ",facts_saved="@ + decimal(
                self.facts_saved as nat,
            ),
    {
        let mut out: Vec<char> = Vec::new();
        push_str(&mut out, "files=");
        push_decimal(&mut out, self.files_saved as u64);
        push_str(&mut out, ",facts_saved=");
        push_decimal(&mut out, self.facts_saved as u64);
        string_of(out.as_slice())
    }
}

/// The people field of a stored fact: the names joined with `, `, or
/// nothing for an empty list.
pub open spec fn people_of(names: Seq<Seq<char>>) -> Option<Seq<char>> {
    if names.len() == 0 {
        None
    } else {
        Some(join_names(names))
    }
}

/// Names joined with `, `.
pub open spec fn join_names(names: Seq<Seq<char>>) -> Seq<char>
    decreases names.len(),
{
    if names.len() <= 1 {
        if names.len() == 1 { names[0] } else { Seq::<char>::empty() }
    } else {
        join_names(names.drop_last()) + ", "@ + names.last()
    }
}

/// Builds the people field of a fact from the names the model found.
pub fn people_field(names: &[String]) -> (r: Option<String>)
    ensures
        r matches Some(s) ==> people_of(crate::text::string_views(names@)) == Some(s@),
        r is None ==> people_of(crate::text::string_views(names@)) is None,
{
    if names.len() == 0 {
        return None;
    }
    let ghost vs = crate::text::string_views(names@);
    let mut out: Vec<char> = Vec::new();
    push_str(&mut out, names[0].as_str());
    assert(vs.take(1).len() == 1);
    assert(out@ == join_names(vs.take(1)));
    let mut i: usize = 1;
    while i < names.len()
        invariant
            vs == crate::text::string_views(names@),
            1 <= i <= names@.len(),
            out@ == join_names(vs.take(i as int)),
        decreases names.len() - i,
    {
        push_str(&mut out, ", ");
        push_str(&mut out, names[i].as_str());
        proof {
            assert(vs.take(i as int + 1).drop_last() =~= vs.take(i as int));
        }
        i = i + 1;
    }
    assert(vs.take(names@.len() as int) =~= vs);
    Some(string_of(out.as_slice()))
}

} // verus!
