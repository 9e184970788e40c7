//! The workflow lock: scanning, extraction and analysis run one at a time.

use vstd::prelude::*;

verus! {

/// The three long-running operations.
#[derive(Debug, Clone, Copy, PartialEq, Eq, Structural)]
pub enum Operation {
    Scan,
    Extract,
    Analyze,
}

/// The label an operation is shown with.
pub open spec fn label_of(op: Operation) -> Seq<char> {
    match op {
        Operation::Scan => "Scanning"@,
        Operation::Extract => "Extracting"@,
        Operation::Analyze => "Analyzing"@,
    }
}

/// The label in lower case, as messages use it.
pub open spec fn lower_label_of(op: Operation) -> Seq<char> {
    match op {
        Operation::Scan => "scanning"@,
        Operation::Extract => "extracting"@,
        Operation::Analyze => "analyzing"@,
    }
}

impl Operation {
    /// The label this operation is shown with.
    pub fn label(self) -> (r: &'static str)
        ensures
            r@ == label_of(self),
    {
        match self {
            Operation::Scan => "Scanning",
            Operation::Extract => "Extracting",
            Operation::Analyze => "Analyzing",
        }
    }

    fn lower_label(self) -> (r: &'static str)
        ensures
            r@ == lower_label_of(self),
    {
        match self {
            Operation::Scan => "scanning",
            Operation::Extract => "extracting",
            Operation::Analyze => "analyzing",
        }
    }
}

/// Which of the operations are marked as running.
#[derive(Debug, Clone, Copy, PartialEq, Eq, Structural)]
pub struct BusyFlags {
    pub scanning: bool,
    pub extracting: bool,
    pub analyzing: bool,
}

/// Whether any operation runs.
pub open spec fn is_busy(f: BusyFlags) -> bool {
    f.scanning || f.extracting || f.analyzing
}

/// At most one operation is marked as running.
pub open spec fn at_most_one(f: BusyFlags) -> bool {
    !(f.scanning && f.extracting) && !(f.scanning && f.analyzing) && !(f.extracting && f.analyzing)
}

/// Whether `op` is marked as running.
pub open spec fn runs(f: BusyFlags, op: Operation) -> bool {
    match op {
        Operation::Scan => f.scanning,
        Operation::Extract => f.extracting,
        Operation::Analyze => f.analyzing,
    }
}

/// The flags with `op` marked as running (or not).
pub open spec fn with_flag(f: BusyFlags, op: Operation, v: bool) -> BusyFlags {
    match op {
        Operation::Scan => BusyFlags { scanning: v, ..f },
        Operation::Extract => BusyFlags { extracting: v, ..f },
        Operation::Analyze => BusyFlags { analyzing: v, ..f },
    }
}

/// The operation a refusal names: scanning first, then extraction.
pub open spec fn active_of(f: BusyFlags) -> Operation {
    if f.scanning {
        Operation::Scan
    } else if f.extracting {
        Operation::Extract
    } else {
        Operation::Analyze
    }
}

/// The message with which `op` is refused while `active` runs.
pub open spec fn busy_message(op: Operation, active: Operation) -> Seq<char> {
    "Cannot start "@ + lower_label_of(op) + ": "@ + lower_label_of(active)
        + " is already in progress. Wait for it to finish or cancel it first."@
}

/// The shared processing state that the lock guards (progress fractions are
/// kept beside it by the caller).
#[derive(Debug)]
pub struct ProcessingState {
    pub is_scanning: bool,
    pub is_extracting: bool,
    pub is_analyzing: bool,
    pub current_file: String,
    pub processed_count: i64,
    pub total_count: i64,
}

impl ProcessingState {
    /// The running flags of this state.
    pub open spec fn flags(&self) -> BusyFlags {
        BusyFlags { scanning: self.is_scanning, extracting: self.is_extracting, analyzing: self.is_analyzing }
    }

    /// A state with nothing running.
    pub fn idle() -> (r: ProcessingState)
        ensures
            !is_busy(r.flags()),
            r.current_file@ == Seq::<char>::empty(),
            r.processed_count == 0,
            r.total_count == 0,
    {
        ProcessingState {
            is_scanning: false,
            is_extracting: false,
            is_analyzing: false,
            current_file: String::new(),
            processed_count: 0,
            total_count: 0,
        }
    }
}

/// Proof that one operation holds the lock.
#[derive(Debug)]
pub struct BusyGuard {
    pub op: Operation,
}

impl BusyGuard {
    /// Takes the lock for `op`. Refused, with a message that names the
    /// running operation, while any operation runs; then nothing changes.
    /// Otherwise marks `op` as running and resets the counters and the
    /// current file for the fresh run.
    pub fn acquire(proc: &mut ProcessingState, op: Operation) -> (r: Result<BusyGuard, String>)
        ensures
            match r {
                Ok(g) => {
                    &&& !is_busy(old(proc).flags())
                    &&& g.op == op
                    &&& final(proc).flags() == with_flag(old(proc).flags(), op, true)
                    &&& final(proc).processed_count == 0
                    &&& final(proc).total_count == 0
                    &&& final(proc).current_file@ == Seq::<char>::empty()
                },
                Err(m) => {
                    &&& is_busy(old(proc).flags())
                    &&& m@ == busy_message(op, active_of(old(proc).flags()))
                    &&& final(proc).flags() == old(proc).flags()
                    &&& final(proc).current_file@ == old(proc).current_file@
                    &&& final(proc).processed_count == old(proc).processed_count
                    &&& final(proc).total_count == old(proc).total_count
                },
            },
    {
        if proc.is_scanning || proc.is_extracting || proc.is_analyzing {
            let active = if proc.is_scanning {
                Operation::Scan
            } else if proc.is_extracting {
                Operation::Extract
            } else {
                Operation::Analyze
            };
            let mut m = String::from_str("Cannot start ");
            m.append(op.lower_label());
            m.append(": ");
            m.append(active.lower_label());
            m.append(" is already in progress. Wait for it to finish or cancel it first.");
            return Err(m);
        }
        match op {
            Operation::Scan => proc.is_scanning = true,
            Operation::Extract => proc.is_extracting = true,
            Operation::Analyze => proc.is_analyzing = true,
        }
        proc.processed_count = 0;
        proc.total_count = 0;
        proc.current_file = String::new();
        Ok(BusyGuard { op })
    }

    /// Gives the lock back: the operation is no longer marked as running
    /// and the progress state is cleared (current file and both counters).
    pub fn release(self, proc: &mut ProcessingState)
        ensures
            final(proc).flags() == with_flag(old(proc).flags(), self.op, false),
            final(proc).current_file@ == Seq::<char>::empty(),
            final(proc).processed_count == 0,
            final(proc).total_count == 0,
    {
        match self.op {
            Operation::Scan => proc.is_scanning = false,
            Operation::Extract => proc.is_extracting = false,
            Operation::Analyze => proc.is_analyzing = false,
        }
        proc.current_file = String::new();
        proc.processed_count = 0;
        proc.total_count = 0;
    }
}

/// The lock keeps operations mutually exclusive: taking it from an idle state
/// marks exactly the requested operation, every further request is refused
/// while it is held, and giving it back leaves the state idle again.
pub proof fn law_lock_exclusive(f: BusyFlags, op: Operation, other: Operation)
    requires
        !is_busy(f),
    ensures
        at_most_one(with_flag(f, op, true)),
        runs(with_flag(f, op, true), op),
        is_busy(with_flag(f, op, true)),
        active_of(with_flag(f, op, true)) == op,
        !is_busy(with_flag(with_flag(f, op, true), op, false)),
        runs(with_flag(f, op, true), other) ==> other == op,
{
}

/// Releasing keeps the at-most-one invariant.
pub proof fn law_release_keeps_exclusion(f: BusyFlags, op: Operation)
    requires
        at_most_one(f),
    ensures
        at_most_one(with_flag(f, op, false)),
        !runs(with_flag(f, op, false), op),
{
}

/// Applies a progress report from the front end to the state: each given
/// value replaces the stored one (progress fractions are applied by the caller).
pub fn apply_processing_update(
    proc: &mut ProcessingState,
    is_scanning: Option<bool>,
    is_extracting: Option<bool>,
    is_analyzing: Option<bool>,
    current_file: Option<String>,
    processed: Option<i64>,
    total: Option<i64>,
)
    ensures
        final(proc).is_scanning == match is_scanning { Some(v) => v, None => old(proc).is_scanning },
        final(proc).is_extracting == match is_extracting { Some(v) => v, None => old(proc).is_extracting },
        final(proc).is_analyzing == match is_analyzing { Some(v) => v, None => old(proc).is_analyzing },
        final(proc).current_file@ == match current_file { Some(v) => v@, None => old(proc).current_file@ },
        final(proc).processed_count == match processed { Some(v) => v, None => old(proc).processed_count },
        final(proc).total_count == match total { Some(v) => v, None => old(proc).total_count },
{
    if let Some(v) = is_scanning {
        proc.is_scanning = v;
    }
    if let Some(v) = is_extracting {
        proc.is_extracting = v;
    }
    if let Some(v) = is_analyzing {
        proc.is_analyzing = v;
    }
    if let Some(v) = current_file {
        proc.current_file = v;
    }
    if let Some(v) = processed {
        proc.processed_count = v;
    }
    if let Some(v) = total {
        proc.total_count = v;
    }
}

/// The stage of the workflow that the registry counts show.
pub open spec fn stage_of(total: i64, extracted: i64, analyzed: i64) -> Seq<char> {
    if analyzed > 0 {
        "analyzed"@
    } else if extracted > 0 {
        "extracted"@
    } else if total > 0 {
        "scanned"@
    } else {
        "none"@
    }
}

/// The stage of the workflow: the furthest stage that some file reached.
pub fn workflow_stage(total: i64, extracted: i64, analyzed: i64) -> (r: &'static str)
    ensures
        r@ == stage_of(total, extracted, analyzed),
{
    if analyzed > 0 {
        "analyzed"
    } else if extracted > 0 {
        "extracted"
    } else if total > 0 {
        "scanned"
    } else {
        "none"
    }
}

/// File and fact counts shown on the dashboard.
#[derive(Debug, Clone, Copy, PartialEq, Eq)]
pub struct Stats {
    pub registry_count: i64,
    pub intelligence_count: i64,
}

/// The dashboard counts from the two count queries; a count that could not
/// be read shows as zero.
pub fn stats_from_counts(registry_count: Option<i64>, intelligence_count: Option<i64>) -> (r: Stats)
    ensures
        r.registry_count == match registry_count { Some(c) => c, None => 0 },
        r.intelligence_count == match intelligence_count { Some(c) => c, None => 0 },
{
    Stats {
        registry_count: match registry_count { Some(c) => c, None => 0 },
        intelligence_count: match intelligence_count { Some(c) => c, None => 0 },
    }
}

} // verus!
