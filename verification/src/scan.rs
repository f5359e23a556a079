//! A scan job over the files to (re)index: check for cancellation before each file, record
//! progress around it, count each file as processed or failed, and complete the job.
use vstd::prelude::*;

verus! {

broadcast use vstd::string::group_string_axioms;

/// Where a scan job stands.
#[derive(Debug, Clone, Copy, PartialEq, Eq, Structural)]
pub enum ScanPhase {
    Begin,
    AwaitCancelCheck,
    AwaitProgressBefore,
    AwaitIndex,
    AwaitFailureRecord,
    AwaitProgressAfter,
    AwaitComplete,
    Finished,
}

/// The outcome of the last piece of outside work.
#[derive(Debug, Clone)]
pub enum ScanEvent {
    /// The job begins.
    Start,
    /// The job was (or was not) canceled.
    Canceled(bool),
    /// The record was stored.
    Saved,
    /// The file was indexed.
    Indexed,
    /// Indexing the file failed with this message.
    IndexFailed(String),
}

/// The next piece of outside work.
#[derive(Debug, Clone)]
pub enum ScanAction {
    CheckCanceled,
    SaveProgress { processed: u64, failed: u64, current_file: Option<String>, status: String },
    IndexFile(String),
    SaveFailure { path: String, stage: String, message: String, retryable: bool },
    Complete(String),
    Done,
}

/// `ScanAction` with its text as characters.
pub enum ScanActionView {
    CheckCanceled,
    SaveProgress { processed: nat, failed: nat, current_file: Option<Seq<char>>, status: Seq<char> },
    IndexFile(Seq<char>),
    SaveFailure { path: Seq<char>, stage: Seq<char>, message: Seq<char>, retryable: bool },
    Complete(Seq<char>),
    Done,
}

impl View for ScanAction {
    type V = ScanActionView;

    open spec fn view(&self) -> ScanActionView {
        match self {
            ScanAction::CheckCanceled => ScanActionView::CheckCanceled,
            ScanAction::SaveProgress { processed, failed, current_file, status } => {
                ScanActionView::SaveProgress {
                    processed: *processed as nat,
                    failed: *failed as nat,
                    current_file: crate::lifecycle::opt_chars(*current_file),
                    status: status@,
                }
            },
            ScanAction::IndexFile(p) => ScanActionView::IndexFile(p@),
            ScanAction::SaveFailure { path, stage, message, retryable } => ScanActionView::SaveFailure {
                path: path@,
                stage: stage@,
                message: message@,
                retryable: *retryable,
            },
            ScanAction::Complete(s) => ScanActionView::Complete(s@),
            ScanAction::Done => ScanActionView::Done,
        }
    }
}

/// A scan job: the paths to index, the position of the current one, and the counts so far.
pub struct ScanRun {
    paths: Vec<String>,
    next: usize,
    processed: u64,
    failed: u64,
    phase: ScanPhase,
}

/// `ScanRun` as values.
pub struct ScanRunView {
    pub paths: Seq<Seq<char>>,
    pub next: int,
    pub processed: nat,
    pub failed: nat,
    pub phase: ScanPhase,
}

impl View for ScanRun {
    type V = ScanRunView;

    closed spec fn view(&self) -> ScanRunView {
        ScanRunView {
            paths: self.paths@.map_values(|s: String| s@),
            next: self.next as int,
            processed: self.processed as nat,
            failed: self.failed as nat,
            phase: self.phase,
        }
    }
}

/// A file was counted once the index step for it has an outcome.
pub open spec fn counted_extra(p: ScanPhase) -> int {
    if p == ScanPhase::AwaitFailureRecord || p == ScanPhase::AwaitProgressAfter {
        1
    } else {
        0
    }
}

/// The phases in which a file is being handled.
pub open spec fn on_a_file(p: ScanPhase) -> bool {
    p == ScanPhase::AwaitCancelCheck || p == ScanPhase::AwaitProgressBefore || p
        == ScanPhase::AwaitIndex || p == ScanPhase::AwaitFailureRecord || p
        == ScanPhase::AwaitProgressAfter
}

/// The invariant of a scan job: the current file is one of the paths while one is handled, and
/// every file before it (and the current one once indexed) is counted exactly once.
pub open spec fn scan_inv(v: ScanRunView) -> bool {
    &&& 0 <= v.next <= v.paths.len()
    &&& on_a_file(v.phase) ==> v.next < v.paths.len()
    &&& v.processed + v.failed == v.next + counted_extra(v.phase)
}

/// The events a scan job expects in each phase.
pub open spec fn scan_accepts(p: ScanPhase, e: ScanEvent) -> bool {
    match p {
        ScanPhase::Begin => e is Start,
        ScanPhase::AwaitCancelCheck => e is Canceled,
        ScanPhase::AwaitIndex => e is Indexed || e is IndexFailed,
        ScanPhase::Finished => false,
        _ => e is Saved,
    }
}

/// The progress record for the counts, with the file being indexed if any.
pub open spec fn progress(v: ScanRunView, current: Option<Seq<char>>) -> ScanActionView {
    ScanActionView::SaveProgress {
        processed: v.processed,
        failed: v.failed,
        current_file: current,
        status: "indexing"@,
    }
}

/// The next file, or the completion of the job when none is left.
pub open spec fn advance(v: ScanRunView) -> (ScanRunView, ScanActionView) {
    if v.next < v.paths.len() {
        (ScanRunView { phase: ScanPhase::AwaitCancelCheck, ..v }, ScanActionView::CheckCanceled)
    } else {
        (ScanRunView { phase: ScanPhase::AwaitComplete, ..v }, ScanActionView::Complete("ready"@))
    }
}

/// One step of a scan job.
pub open spec fn scan_transition(v: ScanRunView, e: ScanEvent) -> (ScanRunView, ScanActionView) {
    match v.phase {
        ScanPhase::Begin => advance(v),
        ScanPhase::AwaitCancelCheck => if e == ScanEvent::Canceled(true) {
            (
                ScanRunView { phase: ScanPhase::AwaitComplete, ..v },
                ScanActionView::Complete("canceled"@),
            )
        } else {
            (
                ScanRunView { phase: ScanPhase::AwaitProgressBefore, ..v },
                progress(v, Some(v.paths[v.next])),
            )
        },
        ScanPhase::AwaitProgressBefore => (
            ScanRunView { phase: ScanPhase::AwaitIndex, ..v },
            ScanActionView::IndexFile(v.paths[v.next]),
        ),
        ScanPhase::AwaitIndex => match e {
            ScanEvent::IndexFailed(message) => {
                let w = ScanRunView {
                    phase: ScanPhase::AwaitFailureRecord,
                    failed: v.failed + 1,
                    ..v
                };
                (
                    w,
                    ScanActionView::SaveFailure {
                        path: v.paths[v.next],
                        stage: "index"@,
                        message: message@,
                        retryable: true,
                    },
                )
            },
            _ => {
                let w = ScanRunView {
                    phase: ScanPhase::AwaitProgressAfter,
                    processed: v.processed + 1,
                    ..v
                };
                (w, progress(w, None))
            },
        },
        ScanPhase::AwaitFailureRecord => (
            ScanRunView { phase: ScanPhase::AwaitProgressAfter, ..v },
            progress(v, None),
        ),
        ScanPhase::AwaitProgressAfter => advance(ScanRunView { next: v.next + 1, ..v }),
        ScanPhase::AwaitComplete => (
            ScanRunView { phase: ScanPhase::Finished, ..v },
            ScanActionView::Done,
        ),
        ScanPhase::Finished => (v, ScanActionView::Done),
    }
}

impl ScanRun {
    /// A job over `paths`, before it begins.
    pub fn new(paths: Vec<String>) -> (r: ScanRun)
        ensures
            r@.paths == paths@.map_values(|s: String| s@),
            r@.next == 0,
            r@.processed == 0,
            r@.failed == 0,
            r@.phase == ScanPhase::Begin,
            scan_inv(r@),
    {
        ScanRun { paths, next: 0, processed: 0, failed: 0, phase: ScanPhase::Begin }
    }

    /// Files indexed so far.
    pub fn processed(&self) -> (r: u64)
        ensures
            r == self@.processed,
    {
        self.processed
    }

    /// Files that failed so far.
    pub fn failed(&self) -> (r: u64)
        ensures
            r == self@.failed,
    {
        self.failed
    }

    /// Where the job stands.
    pub fn phase(&self) -> (r: ScanPhase)
        ensures
            r == self@.phase,
    {
        self.phase
    }

    /// Whether the job's invariant holds (it always does for a job made by `new` and moved on
    /// by `step`; a caller that cannot see that checks it here).
    pub fn is_consistent(&self) -> (r: bool)
        ensures
            r == scan_inv(self@),
    {
        let on_file = match self.phase {
            ScanPhase::AwaitCancelCheck | ScanPhase::AwaitProgressBefore | ScanPhase::AwaitIndex
            | ScanPhase::AwaitFailureRecord | ScanPhase::AwaitProgressAfter => true,
            _ => false,
        };
        let extra: u128 = match self.phase {
            ScanPhase::AwaitFailureRecord | ScanPhase::AwaitProgressAfter => 1,
            _ => 0,
        };
        let n = self.paths.len();
        self.next <= n && (!on_file || self.next < n) && (self.processed as u128) + (
        self.failed as u128) == (self.next as u128) + extra
    }

    /// Whether the job expects `event` now.
    pub fn accepts(&self, event: &ScanEvent) -> (r: bool)
        ensures
            r == scan_accepts(self@.phase, *event),
    {
        match self.phase {
            ScanPhase::Begin => matches!(event, ScanEvent::Start),
            ScanPhase::AwaitCancelCheck => matches!(event, ScanEvent::Canceled(_)),
            ScanPhase::AwaitIndex => matches!(event, ScanEvent::Indexed) || matches!(
                event,
                ScanEvent::IndexFailed(_),
            ),
            ScanPhase::Finished => false,
            _ => matches!(event, ScanEvent::Saved),
        }
    }

    fn progress_action(&self, current: Option<String>) -> (r: ScanAction)
        ensures
            r@ == progress(self@, crate::lifecycle::opt_chars(current)),
    {
        ScanAction::SaveProgress {
            processed: self.processed,
            failed: self.failed,
            current_file: current,
            status: String::from_str("indexing"),
        }
    }

    fn advance_exec(&mut self) -> (r: ScanAction)
        ensures
            (final(self)@, r@) == advance(old(self)@),
    {
        if self.next < self.paths.len() {
            self.phase = ScanPhase::AwaitCancelCheck;
            ScanAction::CheckCanceled
        } else {
            self.phase = ScanPhase::AwaitComplete;
            ScanAction::Complete(String::from_str("ready"))
        }
    }

    /// One step of the job (see `scan_transition`); the invariant holds throughout.
    pub fn step(&mut self, event: &ScanEvent) -> (r: ScanAction)
        requires
            scan_inv(old(self)@),
            scan_accepts(old(self)@.phase, *event),
        ensures
            (final(self)@, r@) == scan_transition(old(self)@, *event),
            scan_inv(final(self)@),
    {
        proof {
            lemma_scan_inv_preserved(self@, *event);
        }
        let n = self.paths.len();
        assert(self@.paths.len() == n);
        match self.phase {
            ScanPhase::Begin => self.advance_exec(),
            ScanPhase::AwaitCancelCheck => {
                if matches!(event, ScanEvent::Canceled(true)) {
                    self.phase = ScanPhase::AwaitComplete;
                    ScanAction::Complete(String::from_str("canceled"))
                } else {
                    self.phase = ScanPhase::AwaitProgressBefore;
                    let p = self.paths[self.next].clone();
                    self.progress_action(Some(p))
                }
            },
            ScanPhase::AwaitProgressBefore => {
                self.phase = ScanPhase::AwaitIndex;
                ScanAction::IndexFile(self.paths[self.next].clone())
            },
            ScanPhase::AwaitIndex => match event {
                ScanEvent::IndexFailed(message) => {
                    self.phase = ScanPhase::AwaitFailureRecord;
                    self.failed = self.failed + 1;
                    ScanAction::SaveFailure {
                        path: self.paths[self.next].clone(),
                        stage: String::from_str("index"),
                        message: message.clone(),
                        retryable: true,
                    }
                },
                _ => {
                    self.phase = ScanPhase::AwaitProgressAfter;
                    self.processed = self.processed + 1;
                    self.progress_action(None)
                },
            },
            ScanPhase::AwaitFailureRecord => {
                self.phase = ScanPhase::AwaitProgressAfter;
                self.progress_action(None)
            },
            ScanPhase::AwaitProgressAfter => {
                self.next = self.next + 1;
                self.advance_exec()
            },
            ScanPhase::AwaitComplete => {
                self.phase = ScanPhase::Finished;
                ScanAction::Done
            },
            ScanPhase::Finished => ScanAction::Done,
        }
    }
}

/// Every step keeps the scan invariant.
pub proof fn lemma_scan_inv_preserved(v: ScanRunView, e: ScanEvent)
    requires
        scan_inv(v),
        scan_accepts(v.phase, e),
    ensures
        scan_inv(scan_transition(v, e).0),
{
}

/// A scan job completes as ready only once every file was indexed or counted as failed, and it
/// indexes a file only right after finding the job not canceled and recording that file as the
/// current one; each file is the one at the current position.
pub proof fn lemma_scan_completion(v: ScanRunView, e: ScanEvent)
    requires
        scan_inv(v),
        scan_accepts(v.phase, e),
    ensures
        ({
            let (w, a) = scan_transition(v, e);
            &&& a == ScanActionView::Complete("ready"@) ==> w.next == v.paths.len()
                && w.processed + w.failed == v.paths.len()
            &&& a is IndexFile ==> v.phase == ScanPhase::AwaitProgressBefore && a->IndexFile_0
                == v.paths[v.next]
            &&& v.phase == ScanPhase::AwaitCancelCheck && e == ScanEvent::Canceled(true) ==> a
                == ScanActionView::Complete("canceled"@) && w.next == v.next
        }),
{
    reveal_strlit("ready");
    reveal_strlit("canceled");
    let (w, a) = scan_transition(v, e);
    if v.phase == ScanPhase::AwaitCancelCheck && e != ScanEvent::Canceled(true) {
        assert(a is SaveProgress);
    }
    if v.phase == ScanPhase::AwaitCancelCheck && e == ScanEvent::Canceled(true) {
        assert(a != ScanActionView::Complete("ready"@)) by {
            assert("canceled"@.len() != "ready"@.len());
        }
    }
}

/// How far a phase is from the end of the handling of its file (and of the job).
pub open spec fn phase_rank(p: ScanPhase) -> int {
    match p {
        ScanPhase::Begin => 7,
        ScanPhase::AwaitCancelCheck => 6,
        ScanPhase::AwaitProgressBefore => 5,
        ScanPhase::AwaitIndex => 4,
        ScanPhase::AwaitFailureRecord => 3,
        ScanPhase::AwaitProgressAfter => 2,
        ScanPhase::AwaitComplete => 1,
        ScanPhase::Finished => 0,
    }
}

/// How many steps at most a scan job has left: eight for each file not yet done, and the steps
/// left for the current one.
pub open spec fn scan_rank(v: ScanRunView) -> int {
    (v.paths.len() - v.next) * 8 + phase_rank(v.phase)
}

/// A scan job always ends: every step brings it closer to its end, so a job over `n` files is
/// finished after at most `8 * n + 7` steps.
pub proof fn lemma_scan_terminates(v: ScanRunView, e: ScanEvent)
    requires
        scan_inv(v),
        scan_accepts(v.phase, e),
    ensures
        scan_rank(v) >= 0,
        0 <= scan_rank(scan_transition(v, e).0) < scan_rank(v),
        scan_transition(v, e).0.paths == v.paths,
{
}

} // verus!
