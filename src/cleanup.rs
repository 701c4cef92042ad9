//! Cleanup: signal every started process once, in the order they started, and
//! carry on whatever each signal returns.
use vstd::prelude::*;

verus! {

/// Why signalling a process failed.
#[derive(Clone, Copy, Debug, PartialEq, Eq, Structural)]
pub enum KillError {
    /// The process no longer runs: it exited or was already reaped.
    NotRunning,
    /// Any other error from the signalling call.
    Other,
}

/// What cleanup made of signalling one process.
#[derive(Clone, Copy, Debug, PartialEq, Eq, Structural)]
pub enum KillOutcome {
    /// The process was signalled.
    Terminated,
    /// The process was already gone; this is expected and not an error.
    AlreadyGone,
    /// Signalling failed for another reason; cleanup goes on regardless.
    Failed,
}

/// The outcome that a signalling call's result stands for.
pub open spec fn kill_outcome(res: Result<(), KillError>) -> KillOutcome {
    match res {
        Ok(()) => KillOutcome::Terminated,
        Err(KillError::NotRunning) => KillOutcome::AlreadyGone,
        Err(KillError::Other) => KillOutcome::Failed,
    }
}

/// Classifies the result of signalling one process.
pub fn classify_kill(res: Result<(), KillError>) -> (r: KillOutcome)
    ensures
        r == kill_outcome(res),
{
    match res {
        Ok(()) => KillOutcome::Terminated,
        Err(KillError::NotRunning) => KillOutcome::AlreadyGone,
        Err(KillError::Other) => KillOutcome::Failed,
    }
}

/// How many of `outcomes` are `k`.
pub open spec fn count_of(outcomes: Seq<KillOutcome>, k: KillOutcome) -> nat
    decreases outcomes.len(),
{
    if outcomes.len() == 0 {
        0
    } else {
        count_of(outcomes.drop_last(), k) + if outcomes.last() == k {
            1nat
        } else {
            0nat
        }
    }
}

/// The abstract state of cleanup.
pub struct ReaperState {
    /// The processes to signal, in order.
    pub handles: Seq<u32>,
    /// One outcome for each process signalled so far, in the same order.
    pub outcomes: Seq<KillOutcome>,
}

impl ReaperState {
    /// Cleanup of `handles` before any process was signalled.
    pub open spec fn start(handles: Seq<u32>) -> ReaperState {
        ReaperState { handles, outcomes: Seq::empty() }
    }

    /// No more than one outcome per process.
    pub open spec fn wf(self) -> bool {
        self.outcomes.len() <= self.handles.len()
    }

    /// Every process has been signalled.
    pub open spec fn done(self) -> bool {
        self.outcomes.len() >= self.handles.len()
    }

    /// The processes signalled so far, in the order they were signalled.
    pub open spec fn signalled(self) -> Seq<u32> {
        self.handles.take(self.outcomes.len() as int)
    }

    /// The state after signalling the next process gave `res`.
    pub open spec fn step(self, res: Result<(), KillError>) -> ReaperState {
        ReaperState { outcomes: self.outcomes.push(kill_outcome(res)), ..self }
    }

    /// The state once the signalling calls have returned `results` in turn,
    /// until every process is signalled or the results run out.
    pub open spec fn run(self, results: Seq<Result<(), KillError>>) -> ReaperState
        decreases results.len(),
    {
        if self.done() || results.len() == 0 {
            self
        } else {
            self.step(results[0]).run(results.drop_first())
        }
    }
}

/// Whatever the signalling calls return, cleanup from a consistent state
/// keeps its processes, only appends outcomes, records for each result the
/// outcome it stands for, and is over once enough results have come back.
pub proof fn lemma_cleanup_run(r: ReaperState, results: Seq<Result<(), KillError>>)
    requires
        r.wf(),
    ensures
        ({
            let f = r.run(results);
            let k = r.outcomes.len();
            &&& f.wf()
            &&& f.handles == r.handles
            &&& r.outcomes.is_prefix_of(f.outcomes)
            &&& f.outcomes.len() - k <= results.len()
            &&& results.len() + k >= r.handles.len() ==> f.done()
            &&& forall|i: int|
                0 <= i < f.outcomes.len() - k ==> #[trigger] f.outcomes[k + i] == kill_outcome(
                    results[i],
                )
        }),
    decreases results.len(),
{
    let f = r.run(results);
    let k = r.outcomes.len();
    if r.done() || results.len() == 0 {
        assert(r.outcomes =~= f.outcomes.subrange(0, k as int));
    } else {
        let r1 = r.step(results[0]);
        let rest = results.drop_first();
        lemma_cleanup_run(r1, rest);
        assert(f == r1.run(rest));
        assert(r.outcomes =~= f.outcomes.subrange(0, k as int)) by {
            assert(r.outcomes =~= r1.outcomes.subrange(0, k as int));
            assert(r1.outcomes =~= f.outcomes.subrange(0, (k + 1) as int));
        }
        assert forall|i: int| 0 <= i < f.outcomes.len() - k implies #[trigger] f.outcomes[k + i]
            == kill_outcome(results[i]) by {
            if i == 0 {
                assert(f.outcomes[k as int] == r1.outcomes[k as int]);
            } else {
                assert(results[i] == rest[i - 1]);
                assert(f.outcomes[(k + 1) + (i - 1)] == kill_outcome(rest[i - 1]));
            }
        }
    }
}

/// Cleanup signals every process exactly once, in the order of `handles`,
/// and the outcome for each process is what its own signalling call returned.
pub proof fn lemma_cleanup_signals_each_once(
    handles: Seq<u32>,
    results: Seq<Result<(), KillError>>,
)
    requires
        results.len() >= handles.len(),
    ensures
        ({
            let f = ReaperState::start(handles).run(results);
            &&& f.done()
            &&& f.outcomes.len() == handles.len()
            &&& f.signalled() == handles
            &&& forall|i: int| 0 <= i < handles.len() ==> #[trigger] f.outcomes[i] == kill_outcome(
                results[i],
            )
        }),
{
    let f = ReaperState::start(handles).run(results);
    lemma_cleanup_run(ReaperState::start(handles), results);
    assert(f.signalled() =~= handles);
    assert forall|i: int| 0 <= i < handles.len() implies #[trigger] f.outcomes[i] == kill_outcome(
        results[i],
    ) by {
        assert(f.outcomes[0 + i] == kill_outcome(results[i]));
    }
}

/// A process that is already gone is recorded as such, not as a failure, and
/// cleanup still signals every other process after it.
pub proof fn lemma_gone_process_is_not_fatal(
    handles: Seq<u32>,
    results: Seq<Result<(), KillError>>,
    j: int,
)
    requires
        results.len() >= handles.len(),
        0 <= j < handles.len(),
        results[j] == Err::<(), KillError>(KillError::NotRunning),
    ensures
        ({
            let f = ReaperState::start(handles).run(results);
            &&& f.outcomes[j] == KillOutcome::AlreadyGone
            &&& f.done()
            &&& f.signalled() == handles
        }),
{
    lemma_cleanup_signals_each_once(handles, results);
}

/// What cleanup reports once it is over.
#[derive(Clone, Copy, Debug, PartialEq, Eq, Structural)]
pub struct CleanupReport {
    /// How many processes were signalled.
    pub visited: usize,
    /// How many were signalled successfully.
    pub terminated: usize,
    /// How many were already gone.
    pub already_gone: usize,
    /// How many could not be signalled for another reason.
    pub failed: usize,
}

/// Cleanup of the started processes. The caller signals the process that
/// `next_target` names and reports the result with `record`.
pub struct Reaper {
    handles: Vec<u32>,
    outcomes: Vec<KillOutcome>,
}

impl View for Reaper {
    type V = ReaperState;

    closed spec fn view(&self) -> ReaperState {
        ReaperState { handles: self.handles@, outcomes: self.outcomes@ }
    }
}

impl Reaper {
    /// Cleanup of `handles`, nothing signalled yet.
    pub fn new(handles: Vec<u32>) -> (r: Reaper)
        ensures
            r@ == ReaperState::start(handles@),
    {
        Reaper { handles, outcomes: Vec::new() }
    }

    /// The process to signal next, or `None` once every one was.
    pub fn next_target(&self) -> (r: Option<u32>)
        requires
            self@.wf(),
        ensures
            r == if self@.done() {
                None::<u32>
            } else {
                Some(self@.handles[self@.outcomes.len() as int])
            },
    {
        if self.outcomes.len() < self.handles.len() {
            Some(self.handles[self.outcomes.len()])
        } else {
            None
        }
    }

    /// Records the result of signalling the process that `next_target` named,
    /// and returns what it is taken to mean.
    pub fn record(&mut self, res: Result<(), KillError>) -> (r: KillOutcome)
        requires
            old(self)@.wf(),
            !old(self)@.done(),
        ensures
            r == kill_outcome(res),
            final(self)@ == old(self)@.step(res),
            final(self)@.wf(),
    {
        let o = classify_kill(res);
        self.outcomes.push(o);
        o
    }

    /// Counts the outcomes recorded so far.
    pub fn report(&self) -> (r: CleanupReport)
        requires
            self@.wf(),
        ensures
            r.visited == self@.outcomes.len(),
            r.terminated + r.already_gone + r.failed == r.visited,
            r.terminated == count_of(self@.outcomes, KillOutcome::Terminated),
            r.already_gone == count_of(self@.outcomes, KillOutcome::AlreadyGone),
            r.failed == count_of(self@.outcomes, KillOutcome::Failed),
    {
        let mut terminated: usize = 0;
        let mut already_gone: usize = 0;
        let mut failed: usize = 0;
        let mut i: usize = 0;
        while i < self.outcomes.len()
            invariant
                i <= self.outcomes.len(),
                terminated + already_gone + failed == i,
                terminated == count_of(self@.outcomes.take(i as int), KillOutcome::Terminated),
                already_gone == count_of(self@.outcomes.take(i as int), KillOutcome::AlreadyGone),
                failed == count_of(self@.outcomes.take(i as int), KillOutcome::Failed),
            decreases self.outcomes.len() - i,
        {
            let ghost pre = self@.outcomes.take(i as int);
            assert(self@.outcomes.take(i + 1).drop_last() =~= pre);
            match self.outcomes[i] {
                KillOutcome::Terminated => terminated = terminated + 1,
                KillOutcome::AlreadyGone => already_gone = already_gone + 1,
                KillOutcome::Failed => failed = failed + 1,
            }
            i = i + 1;
        }
        assert(self@.outcomes.take(i as int) =~= self@.outcomes);
        CleanupReport { visited: self.outcomes.len(), terminated, already_gone, failed }
    }
}

} // verus!
