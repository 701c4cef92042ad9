//! The spawn loop: ask for child processes one at a time, record each one that
//! started, and stop at the first refusal or once the target is reached.
use vstd::prelude::*;

use crate::cleanup::{lemma_cleanup_signals_each_once, KillError, Reaper, ReaperState};
use crate::config::TargetCount;

verus! {

/// Why the environment did not start a child process.
#[derive(Clone, Copy, Debug, PartialEq, Eq, Structural)]
pub enum SpawnFailure {
    /// The environment refused because a process quota was reached.
    ResourceExhausted,
    /// Any other error from process creation.
    Other,
}

/// What one spawn attempt produced.
#[derive(Clone, Copy, Debug, PartialEq, Eq, Structural)]
pub enum SpawnOutcome {
    /// A child process started, with this process identifier.
    Spawned(u32),
    /// No child process started.
    Failed(SpawnFailure),
}

/// How loudly an attempt is announced.
#[derive(Clone, Copy, Debug, PartialEq, Eq, Structural)]
pub enum ProgressNotice {
    /// The very first attempt.
    First,
    /// Every tenth attempt.
    Milestone,
    /// Any other attempt.
    Routine,
}

/// What a finished spawn loop reports.
#[derive(Clone, Copy, Debug, PartialEq, Eq, Structural)]
pub struct RunResult {
    /// Whether an attempt failed before the target was reached.
    pub exhausted: bool,
    /// How many child processes were started.
    pub spawned_count: usize,
    /// How many spawn attempts were made.
    pub attempts: usize,
    /// The failure that stopped the loop, if one did.
    pub failure: Option<SpawnFailure>,
}

/// The abstract state of a spawn loop.
pub struct SpawnState {
    /// The number of processes asked for.
    pub target: nat,
    /// The identifiers of the started processes, in the order they started.
    pub registry: Seq<u32>,
    /// The failure that stopped the loop, if one did.
    pub failure: Option<SpawnFailure>,
    /// How many spawn attempts were made.
    pub attempts: nat,
}

impl SpawnState {
    /// A loop that has made no attempt yet.
    pub open spec fn initial(target: nat) -> SpawnState {
        SpawnState { target, registry: Seq::empty(), failure: None, attempts: 0 }
    }

    /// The loop makes no further attempt.
    pub open spec fn finished(self) -> bool {
        self.failure is Some || self.registry.len() >= self.target
    }

    /// The counts agree: every attempt either started a process or was the
    /// one failure, and no more processes were started than asked for.
    pub open spec fn wf(self) -> bool {
        &&& self.target > 0
        &&& self.registry.len() <= self.target
        &&& self.failure is Some ==> self.registry.len() < self.target
        &&& self.attempts == self.registry.len() + if self.failure is Some {
            1nat
        } else {
            0nat
        }
    }

    /// The state after recording the outcome of one more attempt.
    pub open spec fn step(self, o: SpawnOutcome) -> SpawnState {
        match o {
            SpawnOutcome::Spawned(pid) => SpawnState {
                registry: self.registry.push(pid),
                attempts: self.attempts + 1,
                ..self
            },
            SpawnOutcome::Failed(kind) => SpawnState {
                failure: Some(kind),
                attempts: self.attempts + 1,
                ..self
            },
        }
    }

    /// The state once the environment has answered the attempts in turn
    /// with `answers`, until the loop finishes or the answers run out.
    pub open spec fn run(self, answers: Seq<SpawnOutcome>) -> SpawnState
        decreases answers.len(),
    {
        if self.finished() || answers.len() == 0 {
            self
        } else {
            self.step(answers[0]).run(answers.drop_first())
        }
    }
}

/// One step keeps the counts consistent and only ever appends to the
/// registry.
pub proof fn lemma_step_keeps_counts(s: SpawnState, o: SpawnOutcome)
    requires
        s.wf(),
        !s.finished(),
    ensures
        s.step(o).wf(),
        s.step(o).target == s.target,
        s.step(o).attempts == s.attempts + 1,
        s.registry.is_prefix_of(s.step(o).registry),
{
    assert(s.registry =~= s.step(o).registry.subrange(0, s.registry.len() as int));
}

/// Whatever the environment answers, a run from a consistent state stays
/// consistent: the registry only grows and never holds more processes than
/// were asked for; once the environment has answered enough attempts the
/// loop is over; the new registry entries are the started processes in the
/// order the environment reported them, and a failure ends the loop at the
/// attempt that reported it.
pub proof fn lemma_run(s: SpawnState, answers: Seq<SpawnOutcome>)
    requires
        s.wf(),
    ensures
        ({
            let r = s.run(answers);
            let k = s.registry.len();
            &&& r.wf()
            &&& r.target == s.target
            &&& s.registry.is_prefix_of(r.registry)
            &&& r.attempts - s.attempts <= answers.len()
            &&& answers.len() + k >= s.target ==> r.finished()
            &&& s.failure is Some ==> r == s
            &&& forall|i: int|
                0 <= i < r.registry.len() - k ==> #[trigger] answers[i] == SpawnOutcome::Spawned(
                    r.registry[k + i],
                )
            &&& (s.failure is None && r.failure is Some) ==> answers[r.registry.len() - k]
                == SpawnOutcome::Failed(r.failure.unwrap())
        }),
    decreases answers.len(),
{
    let r = s.run(answers);
    let k = s.registry.len();
    if s.finished() || answers.len() == 0 {
        assert(s.registry =~= r.registry.subrange(0, k as int));
    } else {
        let s1 = s.step(answers[0]);
        let rest = answers.drop_first();
        lemma_step_keeps_counts(s, answers[0]);
        lemma_run(s1, rest);
        assert(r == s1.run(rest));
        let k1 = s1.registry.len();
        assert(s.registry =~= r.registry.subrange(0, k as int)) by {
            assert(s.registry =~= s1.registry.subrange(0, k as int));
            assert(s1.registry =~= r.registry.subrange(0, k1 as int));
        }
        match answers[0] {
            SpawnOutcome::Spawned(pid) => {
                assert(k1 == k + 1);
                assert(r.registry[k as int] == s1.registry[k as int]);
                assert forall|i: int| 0 <= i < r.registry.len() - k implies #[trigger] answers[i]
                    == SpawnOutcome::Spawned(r.registry[k + i]) by {
                    if i > 0 {
                        assert(answers[i] == rest[i - 1]);
                    }
                }
                if s.failure is None && r.failure is Some {
                    assert(answers[r.registry.len() - k] == rest[r.registry.len() - k1]);
                }
            },
            SpawnOutcome::Failed(kind) => {
                assert(s1.finished());
                assert(r == s1);
            },
        }
    }
}

/// Once the environment has answered as many attempts as were asked for, the
/// run is over; it made at most the target number of attempts, and exactly
/// that many when none failed.
pub proof fn lemma_attempts_within_target(target: nat, answers: Seq<SpawnOutcome>)
    requires
        target > 0,
        answers.len() >= target,
    ensures
        ({
            let r = SpawnState::initial(target).run(answers);
            &&& r.finished()
            &&& r.attempts <= target
            &&& r.failure is None ==> r.attempts == target
        }),
{
    lemma_run(SpawnState::initial(target), answers);
}

/// Unless the environment refuses exactly the last attempt asked for, a run
/// makes the target number of attempts exactly when no attempt fails.
pub proof fn lemma_full_attempts_iff_no_failure(target: nat, answers: Seq<SpawnOutcome>)
    requires
        target > 0,
        answers.len() >= target,
        !(answers[target - 1] is Failed && forall|i: int|
            0 <= i < target - 1 ==> #[trigger] answers[i] is Spawned),
    ensures
        (SpawnState::initial(target).run(answers).attempts == target) == (SpawnState::initial(
            target,
        ).run(answers).failure is None),
{
    let s = SpawnState::initial(target);
    let r = s.run(answers);
    lemma_run(s, answers);
    if r.failure is Some && r.attempts == target {
        assert(r.registry.len() == target - 1);
        assert(answers[target - 1] is Failed);
        assert forall|i: int| 0 <= i < target - 1 implies #[trigger] answers[i] is Spawned by {
            assert(answers[i] == SpawnOutcome::Spawned(r.registry[0 + i]));
        }
    }
}

/// Whatever the environment answers, a run never records more started
/// processes than the target, and its counts stay consistent.
pub proof fn lemma_spawned_count_within_target(target: nat, answers: Seq<SpawnOutcome>)
    requires
        target > 0,
    ensures
        SpawnState::initial(target).run(answers).wf(),
        SpawnState::initial(target).run(answers).registry.len() <= target,
{
    lemma_run(SpawnState::initial(target), answers);
}

/// Once the loop is over, however it ended, cleanup of its registry signals
/// every started process exactly once, in the order they started.
pub proof fn lemma_every_started_process_is_signalled(
    target: nat,
    answers: Seq<SpawnOutcome>,
    results: Seq<Result<(), KillError>>,
)
    requires
        target > 0,
        answers.len() >= target,
        results.len() >= target,
    ensures
        ({
            let s = SpawnState::initial(target).run(answers);
            let c = ReaperState::start(s.registry).run(results);
            &&& s.finished()
            &&& c.done()
            &&& c.outcomes.len() == s.registry.len()
            &&& c.signalled() == s.registry
        }),
{
    let s = SpawnState::initial(target).run(answers);
    lemma_run(SpawnState::initial(target), answers);
    lemma_cleanup_signals_each_once(s.registry, results);
}

/// The notice for the attempt with index `attempt` (counting from zero).
pub open spec fn notice_of(attempt: nat) -> ProgressNotice {
    if attempt == 0 {
        ProgressNotice::First
    } else if (attempt + 1) % 10 == 0 {
        ProgressNotice::Milestone
    } else {
        ProgressNotice::Routine
    }
}

/// How the attempt with index `attempt` (counting from zero) is announced.
pub fn progress_notice(attempt: usize) -> (r: ProgressNotice)
    ensures
        r == notice_of(attempt as nat),
{
    if attempt == 0 {
        ProgressNotice::First
    } else if attempt % 10 == 9 {
        ProgressNotice::Milestone
    } else {
        ProgressNotice::Routine
    }
}

/// The controller of the spawn loop. It holds the identifiers of the started
/// processes; the caller performs each attempt and reports its outcome.
pub struct SpawnLoop {
    target: usize,
    registry: Vec<u32>,
    failure: Option<SpawnFailure>,
    attempts: usize,
}

impl View for SpawnLoop {
    type V = SpawnState;

    closed spec fn view(&self) -> SpawnState {
        SpawnState {
            target: self.target as nat,
            registry: self.registry@,
            failure: self.failure,
            attempts: self.attempts as nat,
        }
    }
}

impl SpawnLoop {
    /// A loop that will ask for `target` processes.
    pub fn new(target: TargetCount) -> (s: SpawnLoop)
        ensures
            s@ == SpawnState::initial(target.spec_value()),
            s@.wf(),
    {
        let n = target.value();
        SpawnLoop { target: n, registry: Vec::with_capacity(n), failure: None, attempts: 0 }
    }

    /// The index of the next attempt to make, or `None` once the loop is over.
    pub fn next_attempt(&self) -> (r: Option<usize>)
        requires
            self@.wf(),
        ensures
            r == if self@.finished() {
                None::<usize>
            } else {
                Some(self@.attempts as usize)
            },
    {
        if self.failure.is_some() || self.registry.len() >= self.target {
            None
        } else {
            Some(self.attempts)
        }
    }

    /// Records the outcome of the attempt that `next_attempt` asked for.
    pub fn record(&mut self, o: SpawnOutcome)
        requires
            old(self)@.wf(),
            !old(self)@.finished(),
        ensures
            final(self)@ == old(self)@.step(o),
            final(self)@.wf(),
    {
        match o {
            SpawnOutcome::Spawned(pid) => {
                self.registry.push(pid);
            },
            SpawnOutcome::Failed(kind) => {
                self.failure = Some(kind);
            },
        }
        self.attempts = self.attempts + 1;
    }

    /// The loop's result so far.
    pub fn result(&self) -> (r: RunResult)
        requires
            self@.wf(),
        ensures
            r.exhausted == self@.failure is Some,
            r.failure == self@.failure,
            r.spawned_count == self@.registry.len(),
            r.attempts == self@.attempts,
    {
        RunResult {
            exhausted: self.failure.is_some(),
            spawned_count: self.registry.len(),
            attempts: self.attempts,
            failure: self.failure,
        }
    }

    /// Ends the loop and hands every started process over for cleanup.
    pub fn into_reaper(self) -> (r: Reaper)
        requires
            self@.wf(),
            self@.finished(),
        ensures
            r@ == ReaperState::start(self@.registry),
    {
        Reaper::new(self.registry)
    }
}

} // verus!
