use pid_probe::cleanup::{classify_kill, CleanupReport, KillError, KillOutcome};
use pid_probe::config::{parse_target_count, parse_usize, ConfigError, TargetCount};
use pid_probe::spawn::{progress_notice, ProgressNotice, RunResult, SpawnFailure, SpawnLoop, SpawnOutcome};

/// Drives a whole run against an environment that starts at most `limit`
/// processes, then cleans up; `gone` names a started process (by position)
/// that exits on its own before cleanup. Returns the run's result, the
/// process identifiers handed to cleanup in order, and cleanup's report.
fn drive(target: usize, limit: usize, gone: Option<usize>) -> (RunResult, Vec<u32>, CleanupReport) {
    let target = TargetCount::new(target).unwrap();
    let mut spawn = SpawnLoop::new(target);
    let mut started: usize = 0;
    while let Some(i) = spawn.next_attempt() {
        assert_eq!(i, started);
        if started < limit {
            spawn.record(SpawnOutcome::Spawned(1000 + started as u32));
            started += 1;
        } else {
            spawn.record(SpawnOutcome::Failed(SpawnFailure::ResourceExhausted));
        }
    }
    let result = spawn.result();
    let mut reaper = spawn.into_reaper();
    let mut signalled = Vec::new();
    while let Some(pid) = reaper.next_target() {
        let res = if gone == Some(signalled.len()) { Err(KillError::NotRunning) } else { Ok(()) };
        signalled.push(pid);
        reaper.record(res);
    }
    (result, signalled, reaper.report())
}

#[test]
fn full_target_without_limit() {
    let (result, signalled, report) = drive(5, usize::MAX, None);
    assert_eq!(
        result,
        RunResult { exhausted: false, spawned_count: 5, attempts: 5, failure: None }
    );
    assert_eq!(signalled, vec![1000, 1001, 1002, 1003, 1004]);
    assert_eq!(report, CleanupReport { visited: 5, terminated: 5, already_gone: 0, failed: 0 });
}

#[test]
fn limit_reached_before_target() {
    let (result, signalled, report) = drive(100, 37, None);
    assert!(result.exhausted);
    assert_eq!(result.spawned_count, 37);
    assert_eq!(result.attempts, 38);
    assert_eq!(result.failure, Some(SpawnFailure::ResourceExhausted));
    assert_eq!(signalled.len(), 37);
    assert_eq!(signalled[0], 1000);
    assert_eq!(signalled[36], 1036);
    assert_eq!(report, CleanupReport { visited: 37, terminated: 37, already_gone: 0, failed: 0 });
}

#[test]
fn missing_value_is_a_config_error() {
    assert_eq!(parse_target_count(None), Err(ConfigError::Missing));
}

#[test]
fn zero_or_non_numeric_is_a_config_error() {
    assert_eq!(parse_target_count(Some("0")), Err(ConfigError::Invalid));
    assert_eq!(parse_target_count(Some("abc")), Err(ConfigError::Invalid));
    assert_eq!(parse_target_count(Some("")), Err(ConfigError::Invalid));
    assert_eq!(parse_target_count(Some("-3")), Err(ConfigError::Invalid));
}

#[test]
fn process_gone_before_cleanup() {
    let (result, signalled, report) = drive(100, 37, Some(12));
    assert!(result.exhausted);
    assert_eq!(result.spawned_count, 37);
    assert_eq!(signalled.len(), 37);
    assert_eq!(report, CleanupReport { visited: 37, terminated: 36, already_gone: 1, failed: 0 });
}

#[test]
fn valid_value_gives_target_count() {
    let t = parse_target_count(Some("37")).unwrap();
    assert_eq!(t.value(), 37);
    assert_eq!(parse_target_count(Some("+5")).unwrap().value(), 5);
}

#[test]
fn parse_usize_values() {
    assert_eq!(parse_usize("0"), Some(0));
    assert_eq!(parse_usize("007"), Some(7));
    assert_eq!(parse_usize("+42"), Some(42));
    assert_eq!(parse_usize("+"), None);
    assert_eq!(parse_usize(""), None);
    assert_eq!(parse_usize("-1"), None);
    assert_eq!(parse_usize(" 5"), None);
    assert_eq!(parse_usize("5 "), None);
    assert_eq!(parse_usize("1_000"), None);
    assert_eq!(parse_usize(&usize::MAX.to_string()), Some(usize::MAX));
    let over = format!("{}0", usize::MAX);
    assert_eq!(parse_usize(&over), None);
}

#[test]
fn parse_usize_agrees_with_std() {
    for s in ["0", "1", "+9", "123456", "99999999999999999999", "12a", "+-1", "++1", "\u{663}"] {
        assert_eq!(parse_usize(s), s.parse::<usize>().ok(), "{}", s);
    }
}

#[test]
fn zero_is_not_a_target_count() {
    assert!(TargetCount::new(0).is_none());
    assert_eq!(TargetCount::new(1).unwrap().value(), 1);
}

#[test]
fn attempts_never_exceed_target() {
    for limit in 0..8 {
        let (result, _, _) = drive(5, limit, None);
        assert!(result.attempts <= 5);
        assert_eq!(result.spawned_count, limit.min(5));
        assert_eq!(result.exhausted, limit < 5);
        if !result.exhausted {
            assert_eq!(result.attempts, 5);
        }
    }
}

#[test]
fn failure_on_last_attempt_uses_whole_target() {
    let (result, _, report) = drive(1, 0, None);
    assert!(result.exhausted);
    assert_eq!(result.attempts, 1);
    assert_eq!(result.spawned_count, 0);
    assert_eq!(report.visited, 0);
}

#[test]
fn other_spawn_failure_also_stops_the_loop() {
    let mut spawn = SpawnLoop::new(TargetCount::new(4).unwrap());
    assert_eq!(spawn.next_attempt(), Some(0));
    spawn.record(SpawnOutcome::Spawned(7));
    assert_eq!(spawn.next_attempt(), Some(1));
    spawn.record(SpawnOutcome::Failed(SpawnFailure::Other));
    assert_eq!(spawn.next_attempt(), None);
    let result = spawn.result();
    assert_eq!(
        result,
        RunResult { exhausted: true, spawned_count: 1, attempts: 2, failure: Some(SpawnFailure::Other) }
    );
}

#[test]
fn registry_grows_in_spawn_order() {
    let mut spawn = SpawnLoop::new(TargetCount::new(3).unwrap());
    spawn.record(SpawnOutcome::Spawned(30));
    assert_eq!(spawn.result().spawned_count, 1);
    spawn.record(SpawnOutcome::Spawned(10));
    spawn.record(SpawnOutcome::Spawned(20));
    assert_eq!(spawn.result().spawned_count, 3);
    assert_eq!(spawn.next_attempt(), None);
    let mut reaper = spawn.into_reaper();
    let mut order = Vec::new();
    while let Some(pid) = reaper.next_target() {
        order.push(pid);
        reaper.record(Ok(()));
    }
    assert_eq!(order, vec![30, 10, 20]);
}

#[test]
fn every_kill_result_lets_cleanup_go_on() {
    let mut spawn = SpawnLoop::new(TargetCount::new(3).unwrap());
    for pid in [1, 2, 3] {
        spawn.record(SpawnOutcome::Spawned(pid));
    }
    let mut reaper = spawn.into_reaper();
    assert_eq!(reaper.next_target(), Some(1));
    assert_eq!(reaper.record(Err(KillError::Other)), KillOutcome::Failed);
    assert_eq!(reaper.next_target(), Some(2));
    assert_eq!(reaper.record(Err(KillError::NotRunning)), KillOutcome::AlreadyGone);
    assert_eq!(reaper.next_target(), Some(3));
    assert_eq!(reaper.record(Ok(())), KillOutcome::Terminated);
    assert_eq!(reaper.next_target(), None);
    assert_eq!(
        reaper.report(),
        CleanupReport { visited: 3, terminated: 1, already_gone: 1, failed: 1 }
    );
}

#[test]
fn kill_results_are_classified() {
    assert_eq!(classify_kill(Ok(())), KillOutcome::Terminated);
    assert_eq!(classify_kill(Err(KillError::NotRunning)), KillOutcome::AlreadyGone);
    assert_eq!(classify_kill(Err(KillError::Other)), KillOutcome::Failed);
}

#[test]
fn progress_notices() {
    assert_eq!(progress_notice(0), ProgressNotice::First);
    assert_eq!(progress_notice(1), ProgressNotice::Routine);
    assert_eq!(progress_notice(9), ProgressNotice::Milestone);
    assert_eq!(progress_notice(10), ProgressNotice::Routine);
    assert_eq!(progress_notice(19), ProgressNotice::Milestone);
    assert_eq!(progress_notice(usize::MAX), ProgressNotice::Routine);
}
