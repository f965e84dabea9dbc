use push_backup::engine::{after_probe, Attempt, Orchestrator, ProbeOutcome, RoundPlan, TaskStatus};
use push_backup::git::RetryConfig;
use push_backup::summary::summarize;
use push_backup::targets::PushTarget;

fn target(name: &str) -> PushTarget {
    PushTarget { url: format!("https://{}.example/r.git", name), display_name: name.to_string() }
}

fn policy(max_retries: u32) -> RetryConfig {
    RetryConfig { max_retries, delay_ms: 250, timeout_secs: 0 }
}

/// Drives a run to its end; `pushes(round, task)` says whether that attempt
/// succeeds. Returns the waits asked for, round by round.
fn drive(o: &mut Orchestrator, pushes: &dyn Fn(u64, usize) -> bool) -> Vec<u64> {
    let mut waits = Vec::new();
    let mut guard = 0;
    loop {
        guard += 1;
        assert!(guard < 100, "the run did not end");
        let round = o.rounds();
        match o.next_round() {
            RoundPlan::Finished => return waits,
            RoundPlan::Run { wait_ms, targets, .. } => {
                waits.push(wait_ms);
                let results = targets
                    .iter()
                    .map(|&i| {
                        if pushes(round, i) {
                            Attempt::Pushed
                        } else {
                            Attempt::Failed(format!("round {} failed", round))
                        }
                    })
                    .collect();
                o.complete_round(results);
            }
        }
    }
}

#[test]
fn retry_converges_on_third_round() {
    let mut o = Orchestrator::new(vec![target("a")], &policy(2), true);
    drive(&mut o, &|round, _| round == 2);
    let t = &o.tasks()[0];
    assert_eq!(t.status, TaskStatus::Success);
    assert_eq!(t.attempts, 3);
    assert!(t.last_error.is_none());
}

#[test]
fn retry_exhaustion_ends_failed() {
    let mut o = Orchestrator::new(vec![target("a")], &policy(1), true);
    let waits = drive(&mut o, &|_, _| false);
    let t = &o.tasks()[0];
    assert_eq!(t.status, TaskStatus::Failed);
    assert_eq!(t.attempts, 2);
    assert_eq!(t.last_error.as_deref(), Some("round 1 failed"));
    assert_eq!(o.rounds(), 2);
    assert_eq!(waits, vec![0, 250]);
}

#[test]
fn zero_retries_means_one_attempt() {
    let mut o = Orchestrator::new(vec![target("a")], &policy(0), true);
    drive(&mut o, &|_, _| false);
    assert_eq!(o.tasks()[0].attempts, 1);
    assert_eq!(o.rounds(), 1);
}

#[test]
fn successful_tasks_are_not_attempted_again() {
    let mut o = Orchestrator::new(vec![target("a"), target("b")], &policy(3), false);
    match o.next_round() {
        RoundPlan::Run { wait_ms, probe, targets } => {
            assert_eq!(wait_ms, 0);
            assert!(!probe);
            assert_eq!(targets, vec![0, 1]);
        }
        RoundPlan::Finished => panic!("the run ended early"),
    }
    o.complete_round(vec![Attempt::Pushed, Attempt::Failed("no".to_string())]);
    match o.next_round() {
        RoundPlan::Run { wait_ms, targets, .. } => {
            assert_eq!(wait_ms, 250);
            assert_eq!(targets, vec![1]);
        }
        RoundPlan::Finished => panic!("the run ended early"),
    }
    o.complete_round(vec![Attempt::Pushed]);
    assert!(matches!(o.next_round(), RoundPlan::Finished));
    assert_eq!(o.tasks()[0].attempts, 1);
    assert_eq!(o.tasks()[1].attempts, 2);
}

#[test]
fn end_to_end_summary() {
    let mut o = Orchestrator::new(vec![target("A"), target("B"), target("C")], &policy(3), true);
    drive(&mut o, &|round, i| match i {
        0 => true,
        1 => round >= 2,
        _ => false,
    });
    let s = summarize(o.tasks());
    assert_eq!(s.succeeded, 2);
    assert_eq!(s.failed, 1);
    assert_eq!(o.tasks()[0].attempts, 1);
    assert_eq!(s.retried.len(), 1);
    assert_eq!(s.retried[0].name, "B");
    assert_eq!(s.retried[0].attempts, 3);
    assert_eq!(s.failures.len(), 1);
    assert_eq!(s.failures[0].name, "C");
    assert_eq!(s.failures[0].attempts, 4);
    assert_eq!(s.failures[0].error, "round 3 failed");
}

#[test]
fn summary_reports_unknown_error_when_none_recorded() {
    let o = Orchestrator::new(vec![target("A")], &policy(0), true);
    let s = summarize(o.tasks());
    assert_eq!(s.succeeded, 0);
    assert_eq!(s.failed, 1);
    assert_eq!(s.failures[0].attempts, 0);
    assert_eq!(s.failures[0].error, "未知错误");
}

#[test]
fn probe_outcomes() {
    assert!(after_probe(ProbeOutcome::Reachable).is_none());
    match after_probe(ProbeOutcome::Unreachable) {
        Some(Attempt::Failed(e)) => assert_eq!(e, "远程仓库无法访问"),
        _ => panic!("an unreachable remote must fail the attempt"),
    }
    match after_probe(ProbeOutcome::Error("检查超时（5秒）".to_string())) {
        Some(Attempt::Failed(e)) => assert_eq!(e, "检查失败: 检查超时（5秒）"),
        _ => panic!("a probe error must fail the attempt"),
    }
}

#[test]
fn probe_failure_counts_as_attempt_and_is_retried() {
    let mut o = Orchestrator::new(vec![target("a")], &policy(1), true);
    let plan = o.next_round();
    assert!(matches!(plan, RoundPlan::Run { probe: true, .. }));
    let a = after_probe(ProbeOutcome::Unreachable).unwrap();
    o.complete_round(vec![a]);
    assert_eq!(o.tasks()[0].status, TaskStatus::Failed);
    assert_eq!(o.tasks()[0].attempts, 1);
    assert_eq!(o.tasks()[0].last_error.as_deref(), Some("远程仓库无法访问"));
    assert!(matches!(o.next_round(), RoundPlan::Run { .. }));
}
