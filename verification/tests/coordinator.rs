use healer::config::{
    AppConfig, DependencyConfig, DependencyKind, MonitorConfig, NetworkMonitorFields, OnFailure,
    ProcessConfig, RawDependency, RecoveryConfig, RegularHealerFields,
};
use healer::coordinator::dependency_coordinator::{
    CoordinatorInput, Decision, DepWaitStatus, DependencyCoordinator, DropReason,
    LoopStep, FIRST_RETRY_SECS, RECOVERING_HOLD_SECS,
};
use healer::event_bus::ProcessEvent;
use healer::subscriber::Subscriber;

fn mk_process(name: &str, deps: Vec<RawDependency>) -> ProcessConfig {
    ProcessConfig {
        name: name.to_string(),
        enabled: true,
        command: "/bin/true".to_string(),
        args: vec![],
        run_as_user: None,
        run_as_root: true,
        working_dir: None,
        monitor: MonitorConfig::Network(NetworkMonitorFields {
            target_url: "http://127.0.0.1:1/health".to_string(),
            interval_secs: 60,
        }),
        recovery: RecoveryConfig::Regular(RegularHealerFields {
            retries: 1,
            retry_window_secs: 5,
            cooldown_secs: 5,
        }),
        dependencies: deps,
    }
}

fn mk_config(processes: Vec<ProcessConfig>) -> AppConfig {
    AppConfig {
        log_level: None,
        log_directory: None,
        pid_file_directory: None,
        working_directory: Some("/".to_string()),
        processes,
    }
}

fn edge(target: &str, max_wait_secs: u64, on_failure: OnFailure) -> RawDependency {
    RawDependency::Detailed(DependencyConfig {
        target: target.to_string(),
        kind: DependencyKind::Requires,
        hard: true,
        max_wait_secs,
        on_failure,
    })
}

fn down(name: &str, pid: u32) -> ProcessEvent {
    ProcessEvent::ProcessDown { name: name.to_string(), pid }
}

fn a_waits_for_b(max_wait_secs: u64, on_failure: OnFailure) -> AppConfig {
    mk_config(vec![mk_process("A", vec![edge("B", max_wait_secs, on_failure)]), mk_process("B", vec![])])
}

#[test]
fn defers_then_releases_on_timeout_skip() {
    let cfg = a_waits_for_b(1, OnFailure::Skip);
    let mut coordinator = DependencyCoordinator::new();

    // B goes down first and counts as recovering.
    assert_eq!(coordinator.decide_and_publish(down("B", 123), &cfg, 0), Decision::Forward(down("B", 123)));

    // A goes down a moment later: it is held back, not passed on.
    let decision = coordinator.decide_and_publish(down("A", 456), &cfg, 100);
    assert_eq!(decision, Decision::Defer { name: "A".to_string(), retry_in_secs: 5 });
    assert!(coordinator.is_deferred("A"));

    // At the first retry the deadline of one second is long past: B is given up on and A goes out.
    let released = coordinator.handle_retry("A".to_string(), &cfg, 5_100);
    assert_eq!(released, Decision::Forward(down("A", 456)));
    assert!(!coordinator.is_deferred("A"));

    // And it goes out once.
    assert_eq!(
        coordinator.handle_retry("A".to_string(), &cfg, 5_200),
        Decision::Drop(DropReason::NotDeferred)
    );
}

#[test]
fn defer_then_abort_never_forwards() {
    let cfg = a_waits_for_b(1, OnFailure::Abort);
    let mut coordinator = DependencyCoordinator::new();
    assert!(matches!(coordinator.decide_and_publish(down("B", 1), &cfg, 0), Decision::Forward(_)));
    assert!(matches!(coordinator.decide_and_publish(down("A", 2), &cfg, 50), Decision::Defer { .. }));
    assert_eq!(
        coordinator.handle_retry("A".to_string(), &cfg, 5_050),
        Decision::Drop(DropReason::Aborted)
    );
    assert!(!coordinator.is_deferred("A"));
    assert_eq!(coordinator.deferred_len(), 0);
    assert_eq!(
        coordinator.handle_retry("A".to_string(), &cfg, 6_000),
        Decision::Drop(DropReason::NotDeferred)
    );
}

#[test]
fn degrade_is_given_up_on_like_skip() {
    let cfg = a_waits_for_b(2, OnFailure::Degrade);
    let mut coordinator = DependencyCoordinator::new();
    coordinator.decide_and_publish(down("B", 1), &cfg, 0);
    coordinator.decide_and_publish(down("A", 2), &cfg, 0);
    assert_eq!(coordinator.handle_retry("A".to_string(), &cfg, 5_000), Decision::Forward(down("A", 2)));
}

#[test]
fn deferred_state_records_the_wait() {
    let cfg = a_waits_for_b(30, OnFailure::Abort);
    let mut coordinator = DependencyCoordinator::new();
    coordinator.decide_and_publish(down("B", 1), &cfg, 1_000);
    coordinator.decide_and_publish(down("A", 2), &cfg, 1_500);
    let state = coordinator.deferred_state("A").unwrap();
    assert_eq!(state.original_event, down("A", 2));
    assert_eq!(state.deferred_count, 1);
    assert_eq!(state.first_deferred_at, 1_500);
    assert_eq!(state.last_eval_at, 1_500);
    assert_eq!(state.next_retry_at, 1_500 + FIRST_RETRY_SECS as u128 * 1000);
    assert_eq!(state.waiting_on, vec!["B".to_string()]);
    assert_eq!(state.deps.len(), 1);
    assert_eq!(state.deps[0].cfg.target, "B");
    assert_eq!(state.deps[0].status, DepWaitStatus::Waiting);
    assert!(coordinator.deferred_state("B").is_none());
}

#[test]
fn duplicate_failure_is_dropped_and_changes_no_entry() {
    let cfg = a_waits_for_b(30, OnFailure::Abort);
    let mut coordinator = DependencyCoordinator::new();
    coordinator.decide_and_publish(down("B", 1), &cfg, 0);
    coordinator.decide_and_publish(down("A", 2), &cfg, 100);
    let again = coordinator.decide_and_publish(down("A", 3), &cfg, 900);
    assert_eq!(again, Decision::Drop(DropReason::AlreadyDeferred));
    let disconnected = ProcessEvent::ProcessDisconnected { name: "A".to_string(), url: "u".to_string() };
    assert_eq!(
        coordinator.decide_and_publish(disconnected, &cfg, 950),
        Decision::Drop(DropReason::AlreadyDeferred)
    );
    assert_eq!(coordinator.deferred_len(), 1);
    let state = coordinator.deferred_state("A").unwrap();
    assert_eq!(state.first_deferred_at, 100);
    assert_eq!(state.original_event, down("A", 2));
    assert_eq!(state.deferred_count, 1);
}

#[test]
fn still_blocked_retry_backs_off() {
    // B keeps failing, so it keeps recovering; A has 100 seconds of patience.
    let cfg = a_waits_for_b(100, OnFailure::Abort);
    let mut coordinator = DependencyCoordinator::new();
    coordinator.decide_and_publish(down("B", 1), &cfg, 0);
    coordinator.decide_and_publish(down("A", 2), &cfg, 0);
    let mut now = 0u64;
    let mut delay = 5u64;
    let mut delays = vec![];
    for _ in 0..5 {
        now += delay * 1000;
        coordinator.decide_and_publish(down("B", 1), &cfg, now - 1);
        match coordinator.handle_retry("A".to_string(), &cfg, now) {
            Decision::Defer { name, retry_in_secs } => {
                assert_eq!(name, "A");
                delay = retry_in_secs;
                delays.push(retry_in_secs);
            },
            other => panic!("expected another wait, got {:?}", other),
        }
        let state = coordinator.deferred_state("A").unwrap();
        assert_eq!(state.last_eval_at, now);
        assert_eq!(state.next_retry_at, now as u128 + delay as u128 * 1000);
        assert_eq!(state.first_deferred_at, 0);
        assert_eq!(state.waiting_on, vec!["B".to_string()]);
    }
    assert_eq!(delays, vec![5, 10, 20, 30, 30]);
    assert_eq!(coordinator.deferred_state("A").unwrap().deferred_count, 6);
}

#[test]
fn backoff_table() {
    assert_eq!(DependencyCoordinator::compute_backoff(0), 5);
    assert_eq!(DependencyCoordinator::compute_backoff(1), 5);
    assert_eq!(DependencyCoordinator::compute_backoff(2), 10);
    assert_eq!(DependencyCoordinator::compute_backoff(3), 20);
    assert_eq!(DependencyCoordinator::compute_backoff(4), 30);
    assert_eq!(DependencyCoordinator::compute_backoff(u32::MAX), 30);
}

#[test]
fn release_when_the_dependency_has_recovered() {
    let cfg = a_waits_for_b(100, OnFailure::Abort);
    let mut coordinator = DependencyCoordinator::new();
    coordinator.decide_and_publish(down("B", 1), &cfg, 0);
    coordinator.decide_and_publish(down("A", 2), &cfg, 6_000);
    // B's recovering window ends at 10 s; the retry comes at 11 s.
    assert_eq!(coordinator.handle_retry("A".to_string(), &cfg, 11_000), Decision::Forward(down("A", 2)));
}

#[test]
fn recovering_window_lasts_ten_seconds() {
    let cfg = mk_config(vec![mk_process("B", vec![])]);
    let mut coordinator = DependencyCoordinator::new();
    assert!(!coordinator.is_recovering("B", 0));
    coordinator.decide_and_publish(down("B", 1), &cfg, 2_000);
    assert!(coordinator.is_recovering("B", 2_000));
    assert!(coordinator.is_recovering("B", 2_000 + RECOVERING_HOLD_SECS * 1000 - 1));
    assert!(!coordinator.is_recovering("B", 2_000 + RECOVERING_HOLD_SECS * 1000));
    coordinator.prune_recovering(12_000);
    assert!(!coordinator.is_recovering("B", 2_000));
}

#[test]
fn no_dependencies_forwards_at_once() {
    let cfg = mk_config(vec![mk_process("A", vec![])]);
    let mut coordinator = DependencyCoordinator::new();
    assert_eq!(coordinator.decide_and_publish(down("A", 9), &cfg, 5), Decision::Forward(down("A", 9)));
    assert_eq!(coordinator.deferred_len(), 0);
}

#[test]
fn healthy_dependency_does_not_block() {
    let cfg = a_waits_for_b(30, OnFailure::Abort);
    let mut coordinator = DependencyCoordinator::new();
    assert_eq!(coordinator.decide_and_publish(down("A", 9), &cfg, 5), Decision::Forward(down("A", 9)));
}

#[test]
fn only_hard_requires_edges_to_known_targets_block() {
    let soft = RawDependency::Detailed(DependencyConfig {
        target: "B".to_string(),
        kind: DependencyKind::Requires,
        hard: false,
        max_wait_secs: 30,
        on_failure: OnFailure::Abort,
    });
    let after = RawDependency::Detailed(DependencyConfig {
        target: "B".to_string(),
        kind: DependencyKind::After,
        hard: true,
        max_wait_secs: 30,
        on_failure: OnFailure::Abort,
    });
    let on_itself = RawDependency::Simple("A".to_string());
    let unknown = RawDependency::Simple("ghost".to_string());
    let cfg = mk_config(vec![
        mk_process("A", vec![soft, after, on_itself, unknown]),
        mk_process("B", vec![]),
    ]);
    let mut coordinator = DependencyCoordinator::new();
    coordinator.decide_and_publish(down("B", 1), &cfg, 0);
    coordinator.decide_and_publish(down("ghost", 1), &cfg, 0);
    assert_eq!(coordinator.decide_and_publish(down("A", 2), &cfg, 10), Decision::Forward(down("A", 2)));
}

#[test]
fn bare_dependency_name_blocks_with_defaults() {
    let cfg = mk_config(vec![
        mk_process("A", vec![RawDependency::Simple("B".to_string())]),
        mk_process("B", vec![]),
    ]);
    let mut coordinator = DependencyCoordinator::new();
    coordinator.decide_and_publish(down("B", 1), &cfg, 0);
    assert!(matches!(coordinator.decide_and_publish(down("A", 2), &cfg, 10), Decision::Defer { .. }));
    let state = coordinator.deferred_state("A").unwrap();
    assert_eq!(state.deps[0].cfg.max_wait_secs, 30);
    assert_eq!(state.deps[0].cfg.on_failure, OnFailure::Abort);
}

#[test]
fn unknown_process_is_forwarded() {
    let cfg = mk_config(vec![mk_process("B", vec![])]);
    let mut coordinator = DependencyCoordinator::new();
    assert_eq!(
        coordinator.decide_and_publish(down("stranger", 2), &cfg, 10),
        Decision::Forward(down("stranger", 2))
    );
}

#[test]
fn other_events_pass_through_unchanged() {
    let cfg = a_waits_for_b(30, OnFailure::Abort);
    let mut coordinator = DependencyCoordinator::new();
    assert_eq!(
        coordinator.decide_and_publish(ProcessEvent::ProcessRestartSuccess {}, &cfg, 0),
        Decision::Forward(ProcessEvent::ProcessRestartSuccess {})
    );
    assert_eq!(
        coordinator.decide_and_publish(ProcessEvent::ProcessRestartFailed {}, &cfg, 0),
        Decision::Forward(ProcessEvent::ProcessRestartFailed {})
    );
    let detected = ProcessEvent::ProcessDependencyDetected {
        name: "A".to_string(),
        dependencies: vec!["B".to_string()],
    };
    assert_eq!(
        coordinator.decide_and_publish(detected.clone(), &cfg, 0),
        Decision::Forward(detected)
    );
    assert!(!coordinator.is_recovering("A", 0));
}

#[test]
fn abort_wins_over_skip_in_one_scan() {
    let cfg = mk_config(vec![
        mk_process("A", vec![edge("B", 1, OnFailure::Skip), edge("C", 1, OnFailure::Abort)]),
        mk_process("B", vec![]),
        mk_process("C", vec![]),
    ]);
    let mut coordinator = DependencyCoordinator::new();
    coordinator.decide_and_publish(down("B", 1), &cfg, 0);
    coordinator.decide_and_publish(down("C", 1), &cfg, 0);
    coordinator.decide_and_publish(down("A", 1), &cfg, 0);
    assert_eq!(
        coordinator.handle_retry("A".to_string(), &cfg, 5_000),
        Decision::Drop(DropReason::Aborted)
    );
}

#[test]
fn one_dependency_times_out_while_another_still_blocks() {
    let cfg = mk_config(vec![
        mk_process("A", vec![edge("B", 1, OnFailure::Skip), edge("C", 60, OnFailure::Abort)]),
        mk_process("B", vec![]),
        mk_process("C", vec![]),
    ]);
    let mut coordinator = DependencyCoordinator::new();
    coordinator.decide_and_publish(down("B", 1), &cfg, 0);
    coordinator.decide_and_publish(down("C", 1), &cfg, 0);
    coordinator.decide_and_publish(down("A", 1), &cfg, 0);
    assert_eq!(
        coordinator.handle_retry("A".to_string(), &cfg, 5_000),
        Decision::Defer { name: "A".to_string(), retry_in_secs: 5 }
    );
    let state = coordinator.deferred_state("A").unwrap();
    assert_eq!(state.deps[0].status, DepWaitStatus::TimedOut);
    assert_eq!(state.deps[1].status, DepWaitStatus::Waiting);
    assert_eq!(state.waiting_on, vec!["C".to_string()]);
    assert_eq!(state.deferred_count, 2);
}

#[test]
fn dependency_removed_by_reload_no_longer_blocks() {
    let cfg = a_waits_for_b(100, OnFailure::Abort);
    let mut coordinator = DependencyCoordinator::new();
    coordinator.decide_and_publish(down("B", 1), &cfg, 0);
    coordinator.decide_and_publish(down("A", 2), &cfg, 0);
    let reloaded = mk_config(vec![mk_process("A", vec![])]);
    assert_eq!(
        coordinator.handle_retry("A".to_string(), &reloaded, 5_000),
        Decision::Forward(down("A", 2))
    );
}

#[test]
fn loop_turns() {
    let cfg = a_waits_for_b(1, OnFailure::Skip);
    let mut coordinator = DependencyCoordinator::new();
    assert_eq!(
        coordinator.step(CoordinatorInput::Event(down("B", 1)), &cfg, 0),
        LoopStep::Act(Decision::Forward(down("B", 1)))
    );
    assert_eq!(coordinator.step(CoordinatorInput::Lagged(7), &cfg, 1), LoopStep::Idle);
    assert_eq!(coordinator.step(CoordinatorInput::RetryChannelClosed, &cfg, 1), LoopStep::Idle);
    assert!(matches!(
        coordinator.step(CoordinatorInput::Event(down("A", 2)), &cfg, 2),
        LoopStep::Act(Decision::Defer { .. })
    ));
    assert_eq!(
        coordinator.step(CoordinatorInput::Retry("A".to_string()), &cfg, 5_002),
        LoopStep::Act(Decision::Forward(down("A", 2)))
    );
    assert_eq!(coordinator.step(CoordinatorInput::UpstreamClosed, &cfg, 6_000), LoopStep::Stop);
}

#[test]
fn coordinator_is_a_subscriber() {
    let cfg = a_waits_for_b(1, OnFailure::Skip);
    let mut coordinator = DependencyCoordinator::new();
    assert_eq!(coordinator.handle_event(down("B", 1), &cfg, 0), Decision::Forward(down("B", 1)));
    assert!(matches!(coordinator.handle_event(down("A", 1), &cfg, 0), Decision::Defer { .. }));
}

#[test]
fn manual_requires_keeps_requires_edges_in_order() {
    let after = RawDependency::Detailed(DependencyConfig {
        target: "C".to_string(),
        kind: DependencyKind::After,
        hard: true,
        max_wait_secs: 30,
        on_failure: OnFailure::Abort,
    });
    let cfg = mk_config(vec![
        mk_process("A", vec![edge("B", 3, OnFailure::Skip), after, RawDependency::Simple("D".to_string())]),
    ]);
    let coordinator = DependencyCoordinator::new();
    let edges = coordinator.manual_requires("A", &cfg);
    assert_eq!(edges.len(), 2);
    assert_eq!(edges[0].target, "B");
    assert_eq!(edges[0].max_wait_secs, 3);
    assert_eq!(edges[1].target, "D");
    assert!(coordinator.manual_requires("nobody", &cfg).is_empty());
}
