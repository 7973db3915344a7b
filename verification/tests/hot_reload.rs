use healer::config::{
    AppConfig, MonitorConfig, NotREgularHealerFields, PidMonitorFields, ProcessConfig,
    RecoveryConfig, RegularHealerFields,
};
use healer::event_bus::ProcessEvent;
use healer::subscriber::circuit_breaker::BreakerState;
use healer::subscriber::process_healer::{
    plan_restart, spawn_identity, HealAction, HealerInput, HealerStep, ProcessHealer, RunAs,
    UserIds,
};
use healer::subscriber::Subscriber;

fn make_process(name: &str, command: &str, args: Vec<String>, pid_dir: &str) -> ProcessConfig {
    ProcessConfig {
        name: name.to_string(),
        enabled: true,
        command: command.to_string(),
        args,
        run_as_user: None,
        run_as_root: true,
        working_dir: None,
        monitor: MonitorConfig::Pid(PidMonitorFields {
            pid_file_path: format!("{pid_dir}/{name}.pid"),
            interval_secs: 1,
        }),
        recovery: RecoveryConfig::Regular(RegularHealerFields {
            retries: 3,
            retry_window_secs: 60,
            cooldown_secs: 30,
        }),
        dependencies: vec![],
    }
}

fn make_config(base_dir: &str, processes: Vec<ProcessConfig>) -> AppConfig {
    AppConfig {
        log_level: None,
        log_directory: Some(format!("{base_dir}/logs")),
        pid_file_directory: Some(format!("{base_dir}/pids")),
        processes,
        working_directory: Some(base_dir.to_string()),
    }
}

#[test]
fn hot_reload_allows_new_process_recovery() {
    let base = "/tmp/healer-test";
    let pid_dir = "/tmp/healer-test/pids";
    let initial = make_config(base, vec![make_process("alpha", "/bin/true", vec![], pid_dir)]);
    let mut healer = ProcessHealer::new(&initial);

    let script = format!("echo hot >> {}/beta_marker.log", base);
    let beta = make_process("beta", "/bin/sh", vec!["-c".into(), script.clone()], pid_dir);
    let reloaded = make_config(base, vec![beta]);

    // alpha has left the configuration: nothing is started.
    assert_eq!(healer.heal_process(&"alpha".to_string(), &reloaded, 0), HealAction::NoConfig);

    // beta is new: the healer has no breaker for it, allows the restart and plans it.
    match healer.heal_process(&"beta".to_string(), &reloaded, 10) {
        HealAction::Restart(plan) => {
            assert_eq!(plan.name, "beta");
            assert_eq!(plan.command, "/bin/sh");
            assert_eq!(plan.args, vec!["-c".to_string(), script]);
            assert_eq!(plan.log_path, "/var/log/healer/beta.restarted.log");
            assert_eq!(plan.fallback_log_path, "/tmp/healer_beta.restarted.log");
            assert_eq!(plan.run_as, RunAs::Daemon);
        },
        other => panic!("expected a restart, got {:?}", other),
    }
    let stats = healer.breaker("beta").unwrap();
    assert_eq!(stats.recovery_state, BreakerState::Closed);
    assert_eq!(stats.recovery_session_starts, vec![10]);
}

#[test]
fn healer_starts_with_a_fresh_breaker_for_each_process() {
    let cfg = make_config(
        "/b",
        vec![make_process("one", "/bin/true", vec![], "/p"), make_process("two", "/bin/true", vec![], "/p")],
    );
    let healer = ProcessHealer::new(&cfg);
    for name in ["one", "two"] {
        let stats = healer.breaker(name).unwrap();
        assert_eq!(stats.recovery_state, BreakerState::Closed);
        assert!(stats.recovery_session_starts.is_empty());
    }
    assert!(healer.breaker("three").is_none());
}

#[test]
fn healer_trips_after_the_budget() {
    let cfg = make_config("/b", vec![make_process("svc", "/bin/true", vec![], "/p")]);
    let mut healer = ProcessHealer::new(&cfg);
    let name = "svc".to_string();
    for now in [0u64, 10, 20] {
        assert!(matches!(healer.heal_process(&name, &cfg, now), HealAction::Restart(_)));
    }
    assert_eq!(healer.heal_process(&name, &cfg, 30), HealAction::Denied);
    assert_eq!(healer.breaker("svc").unwrap().open_until, Some(30_030));
    assert_eq!(healer.heal_process(&name, &cfg, 30_029), HealAction::Denied);
    assert!(matches!(healer.heal_process(&name, &cfg, 30_030), HealAction::Restart(_)));
}

#[test]
fn check_circuit_breaker_says_when_it_trips() {
    let cfg = make_config("/b", vec![make_process("svc", "/bin/true", vec![], "/p")]);
    let mut healer = ProcessHealer::new(&cfg);
    let name = "svc".to_string();
    assert!(!healer.check_circuit_breaker(&name, &cfg, 0));
    assert!(!healer.check_circuit_breaker(&name, &cfg, 1));
    assert!(!healer.check_circuit_breaker(&name, &cfg, 2));
    assert!(healer.check_circuit_breaker(&name, &cfg, 3));
}

#[test]
fn placeholder_policy_is_denied() {
    let mut process = make_process("svc", "/bin/true", vec![], "/p");
    process.recovery = RecoveryConfig::NotRegular(NotREgularHealerFields {});
    let cfg = make_config("/b", vec![process]);
    let mut healer = ProcessHealer::new(&cfg);
    assert_eq!(healer.heal_process(&"svc".to_string(), &cfg, 0), HealAction::Denied);
}

#[test]
fn events_reach_the_healer_through_handle_event() {
    let cfg = make_config("/b", vec![make_process("svc", "/bin/true", vec![], "/p")]);
    let mut healer = ProcessHealer::new(&cfg);
    let down = ProcessEvent::ProcessDown { name: "svc".to_string(), pid: 4 };
    assert!(matches!(healer.handle_event(down, &cfg, 0), HealAction::Restart(_)));
    let gone = ProcessEvent::ProcessDisconnected { name: "svc".to_string(), url: "http://x".to_string() };
    assert!(matches!(healer.handle_event(gone, &cfg, 1), HealAction::Restart(_)));
    assert_eq!(healer.handle_event(ProcessEvent::ProcessRestartSuccess {}, &cfg, 2), HealAction::Ignored);
    assert_eq!(healer.breaker("svc").unwrap().recovery_session_starts, vec![0, 1]);
}

#[test]
fn healer_loop_turns() {
    let cfg = make_config("/b", vec![make_process("svc", "/bin/true", vec![], "/p")]);
    let mut healer = ProcessHealer::new(&cfg);
    let down = ProcessEvent::ProcessDown { name: "svc".to_string(), pid: 4 };
    assert!(matches!(
        healer.step(HealerInput::Event(down), &cfg, 0),
        HealerStep::Act(HealAction::Restart(_))
    ));
    assert_eq!(healer.step(HealerInput::Lagged(3), &cfg, 1), HealerStep::Idle);
    assert_eq!(healer.step(HealerInput::Closed, &cfg, 2), HealerStep::Stop);
}

#[test]
fn restart_plan_names_the_user_to_run_as() {
    let mut process = make_process("svc", "/usr/bin/svc", vec!["--flag".to_string()], "/p");
    process.run_as_root = false;
    process.run_as_user = Some("nobody".to_string());
    let plan = plan_restart(&"svc".to_string(), &process);
    assert_eq!(plan.run_as, RunAs::User("nobody".to_string()));
    assert_eq!(plan.args, vec!["--flag".to_string()]);

    process.run_as_user = None;
    assert_eq!(plan_restart(&"svc".to_string(), &process).run_as, RunAs::Unspecified);

    process.run_as_root = true;
    process.run_as_user = Some("nobody".to_string());
    assert_eq!(plan_restart(&"svc".to_string(), &process).run_as, RunAs::Daemon);
}

#[test]
fn identity_falls_back_to_the_daemon() {
    let ids = UserIds { uid: 65534, gid: 65533 };
    assert_eq!(spawn_identity(&RunAs::User("nobody".to_string()), Some(ids)), Some(ids));
    assert_eq!(spawn_identity(&RunAs::User("nobody".to_string()), None), None);
    assert_eq!(spawn_identity(&RunAs::Daemon, Some(ids)), None);
    assert_eq!(spawn_identity(&RunAs::Unspecified, Some(ids)), None);
}
