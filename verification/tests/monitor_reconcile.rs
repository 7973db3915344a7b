use healer::config::{
    EbpfMonitorConfig, EbpfMonitorFields, MonitorConfig, NetworkMonitorConfig,
    NetworkMonitorFields, PidMonitorConfig, PidMonitorFields, ProcessConfig, RecoveryConfig,
    RegularHealerFields,
};
use healer::monitor_manager::{key_for, keys_equal, MonitorManager, MonitorOp};
use std::collections::BTreeSet;

fn process(name: &str, enabled: bool, command: &str, monitor: MonitorConfig) -> ProcessConfig {
    ProcessConfig {
        name: name.into(),
        enabled,
        command: command.into(),
        args: vec![],
        run_as_user: None,
        run_as_root: true,
        working_dir: None,
        monitor,
        recovery: RecoveryConfig::Regular(RegularHealerFields {
            retries: 3,
            retry_window_secs: 30,
            cooldown_secs: 10,
        }),
        dependencies: vec![],
    }
}

fn pid_process(name: &str, pid_path: &str) -> ProcessConfig {
    process(
        name,
        true,
        "/bin/true",
        MonitorConfig::Pid(PidMonitorFields { pid_file_path: pid_path.into(), interval_secs: 1 }),
    )
}

fn network_process(name: &str, url: &str) -> ProcessConfig {
    process(
        name,
        true,
        "/bin/true",
        MonitorConfig::Network(NetworkMonitorFields { target_url: url.into(), interval_secs: 1 }),
    )
}

fn disabled_process(name: &str) -> ProcessConfig {
    process(
        name,
        false,
        "/bin/true",
        MonitorConfig::Pid(PidMonitorFields { pid_file_path: "/tmp/ignore.pid".into(), interval_secs: 1 }),
    )
}

fn ebpf_process(name: &str, command: &str) -> ProcessConfig {
    process(name, true, command, MonitorConfig::Ebpf(EbpfMonitorFields {}))
}

fn watch(name: &str, command: &str) -> EbpfMonitorConfig {
    EbpfMonitorConfig { name: name.into(), command: command.into() }
}

/// Carries the steps out on a stand-in for the kernel's watch list and tells the manager.
fn carry_out(manager: &mut MonitorManager, kernel: &mut BTreeSet<[u8; 16]>, ops: &[MonitorOp]) {
    for op in ops {
        match op {
            MonitorOp::Watch(cfg) => {
                kernel.insert(key_for(&cfg.command));
            },
            MonitorOp::Unwatch(cfg) => {
                kernel.remove(&key_for(&cfg.command));
            },
            _ => {},
        }
        manager.record(op, true);
    }
}

fn key(text: &str) -> [u8; 16] {
    let mut out = [0u8; 16];
    out[..text.len()].copy_from_slice(text.as_bytes());
    out
}

#[test]
fn reconcile_starts_stops_pid_and_network_monitors() {
    let mut manager = MonitorManager::new_without_ebpf();

    let initial = vec![
        pid_process("pid_a", "/tmp/pid_a.pid"),
        network_process("net_a", "http://localhost:1234/health"),
        disabled_process("pid_disabled"),
    ];

    let ops = manager.reconcile(&initial, &vec![]);
    assert_eq!(
        ops,
        vec![
            MonitorOp::StartPid(PidMonitorConfig {
                name: "pid_a".into(),
                pid_file_path: "/tmp/pid_a.pid".into(),
                interval_secs: 1,
            }),
            MonitorOp::StartNetwork(NetworkMonitorConfig {
                name: "net_a".into(),
                target_url: "http://localhost:1234/health".into(),
                interval_secs: 1,
            }),
        ]
    );

    let mut running = manager.running_monitor_names();
    running.sort();
    assert_eq!(
        running,
        vec!["net_a".to_string(), "pid_a".to_string()],
        "PID and network monitors should start for enabled processes"
    );

    let updated = vec![network_process("net_a", "http://localhost:1234/health")];
    let ops = manager.reconcile(&updated, &vec![]);
    assert_eq!(ops, vec![MonitorOp::Stop("pid_a".to_string())]);

    let running_after = manager.running_monitor_names();
    assert_eq!(
        running_after,
        vec!["net_a".to_string()],
        "PID monitor should stop when the process is removed"
    );

    assert_eq!(manager.shutdown(), vec![MonitorOp::Stop("net_a".to_string())]);
    assert!(manager.running_monitor_names().is_empty());
}

#[test]
fn second_reconcile_plans_nothing() {
    let snapshot = vec![
        pid_process("pid_a", "/tmp/pid_a.pid"),
        ebpf_process("web", "/usr/sbin/nginx"),
        network_process("net_a", "http://localhost:1234/health"),
        ebpf_process("db", "/usr/bin/postgres"),
        disabled_process("off"),
    ];
    let mut manager = MonitorManager::new(true);
    let mut kernel = BTreeSet::new();
    let ops = manager.reconcile(&snapshot, &vec![]);
    assert_eq!(ops.len(), 4);
    carry_out(&mut manager, &mut kernel, &ops);
    assert_eq!(manager.reconcile(&snapshot, &vec![]), vec![]);
    assert_eq!(manager.reconcile(&snapshot, &vec![]), vec![]);
}

#[test]
fn kernel_list_converges_to_the_enabled_tracepoint_targets() {
    let mut manager = MonitorManager::new(true);
    let mut kernel = BTreeSet::new();

    let first = vec![
        ebpf_process("web", "/usr/sbin/nginx"),
        ebpf_process("db", "/usr/bin/postgres"),
        ebpf_process("long", "/opt/a_very_long_executable_name"),
        pid_process("pid_a", "/tmp/pid_a.pid"),
    ];
    let ops = manager.reconcile(&first, &vec![]);
    assert_eq!(
        ops,
        vec![
            MonitorOp::Watch(watch("web", "/usr/sbin/nginx")),
            MonitorOp::Watch(watch("db", "/usr/bin/postgres")),
            MonitorOp::Watch(watch("long", "/opt/a_very_long_executable_name")),
            MonitorOp::StartPid(PidMonitorConfig {
                name: "pid_a".into(),
                pid_file_path: "/tmp/pid_a.pid".into(),
                interval_secs: 1,
            }),
        ]
    );
    carry_out(&mut manager, &mut kernel, &ops);
    let expected: BTreeSet<[u8; 16]> =
        [key("nginx"), key("postgres"), key("a_very_long_exe")].into_iter().collect();
    assert_eq!(kernel, expected);
    assert_eq!(manager.watched_keys().into_iter().collect::<BTreeSet<_>>(), expected);

    // db is disabled, web is gone, cache is new.
    let mut db = ebpf_process("db", "/usr/bin/postgres");
    db.enabled = false;
    let second = vec![db, ebpf_process("cache", "/usr/bin/redis-server"), ebpf_process("long", "/opt/a_very_long_executable_name")];
    let ops = manager.reconcile(&second, &vec![]);
    assert_eq!(
        ops,
        vec![
            MonitorOp::Unwatch(watch("web", "/usr/sbin/nginx")),
            MonitorOp::Unwatch(watch("db", "/usr/bin/postgres")),
            MonitorOp::Watch(watch("cache", "/usr/bin/redis-server")),
            MonitorOp::Stop("pid_a".to_string()),
        ]
    );
    carry_out(&mut manager, &mut kernel, &ops);
    let expected: BTreeSet<[u8; 16]> =
        [key("redis-server"), key("a_very_long_exe")].into_iter().collect();
    assert_eq!(kernel, expected);
    assert_eq!(manager.watched_keys().into_iter().collect::<BTreeSet<_>>(), expected);
}

#[test]
fn failed_watch_is_planned_again() {
    let snapshot = vec![ebpf_process("web", "/usr/sbin/nginx")];
    let mut manager = MonitorManager::new(true);
    let ops = manager.reconcile(&snapshot, &vec![]);
    assert_eq!(ops, vec![MonitorOp::Watch(watch("web", "/usr/sbin/nginx"))]);
    manager.record(&ops[0], false);
    assert!(manager.watched_keys().is_empty());
    let again = manager.reconcile(&snapshot, &vec![]);
    assert_eq!(again, ops);
    manager.record(&again[0], true);
    assert_eq!(manager.watched_keys(), vec![key("nginx")]);
    assert_eq!(manager.reconcile(&snapshot, &vec![]), vec![]);
}

#[test]
fn failed_unwatch_is_planned_again() {
    let mut manager = MonitorManager::new(true);
    let ops = manager.reconcile(&vec![ebpf_process("web", "/usr/sbin/nginx")], &vec![]);
    manager.record(&ops[0], true);
    let ops = manager.reconcile(&vec![], &vec![]);
    assert_eq!(ops, vec![MonitorOp::Unwatch(watch("web", "/usr/sbin/nginx"))]);
    manager.record(&ops[0], false);
    assert_eq!(manager.watched_keys(), vec![key("nginx")]);
    assert_eq!(manager.reconcile(&vec![], &vec![]), ops);
}

#[test]
fn two_processes_with_one_executable_share_a_watch() {
    let snapshot = vec![
        ebpf_process("first", "/usr/bin/worker"),
        ebpf_process("second", "/opt/other/worker"),
    ];
    let mut manager = MonitorManager::new(true);
    let mut kernel = BTreeSet::new();
    let ops = manager.reconcile(&snapshot, &vec![]);
    assert_eq!(ops, vec![MonitorOp::Watch(watch("first", "/usr/bin/worker"))]);
    carry_out(&mut manager, &mut kernel, &ops);

    // The first leaves: the key stays in the kernel, now for the second.
    let ops = manager.reconcile(&vec![ebpf_process("second", "/opt/other/worker")], &vec![]);
    assert_eq!(
        ops,
        vec![
            MonitorOp::Unwatch(watch("first", "/usr/bin/worker")),
            MonitorOp::Watch(watch("second", "/opt/other/worker")),
        ]
    );
    carry_out(&mut manager, &mut kernel, &ops);
    assert_eq!(kernel.into_iter().collect::<Vec<_>>(), vec![key("worker")]);
}

#[test]
fn changed_command_moves_the_watch() {
    let mut manager = MonitorManager::new(true);
    let mut kernel = BTreeSet::new();
    let ops = manager.reconcile(&vec![ebpf_process("svc", "/usr/bin/old")], &vec![]);
    carry_out(&mut manager, &mut kernel, &ops);
    let ops = manager.reconcile(&vec![ebpf_process("svc", "/usr/bin/new")], &vec![]);
    assert_eq!(
        ops,
        vec![
            MonitorOp::Unwatch(watch("svc", "/usr/bin/old")),
            MonitorOp::Watch(watch("svc", "/usr/bin/new")),
        ]
    );
    carry_out(&mut manager, &mut kernel, &ops);
    assert_eq!(kernel.into_iter().collect::<Vec<_>>(), vec![key("new")]);
}

#[test]
fn without_tracepoint_no_watch_is_planned() {
    let mut manager = MonitorManager::new_without_ebpf();
    let ops = manager.reconcile(&vec![ebpf_process("web", "/usr/sbin/nginx")], &vec![]);
    assert_eq!(ops, vec![]);
    assert!(manager.running_monitor_names().is_empty());
}

#[test]
fn finished_monitor_is_started_again() {
    let snapshot = vec![pid_process("pid_a", "/tmp/pid_a.pid")];
    let mut manager = MonitorManager::new(false);
    let first = manager.reconcile(&snapshot, &vec![]);
    assert_eq!(first.len(), 1);
    let again = manager.reconcile(&snapshot, &vec!["pid_a".to_string()]);
    assert_eq!(again, first);
    assert_eq!(manager.running_monitor_names(), vec!["pid_a".to_string()]);
    assert_eq!(manager.reconcile(&snapshot, &vec!["someone_else".to_string()]), vec![]);
}

#[test]
fn duplicate_name_gets_one_monitor() {
    let snapshot = vec![pid_process("dup", "/tmp/one.pid"), network_process("dup", "http://x/")];
    let mut manager = MonitorManager::new(false);
    let ops = manager.reconcile(&snapshot, &vec![]);
    assert_eq!(
        ops,
        vec![MonitorOp::StartPid(PidMonitorConfig {
            name: "dup".into(),
            pid_file_path: "/tmp/one.pid".into(),
            interval_secs: 1,
        })]
    );
    assert_eq!(manager.running_monitor_names(), vec!["dup".to_string()]);
}

#[test]
fn shutdown_stops_everything_then_the_tracepoint() {
    let mut manager = MonitorManager::new(true);
    manager.reconcile(
        &vec![pid_process("pid_a", "/tmp/pid_a.pid"), network_process("net_a", "http://x/")],
        &vec![],
    );
    assert_eq!(
        manager.shutdown(),
        vec![
            MonitorOp::Stop("pid_a".to_string()),
            MonitorOp::Stop("net_a".to_string()),
            MonitorOp::ShutdownEbpf,
        ]
    );
    assert_eq!(manager.shutdown(), vec![]);
}

#[test]
fn keys_compare_byte_by_byte() {
    assert!(keys_equal(&key("nginx"), &key("nginx")));
    assert!(!keys_equal(&key("nginx"), &key("nginy")));
    assert!(!keys_equal(&key("nginx"), &key("nginx1")));
    assert_eq!(key_for("/usr/sbin/nginx"), key("nginx"));
    assert_eq!(key_for("/opt/a_very_long_executable_name"), key("a_very_long_exe"));
}
