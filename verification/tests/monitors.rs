use healer::config::{EbpfMonitorConfig, NetworkMonitorConfig, PidMonitorConfig};
use healer::event_bus::ProcessEvent;
use healer::exit_event::{ProcessExitEvent, EXIT_EVENT_LEN};
use healer::monitor::ebpf_monitor::{comm_key, comm_text, EbpfMonitor, ReaderInput, ReaderStep};
use healer::monitor::network_monitor::{HttpOutcome, NetworkHealth, NetworkMonitor};
use healer::monitor::pid_monitor::{char_is_space, parse_pid, PidMonitor, ProbeOutcome};
use healer::monitor::Monitor;

fn key(text: &[u8]) -> [u8; 16] {
    let mut out = [0u8; 16];
    out[..text.len()].copy_from_slice(text);
    out
}

fn record(pid: u32, comm: &[u8]) -> Vec<u8> {
    let mut out = pid.to_le_bytes().to_vec();
    out.extend_from_slice(&key(comm));
    out
}

fn pid_monitor() -> PidMonitor {
    PidMonitor::new(PidMonitorConfig {
        name: "counter".into(),
        pid_file_path: "/tmp/counter.pid".into(),
        interval_secs: 1,
    })
}

fn net_monitor() -> NetworkMonitor {
    NetworkMonitor::new(NetworkMonitorConfig {
        name: "dummy_net".into(),
        target_url: "http://127.0.0.1:8080/health".into(),
        interval_secs: 1,
    })
}

#[test]
fn pid_file_content_is_read_as_a_positive_number() {
    assert_eq!(parse_pid("1234"), Some(1234));
    assert_eq!(parse_pid("1234\n"), Some(1234));
    assert_eq!(parse_pid("  42\t\r\n"), Some(42));
    assert_eq!(parse_pid("+7"), Some(7));
    assert_eq!(parse_pid("007"), Some(7));
    assert_eq!(parse_pid("2147483647"), Some(i32::MAX));
}

#[test]
fn pid_file_without_a_pid_yields_none() {
    for content in [
        "", " ", "\n", "0", "-5", "-0", "+", "+-3", "12a", "a12", "1 2", "2147483648",
        "99999999999999999999999", "0x10", "1.5", "++1", "１２",
    ] {
        assert_eq!(parse_pid(content), None, "for {:?}", content);
    }
}

#[test]
fn pid_parsing_agrees_with_the_standard_library() {
    let samples = [
        "1", " 1", "1 ", "\u{a0}15\u{3000}", "\u{2003}8\u{85}", "\u{200b}8", "+0", "000", "0001",
        "2147483647", "2147483648", "4294967296", "-1", "+12\n", "12\n\n", "\t\t", "+ 1", "1+",
        "00000000000000000000000000000012", "\u{1680}3\u{2028}\u{2029}\u{202f}\u{205f}", "\u{feff}3",
    ];
    for sample in samples {
        let expected = match sample.trim().parse::<i32>() {
            Ok(p) if p > 0 => Some(p),
            _ => None,
        };
        assert_eq!(parse_pid(sample), expected, "for {:?}", sample);
    }
}

#[test]
fn pid_parsing_agrees_with_the_standard_library_on_all_short_texts() {
    let alphabet = [' ', '\n', '+', '-', '0', '1', '9', 'a', '\u{a0}'];
    let mut last = vec![String::new()];
    for _ in 0..5 {
        let mut next = vec![];
        for text in &last {
            for c in alphabet {
                let mut longer = text.clone();
                longer.push(c);
                let expected = match longer.trim().parse::<i32>() {
                    Ok(p) if p > 0 => Some(p),
                    _ => None,
                };
                assert_eq!(parse_pid(&longer), expected, "for {:?}", longer);
                next.push(longer);
            }
        }
        last = next;
    }
}

#[test]
fn white_space_is_what_the_standard_library_says() {
    let mut code = 0u32;
    while code < 0x3100 {
        if let Some(c) = char::from_u32(code) {
            assert_eq!(char_is_space(c), c.is_whitespace(), "for U+{:04X}", code);
        }
        code += 1;
    }
    assert!(!char_is_space('\u{feff}'));
    assert!(!char_is_space('\u{10ffff}'));
}

#[test]
fn pid_monitor_reports_a_vanished_process() {
    let monitor = pid_monitor();
    assert_eq!(monitor.check_interval(), 1);
    assert_eq!(monitor.pid_file_path(), "/tmp/counter.pid");
    assert_eq!(monitor.name(), "counter");
    assert_eq!(monitor.pid_to_probe(Some("4321\n")), Some(4321));
    assert_eq!(monitor.pid_to_probe(Some("garbage")), None);
    assert_eq!(monitor.pid_to_probe(None), None);
    assert_eq!(
        monitor.check_and_publish(4321, ProbeOutcome::NoSuchProcess),
        Some(ProcessEvent::ProcessDown { name: "counter".into(), pid: 4321 })
    );
    assert_eq!(monitor.check_and_publish(4321, ProbeOutcome::Alive), None);
    assert_eq!(monitor.check_and_publish(4321, ProbeOutcome::OtherError), None);
    assert_eq!(monitor.check_and_publish(0, ProbeOutcome::NoSuchProcess), None);
    assert_eq!(monitor.check_and_publish(-1, ProbeOutcome::NoSuchProcess), None);
    assert_eq!(
        monitor.publish_process_down(9),
        ProcessEvent::ProcessDown { name: "counter".into(), pid: 9 }
    );
}

#[test]
fn network_monitor_detects_crash_and_recovers() {
    let monitor = net_monitor();
    assert_eq!(monitor.check_interval(), 1);
    assert_eq!(monitor.target_url(), "http://127.0.0.1:8080/health");
    assert_eq!(monitor.name(), "dummy_net");
    // While the server answers 200 nothing is reported.
    assert_eq!(monitor.check_and_publish(HttpOutcome::Status(200)), None);
    // After the crash the connection is refused: the process is reported.
    let disconnected = ProcessEvent::ProcessDisconnected {
        name: "dummy_net".into(),
        url: "http://127.0.0.1:8080/health".into(),
    };
    assert_eq!(monitor.check_and_publish(HttpOutcome::ConnectFailed), Some(disconnected.clone()));
    assert_eq!(monitor.check_and_publish(HttpOutcome::TimedOut), Some(disconnected.clone()));
    assert_eq!(monitor.check_and_publish(HttpOutcome::OtherError), Some(disconnected.clone()));
    assert_eq!(monitor.publish_process_disconnected(), disconnected);
    // Once it is back, nothing is reported again.
    assert_eq!(monitor.check_and_publish(HttpOutcome::Status(200)), None);
}

#[test]
fn bad_status_is_no_event() {
    let monitor = net_monitor();
    for status in [100u16, 199, 300, 404, 500, 503] {
        assert_eq!(monitor.assess(HttpOutcome::Status(status)), NetworkHealth::Unhealthy(status));
        assert_eq!(monitor.check_and_publish(HttpOutcome::Status(status)), None);
    }
    for status in [200u16, 204, 299] {
        assert_eq!(monitor.assess(HttpOutcome::Status(status)), NetworkHealth::Healthy);
    }
    assert_eq!(monitor.assess(HttpOutcome::TimedOut), NetworkHealth::Unreachable);
}

#[test]
fn exit_record_round_trip() {
    let event = ProcessExitEvent { pid: 0x0102_0304, comm: key(b"nginx") };
    let wire = event.encode();
    assert_eq!(wire.len(), EXIT_EVENT_LEN);
    assert_eq!(&wire[..4], &[4, 3, 2, 1]);
    assert_eq!(&wire[4..9], b"nginx");
    assert!(wire[9..].iter().all(|b| *b == 0));
    assert_eq!(ProcessExitEvent::decode(&wire), Some(event));
    for pid in [0u32, 1, 255, 256, 65_535, 65_536, u32::MAX] {
        let event = ProcessExitEvent { pid, comm: key(b"x") };
        assert_eq!(event.encode()[..4], pid.to_le_bytes());
        assert_eq!(ProcessExitEvent::decode(&event.encode()), Some(event));
    }
}

#[test]
fn kernel_side_reports_watched_group_leaders_only() {
    let comm = key(b"nginx");
    assert_eq!(
        ProcessExitEvent::on_task_exit(10, 10, Some(comm), true),
        Some(ProcessExitEvent { pid: 10, comm })
    );
    assert_eq!(ProcessExitEvent::on_task_exit(11, 10, Some(comm), true), None);
    assert_eq!(ProcessExitEvent::on_task_exit(10, 10, Some(comm), false), None);
    assert_eq!(ProcessExitEvent::on_task_exit(10, 10, None, true), None);
}

#[test]
fn short_exit_record_is_rejected() {
    assert_eq!(ProcessExitEvent::decode(&[]), None);
    assert_eq!(ProcessExitEvent::decode(&[0u8; 19]), None);
    assert!(ProcessExitEvent::decode(&[0u8; 20]).is_some());
    let mut long = record(77, b"tail");
    long.extend_from_slice(&[9, 9, 9]);
    assert_eq!(ProcessExitEvent::decode(&long), Some(ProcessExitEvent { pid: 77, comm: key(b"tail") }));
}

#[test]
fn kernel_key_is_padded_and_cut() {
    assert_eq!(comm_key(""), [0u8; 16]);
    assert_eq!(comm_key("nginx"), key(b"nginx"));
    assert_eq!(comm_key("exactly15chars_"), key(b"exactly15chars_"));
    assert_eq!(comm_key("sixteen_chars___"), key(b"sixteen_chars__"));
    assert_eq!(comm_key("sixteen_chars___")[15], 0);
}

#[test]
fn task_name_is_read_up_to_the_first_zero() {
    assert_eq!(comm_text(&key(b"nginx")), "nginx");
    assert_eq!(comm_text(&[0u8; 16]), "");
    assert_eq!(comm_text(&key(b"ab\0cd")), "ab");
    assert_eq!(comm_text(b"sixteen_chars___"), "sixteen_chars___");
    assert_eq!(comm_text(&key("ñandú".as_bytes())), "ñandú");
}

#[test]
fn task_name_that_is_no_text_is_unknown() {
    assert_eq!(comm_text(&key(&[0xff, 0xfe])), "unknown");
    // A two-byte character cut in the middle.
    assert_eq!(comm_text(&key(&[b'a', 0xc3])), "unknown");
    assert_eq!(comm_text(&key(&[0xc3, 0x28])), "unknown");
}

#[test]
fn ebpf_detects_exit_and_recovers() {
    let mut monitor = EbpfMonitor::new();
    assert_eq!(monitor.name(), "EbpfMonitor");
    let watch = EbpfMonitorConfig { name: "counter".into(), command: "/usr/local/bin/test_process_ebpf".into() };
    let kernel_key = monitor.watch_config(watch.clone());
    assert_eq!(kernel_key, key(b"test_process_eb"));

    // The kernel reports the exit under the task name; the event carries the configured name.
    let event = monitor.on_exit_record(&record(4242, b"test_process_eb"));
    assert_eq!(event, Some(ProcessEvent::ProcessDown { name: "counter".into(), pid: 4242 }));

    // A task that nobody watches is reported under its own name.
    assert_eq!(
        monitor.on_exit_record(&record(7, b"stranger")),
        Some(ProcessEvent::ProcessDown { name: "stranger".into(), pid: 7 })
    );
    assert_eq!(monitor.on_exit_record(&[1, 2, 3]), None);

    assert_eq!(monitor.unwatch_config(watch), key(b"test_process_eb"));
    assert_eq!(
        monitor.on_exit_record(&record(4243, b"test_process_eb")),
        Some(ProcessEvent::ProcessDown { name: "test_process_eb".into(), pid: 4243 })
    );
}

#[test]
fn watched_name_of_many_bytes_is_reported_under_its_configured_name() {
    let mut monitor = EbpfMonitor::new();
    let watch = EbpfMonitorConfig { name: "music".into(), command: "/opt/ééééééééééé".into() };
    let kernel_key = monitor.watch_config(watch);
    // Seven characters of two bytes fit; the eighth would need a sixteenth byte.
    assert_eq!(kernel_key, key("ééééééé".as_bytes()));
    let mut wire = 99u32.to_le_bytes().to_vec();
    wire.extend_from_slice(&kernel_key);
    assert_eq!(
        monitor.on_exit_record(&wire),
        Some(ProcessEvent::ProcessDown { name: "music".into(), pid: 99 })
    );
}

#[test]
fn later_watch_of_the_same_executable_takes_the_name() {
    let mut monitor = EbpfMonitor::new();
    monitor.watch_config(EbpfMonitorConfig { name: "one".into(), command: "/bin/worker".into() });
    monitor.watch_config(EbpfMonitorConfig { name: "two".into(), command: "/opt/worker".into() });
    assert_eq!(monitor.resolve(&key(b"worker")), "two");
}

#[test]
fn reader_publishes_what_it_reads() {
    let mut monitor = EbpfMonitor::new();
    monitor.watch_config(EbpfMonitorConfig { name: "web".into(), command: "/usr/sbin/nginx".into() });
    let input = ReaderInput::Records(vec![
        record(1, b"nginx"),
        vec![1, 2, 3],
        record(2, b"other"),
    ]);
    assert_eq!(
        monitor.reader_step(&input),
        ReaderStep::Publish(vec![
            ProcessEvent::ProcessDown { name: "web".into(), pid: 1 },
            ProcessEvent::ProcessDown { name: "other".into(), pid: 2 },
        ])
    );
    assert_eq!(monitor.reader_step(&ReaderInput::Records(vec![])), ReaderStep::Publish(vec![]));
}

#[test]
fn reader_stops_only_on_a_lost_buffer() {
    let monitor = EbpfMonitor::new();
    assert_eq!(monitor.reader_step(&ReaderInput::Timeout), ReaderStep::Continue);
    assert_eq!(monitor.reader_step(&ReaderInput::FdError), ReaderStep::Pause);
    assert_eq!(
        monitor.reader_step(&ReaderInput::ReadError("os error: broken pipe".into())),
        ReaderStep::Stop
    );
    assert_eq!(
        monitor.reader_step(&ReaderInput::ReadError("connection reset by peer".into())),
        ReaderStep::Stop
    );
    assert_eq!(
        monitor.reader_step(&ReaderInput::ReadError("resource temporarily unavailable".into())),
        ReaderStep::Continue
    );
}

#[test]
fn shutdown_raises_the_flag() {
    let mut monitor = EbpfMonitor::new();
    assert!(!monitor.is_shutting_down());
    monitor.shutdown();
    assert!(monitor.is_shutting_down());
}
