use std::collections::VecDeque;

use security_log_analyser::analyzer::{detect_anomalies, detect_anomalies_live};
use security_log_analyser::anomaly::{Anomaly, Severity};
use security_log_analyser::event::{
    Event, FileCreateData, FileCreateEvent, HasSystem, NetworkData, NetworkEvent, ProcessCreateData,
    ProcessCreateEvent, System,
};

fn system(id: u8, time: &str) -> System {
    System { event_id: id, system_time: time.to_string(), computer: "HOST".to_string() }
}

fn process(pid: u64, ppid: u64, image: &str, parent: &str, time: &str) -> ProcessCreateEvent {
    ProcessCreateEvent {
        system: system(1, time),
        event_data: ProcessCreateData {
            process_id: pid,
            parent_process_id: ppid,
            image: image.to_string(),
            parent_image: parent.to_string(),
            command_line: "cmd".to_string(),
            user: "user".to_string(),
        },
    }
}

fn network(port: u16, initiated: bool) -> NetworkEvent {
    NetworkEvent {
        system: system(3, "2025-01-01T10:00:00Z"),
        event_data: NetworkData {
            image: "C:\\Tools\\Agent.exe".to_string(),
            destination_ip: "10.1.1.1".to_string(),
            destination_port: port,
            protocol: "tcp".to_string(),
            initiated,
            user: None,
        },
    }
}

fn time_at(second: u32, milli: u32) -> String {
    format!("2025-01-01T10:00:{:02}.{:03}Z", second, milli)
}

fn count_storms(a: &[Anomaly]) -> usize {
    a.iter().filter(|x| matches!(x, Anomaly::EventStorm { .. })).count()
}

#[test]
fn svchost_from_explorer_is_flagged_in_batch() {
    let e = Event::ProcessCreate(process(10, 4, "C:\\Windows\\System32\\SVCHOST.EXE", "C:\\Windows\\explorer.exe", "2025-01-01T10:00:00Z"));
    let found = detect_anomalies(&[e]);
    assert_eq!(found.len(), 1);
    match &found[0] {
        Anomaly::SuspiciousParentChild { parent, child, reason, event } => {
            assert_eq!(parent, "explorer.exe");
            assert_eq!(child, "SVCHOST.EXE");
            assert_eq!(reason, "svchost.exe is spawned by a non-service process");
            assert!(matches!(event, Event::ProcessCreate(p) if p.event_data.process_id == 10));
        }
        other => panic!("unexpected anomaly {:?}", other.description()),
    }
}

#[test]
fn svchost_from_services_is_not_flagged() {
    let e = Event::ProcessCreate(process(10, 4, "C:\\Windows\\System32\\svchost.exe", "C:\\Windows\\System32\\Services.exe", "2025-01-01T10:00:00Z"));
    assert!(detect_anomalies(&[e]).is_empty());
}

#[test]
fn office_spawning_shell_is_flagged() {
    let e = process(11, 5, "C:\\Windows\\System32\\powershell.exe", "C:\\Office\\WINWORD.EXE", "2025-01-01T10:00:00Z");
    let found = detect_anomalies(&[Event::ProcessCreate(e)]);
    assert_eq!(found.len(), 1);
    assert_eq!(found[0].description(), "Suspicious Process Chain: WINWORD.EXE -> powershell.exe (Office application spawned a shell)");
    assert_eq!(found[0].severity(), Severity::High);
}

#[test]
fn unusual_port_once_per_outbound_event() {
    let events = vec![
        Event::OutboundNetwork(network(49152, true)),
        Event::OutboundNetwork(network(49151, true)),
        Event::OutboundNetwork(network(60000, false)),
        Event::InboundNetwork(network(60000, true)),
    ];
    let found = detect_anomalies(&events);
    assert_eq!(found.len(), 1);
    match &found[0] {
        Anomaly::UnusualPort { port, process, .. } => {
            assert_eq!(*port, 49152);
            assert_eq!(process, "Agent.exe");
        }
        _ => panic!("expected an unusual port"),
    }
    assert_eq!(found[0].description(), "Unusual Network Port: 49152 used by Agent.exe");
    assert_eq!(found[0].severity(), Severity::Medium);
}

#[test]
fn live_port_rule_reports_once() {
    let ctx = VecDeque::new();
    let found = detect_anomalies_live(&Event::OutboundNetwork(network(50000, true)), &ctx);
    assert_eq!(found.len(), 1);
    let none = detect_anomalies_live(&Event::OutboundNetwork(network(50000, false)), &ctx);
    assert!(none.is_empty());
}

fn chain(n: u64) -> Vec<Event> {
    (1..=n)
        .map(|pid| Event::ProcessCreate(process(pid, pid - 1, "C:\\bin\\a.exe", "C:\\bin\\b.exe", &time_at(pid as u32, 0))))
        .collect()
}

#[test]
fn seven_nested_processes_flag_sixth_and_seventh() {
    let found = detect_anomalies(&chain(7));
    let depths: Vec<(u64, usize)> = found
        .iter()
        .filter_map(|a| match a {
            Anomaly::DeepProcessTree { event: Event::ProcessCreate(p), depth } => Some((p.event_data.process_id, *depth)),
            _ => None,
        })
        .collect();
    assert_eq!(depths, vec![(6, 6), (7, 7)]);
    assert_eq!(found.len(), 2);
    assert_eq!(found[0].description(), "Deep Process Nesting: 6 levels");
    assert_eq!(found[1].severity(), Severity::Medium);
}

#[test]
fn batch_sorts_by_timestamp_before_tracking_depth() {
    let mut events = chain(7);
    events.reverse();
    let found = detect_anomalies(&events);
    assert_eq!(found.len(), 2);
}

#[test]
fn live_depth_follows_context_buffer() {
    let all = chain(8);
    let ctx: VecDeque<Event> = all[..7].iter().cloned().collect();
    let found = detect_anomalies_live(&all[7], &ctx);
    assert_eq!(found.len(), 1);
    match &found[0] {
        Anomaly::DeepProcessTree { depth, .. } => assert_eq!(*depth, 8),
        _ => panic!("expected deep process tree"),
    }
    assert_eq!(found[0].severity(), Severity::High);
}

#[test]
fn live_depth_undercounts_after_eviction() {
    let all = chain(8);
    let ctx: VecDeque<Event> = all[4..7].iter().cloned().collect();
    let found = detect_anomalies_live(&all[7], &ctx);
    assert!(found.is_empty());
}

#[test]
fn live_depth_stops_on_cycle() {
    let a = Event::ProcessCreate(process(2, 3, "a.exe", "b.exe", "x"));
    let b = Event::ProcessCreate(process(3, 2, "b.exe", "a.exe", "x"));
    let ctx: VecDeque<Event> = vec![a, b].into_iter().collect();
    let new = Event::ProcessCreate(process(4, 3, "c.exe", "b.exe", "x"));
    assert!(detect_anomalies_live(&new, &ctx).is_empty());
}

fn burst(n: usize) -> Vec<Event> {
    (0..n)
        .map(|i| Event::ProcessCreate(process(1000 + i as u64, 0, "C:\\bin\\w.exe", "C:\\bin\\p.exe", &time_at((i % 5) as u32, (i * 7 % 1000) as u32))))
        .collect()
}

#[test]
fn fifty_events_in_five_seconds_make_one_storm() {
    let found = detect_anomalies(&burst(50));
    assert_eq!(count_storms(&found), 1);
    assert_eq!(found.len(), 1);
    match &found[0] {
        Anomaly::EventStorm { event_id, count, time_window_seconds } => {
            assert_eq!(*event_id, 1);
            assert_eq!(*count, 50);
            assert!(*time_window_seconds <= 5);
        }
        _ => panic!("expected a storm"),
    }
    assert!(found[0].event().is_none());
    assert_eq!(found[0].severity(), Severity::High);
}

#[test]
fn forty_nine_events_make_no_storm() {
    assert_eq!(count_storms(&detect_anomalies(&burst(49))), 0);
}

#[test]
fn unparseable_timestamps_still_reach_the_rules() {
    let e = Event::ProcessCreate(process(10, 4, "svchost.exe", "cmd.exe", "not a time"));
    assert_eq!(detect_anomalies(&[e]).len(), 1);
}

#[test]
fn storm_description_and_window() {
    let events: Vec<Event> = (0..60)
        .map(|i| Event::ProcessCreate(process(i, 0, "w.exe", "p.exe", &time_at(0, i as u32))))
        .collect();
    let found = detect_anomalies(&events);
    assert_eq!(found.len(), 1);
    assert_eq!(found[0].description(), "Event Storm: ID 1 (50 events in 0s)");
}

#[test]
fn live_storm_counts_trailing_window() {
    let ctx: VecDeque<Event> = (0..50)
        .map(|i| Event::ProcessCreate(process(i, 0, "w.exe", "p.exe", &time_at(1, i as u32))))
        .collect();
    let new = Event::ProcessCreate(process(99, 0, "w.exe", "p.exe", &time_at(5, 0)));
    let found = detect_anomalies_live(&new, &ctx);
    assert_eq!(count_storms(&found), 1);
    match &found[0] {
        Anomaly::EventStorm { count, time_window_seconds, .. } => {
            assert_eq!(*count, 50);
            assert_eq!(*time_window_seconds, 10);
        }
        _ => panic!("expected a storm"),
    }
    let short: VecDeque<Event> = ctx.iter().skip(1).cloned().collect();
    assert_eq!(count_storms(&detect_anomalies_live(&new, &short)), 0);
}

#[test]
fn live_storm_skips_when_new_timestamp_is_malformed() {
    let ctx: VecDeque<Event> = (0..60)
        .map(|i| Event::ProcessCreate(process(i, 0, "w.exe", "p.exe", &time_at(1, i as u32))))
        .collect();
    let new = Event::ProcessCreate(process(99, 0, "w.exe", "p.exe", "garbage"));
    assert!(detect_anomalies_live(&new, &ctx).is_empty());
}

#[test]
fn batch_is_repeatable_on_same_input() {
    let mut events = chain(7);
    events.extend(burst(50));
    let first: Vec<String> = detect_anomalies(&events).iter().map(|a| a.description()).collect();
    let second: Vec<String> = detect_anomalies(&events).iter().map(|a| a.description()).collect();
    assert_eq!(first, second);
}

#[test]
fn live_covers_batch_for_depth_and_lineage() {
    let mut events = chain(7);
    events.push(Event::ProcessCreate(process(50, 7, "svchost.exe", "a.exe", &time_at(30, 0))));
    let batch = detect_anomalies(&events);
    let mut ctx = VecDeque::new();
    let mut live = Vec::new();
    for e in &events {
        live.extend(detect_anomalies_live(e, &ctx));
        ctx.push_back(e.clone());
    }
    for a in &batch {
        assert!(live.iter().any(|b| b.description() == a.description()));
    }
}

#[test]
fn untrusted_executable_severity_and_description() {
    let e = Event::FileCreate(FileCreateEvent {
        system: system(11, "t"),
        event_data: FileCreateData { image: "x.exe".to_string(), target_filename: "y".to_string() },
    });
    let invalid = Anomaly::UntrustedExecutable { event: e.clone(), reason: "Invalid signature".to_string() };
    let unsigned = Anomaly::UntrustedExecutable { event: e, reason: "Unsigned".to_string() };
    assert_eq!(invalid.severity(), Severity::High);
    assert_eq!(unsigned.severity(), Severity::Medium);
    assert_eq!(unsigned.description(), "Untrusted Executable: Unsigned");
    assert!(unsigned.event().is_some());
}

#[test]
fn severity_levels_are_ordered() {
    assert!(Severity::Low < Severity::Medium);
    assert!(Severity::Medium < Severity::High);
    assert!(Severity::High < Severity::Critical);
    assert_eq!(Severity::Critical.label(), "Critical");
}

#[test]
fn event_names_by_code() {
    assert_eq!(Event::ProcessCreate(process(1, 0, "a", "b", "t")).name(), "ProcessCreate");
    assert_eq!(Event::OutboundNetwork(network(1, true)).name(), "NetworkConnect");
    let mut s = system(255, "t");
    assert_eq!(security_log_analyser::event::event_name(&s), "Error");
    s.event_id = 200;
    assert_eq!(security_log_analyser::event::event_name(&s), "Unknown");
    s.event_id = 29;
    assert_eq!(security_log_analyser::event::event_name(&s), "FileExecutableDetected");
}

#[test]
fn empty_input_reports_nothing() {
    assert!(detect_anomalies(&[]).is_empty());
    assert!(detect_anomalies_live(&Event::ProcessCreate(process(1, 0, "a", "b", "t")), &VecDeque::new()).is_empty());
}

#[test]
fn live_storm_walk_skips_unparseable_entries() {
    let mut ctx: VecDeque<Event> = (0..25)
        .map(|i| Event::ProcessCreate(process(i, 0, "w.exe", "p.exe", &time_at(1, i as u32))))
        .collect();
    ctx.push_back(Event::ProcessCreate(process(500, 0, "w.exe", "p.exe", "garbage")));
    ctx.extend((25..50).map(|i| Event::ProcessCreate(process(i, 0, "w.exe", "p.exe", &time_at(2, i as u32)))));
    let new = Event::ProcessCreate(process(99, 0, "w.exe", "p.exe", &time_at(5, 0)));
    assert_eq!(count_storms(&detect_anomalies_live(&new, &ctx)), 1);
}

#[test]
fn live_storm_walk_stops_at_first_old_entry() {
    let mut ctx: VecDeque<Event> = (0..30)
        .map(|i| Event::ProcessCreate(process(i, 0, "w.exe", "p.exe", &time_at(1, i as u32))))
        .collect();
    ctx.push_back(Event::ProcessCreate(process(500, 0, "w.exe", "p.exe", "2025-01-01T09:00:00Z")));
    ctx.extend((30..60).map(|i| Event::ProcessCreate(process(i, 0, "w.exe", "p.exe", &time_at(2, i as u32)))));
    let new = Event::ProcessCreate(process(99, 0, "w.exe", "p.exe", &time_at(5, 0)));
    assert_eq!(count_storms(&detect_anomalies_live(&new, &ctx)), 0);
}

#[test]
fn batch_storm_needs_ten_close_timestamps() {
    let spread: Vec<Event> = (0..60)
        .map(|i| Event::ProcessCreate(process(i, 0, "w.exe", "p.exe", &format!("2025-01-01T10:{:02}:00Z", i))))
        .collect();
    assert_eq!(count_storms(&detect_anomalies(&spread)), 0);
}

#[test]
fn storms_are_reported_per_event_type() {
    let mut events = burst(50);
    events.extend((0..50).map(|i| {
        let mut n = network(80, false);
        n.system.system_time = time_at(1, i as u32);
        Event::InboundNetwork(n)
    }));
    let found = detect_anomalies(&events);
    let ids: Vec<u8> = found
        .iter()
        .filter_map(|a| match a {
            Anomaly::EventStorm { event_id, .. } => Some(*event_id),
            _ => None,
        })
        .collect();
    assert_eq!(ids, vec![1, 3]);
}

#[test]
fn depth_chain_starting_at_root_zero_stops() {
    let root = Event::ProcessCreate(process(0, 0, "a", "b", "t"));
    let ctx: VecDeque<Event> = vec![root].into_iter().collect();
    let child = Event::ProcessCreate(process(5, 0, "a", "b", "t"));
    assert!(detect_anomalies_live(&child, &ctx).is_empty());
}

fn time_at_millis(total: u64) -> String {
    format!("2025-01-01T10:{:02}:{:02}.{:03}Z", total / 60_000, (total / 1000) % 60, total % 1000)
}

#[test]
fn batch_storm_uses_the_real_span() {
    let spaced = |gap: u64| -> Vec<Event> {
        (0..50)
            .map(|i| Event::ProcessCreate(process(100 + i, 0, "w.exe", "p.exe", &time_at_millis(i * gap))))
            .collect()
    };
    // nine gaps of 1.2 s span 10.8 s: not a storm, although its whole seconds are 10
    assert_eq!(count_storms(&detect_anomalies(&spaced(1200))), 0);
    // nine gaps of 1.1 s span 9.9 s: a storm
    let found = detect_anomalies(&spaced(1100));
    assert_eq!(count_storms(&found), 1);
    assert_eq!(found[0].description(), "Event Storm: ID 1 (50 events in 9s)");
}

#[test]
fn live_depth_undercounts_with_middle_gap() {
    let all = chain(8);
    let ctx: VecDeque<Event> = all[..7].iter().enumerate().filter(|(k, _)| *k != 3).map(|(_, e)| e.clone()).collect();
    assert!(detect_anomalies_live(&all[7], &ctx).is_empty());
    let full: VecDeque<Event> = all[..7].iter().cloned().collect();
    assert_eq!(detect_anomalies_live(&all[7], &full).len(), 1);
}
