use std::collections::VecDeque;

use security_log_analyser::context::{observe, push_bounded, BUFFER_SIZE};
use security_log_analyser::display::{
    classify_risk, format_event_details, get_command_line, get_parent_image, get_process_and_color, truncate,
    RiskColor,
};
use security_log_analyser::event::{
    Event, FileCreateData, FileCreateEvent, NetworkData, NetworkEvent, ProcessCreateData, ProcessCreateEvent,
    System,
};
use security_log_analyser::filters::EventFilter;
use security_log_analyser::rules::classify_lineage;
use security_log_analyser::text::{base_name, contains_text, push_decimal, push_signed_decimal, text_less_eq};

fn system(id: u8, time: &str, host: &str) -> System {
    System { event_id: id, system_time: time.to_string(), computer: host.to_string() }
}

fn process(pid: u64, image: &str, time: &str) -> Event {
    Event::ProcessCreate(ProcessCreateEvent {
        system: system(1, time, "HOST-A"),
        event_data: ProcessCreateData {
            process_id: pid,
            parent_process_id: 0,
            image: image.to_string(),
            parent_image: "C:\\Windows\\explorer.exe".to_string(),
            command_line: "powershell -enc AAA".to_string(),
            user: "CORP\\alice".to_string(),
        },
    })
}

fn connection(user: Option<&str>) -> Event {
    Event::OutboundNetwork(NetworkEvent {
        system: system(3, "2025-01-02 00:00:00", "HOST-B"),
        event_data: NetworkData {
            image: "C:\\Apps\\Browser.exe".to_string(),
            destination_ip: "192.168.1.20".to_string(),
            destination_port: 443,
            protocol: "tcp".to_string(),
            initiated: true,
            user: user.map(|u| u.to_string()),
        },
    })
}

fn file(target: &str) -> Event {
    Event::FileCreate(FileCreateEvent {
        system: system(11, "2025-01-03 00:00:00", "HOST-C"),
        event_data: FileCreateData { image: "C:\\x\\svchost.exe".to_string(), target_filename: target.to_string() },
    })
}

#[test]
fn details_line_per_event_kind() {
    assert_eq!(format_event_details(&process(1, "a.exe", "t")), "powershell -enc AAA");
    assert_eq!(format_event_details(&connection(None)), "tcp -> 192.168.1.20:443");
    assert_eq!(format_event_details(&file("C:\\tmp\\a.txt")), "File: C:\\tmp\\a.txt");
}

#[test]
fn command_line_and_parent_only_for_process_creation() {
    assert_eq!(get_command_line(&process(1, "a.exe", "t")).as_deref(), Some("powershell -enc AAA"));
    assert_eq!(get_parent_image(&process(1, "a.exe", "t")).as_deref(), Some("C:\\Windows\\explorer.exe"));
    assert!(get_command_line(&connection(None)).is_none());
    assert!(get_parent_image(&file("x")).is_none());
}

#[test]
fn truncate_marks_cut_text() {
    assert_eq!(truncate("short", 10), "short");
    assert_eq!(truncate("exactly10!", 10), "exactly10!");
    assert_eq!(truncate("abcdefghijkl", 8), "abcde...");
    assert_eq!(truncate("abcdef", 2), "...");
    assert_eq!(truncate("éabcd", 5), "é...");
    assert_eq!(truncate("éab", 4), "éab");
}

#[test]
fn risk_classes() {
    let (c, name) = get_process_and_color(&process(1, "C:\\Windows\\System32\\CMD.EXE", "t"));
    assert_eq!(c, RiskColor::Red);
    assert_eq!(name, "CMD.EXE");
    let (c, name) = get_process_and_color(&connection(None));
    assert_eq!(c, RiskColor::Blue);
    assert_eq!(name, "Browser.exe");
    assert_eq!(get_process_and_color(&file("x")).0, RiskColor::Yellow);
    assert_eq!(get_process_and_color(&process(1, "notepad.exe", "t")).0, RiskColor::Green);
    assert_eq!(classify_risk("bash.exe", 3), RiskColor::Red);
}

#[test]
fn lineage_table_on_lowercased_names() {
    assert_eq!(classify_lineage("explorer.exe", "svchost.exe"), Some("svchost.exe is spawned by a non-service process"));
    assert_eq!(classify_lineage("services.exe", "svchost.exe"), None);
    assert_eq!(classify_lineage("excel.exe", "cscript.exe"), Some("Office application spawned a shell"));
    assert_eq!(classify_lineage("excel.exe", "notepad.exe"), None);
    assert_eq!(classify_lineage("EXCEL.EXE", "cmd.exe"), None);
}

#[test]
fn text_helpers() {
    assert_eq!(base_name("C:\\Windows\\System32\\svchost.exe"), "svchost.exe");
    assert_eq!(base_name("plain.exe"), "plain.exe");
    assert_eq!(base_name("C:\\dir\\"), "");
    assert!(contains_text("Invalid signature", "Invalid"));
    assert!(!contains_text("invalid signature", "Invalid"));
    assert!(contains_text("abc", ""));
    assert!(text_less_eq("2025-01-01", "2025-01-02"));
    assert!(!text_less_eq("b", "a"));
    assert!(text_less_eq("a", "ab"));
    let mut s = String::from("n=");
    push_decimal(&mut s, 1234509);
    assert_eq!(s, "n=1234509");
    let mut s = String::new();
    push_signed_decimal(&mut s, -42);
    assert_eq!(s, "-42");
    let mut s = String::new();
    push_signed_decimal(&mut s, i64::MIN);
    assert_eq!(s, "-9223372036854775808");
}

#[test]
fn filter_by_ids_and_search() {
    let events = vec![process(1, "C:\\bin\\Tool.exe", "2025-01-01 00:00:00"), connection(Some("CORP\\Bob")), file("C:\\tmp\\report.docx")];
    let by_id = EventFilter::new().with_event_ids(Some(vec![3, 11]));
    assert_eq!(by_id.apply(&events).len(), 2);
    assert_eq!(by_id.get_event_ids(), Some(&vec![3, 11]));
    let by_search = EventFilter::new().with_search_term(Some("REPORT".to_string()));
    assert_eq!(by_search.search_term.as_deref(), Some("report"));
    let kept = by_search.apply(&events);
    assert_eq!(kept.len(), 1);
    assert!(matches!(kept[0], Event::FileCreate(_)));
    let by_user = EventFilter::new().with_search_term(Some("bob".to_string()));
    assert_eq!(by_user.apply(&events).len(), 1);
    let by_host = EventFilter::new().with_search_term(Some("host-a".to_string()));
    assert_eq!(by_host.apply(&events).len(), 1);
    assert_eq!(EventFilter::new().apply(&events).len(), 3);
}

#[test]
fn filter_by_time_range_is_inclusive() {
    let events = vec![process(1, "a", "2025-01-01 00:00:00"), connection(None), file("f")];
    let range = EventFilter::new()
        .with_time_range(Some("2025-01-02 00:00:00".to_string()), Some("2025-01-03 00:00:00".to_string()));
    let kept = range.apply(&events);
    assert_eq!(kept.len(), 2);
    assert!(!range.matches(&events[0]));
    assert!(range.matches(&events[2]));
}

#[test]
fn network_search_with_missing_user() {
    let f = EventFilter::new();
    assert!(f.search_matches(&connection(None), ""));
    assert!(!f.search_matches(&connection(None), "alice"));
    assert!(f.search_matches(&connection(None), "192.168"));
}

#[test]
fn bounded_buffer_evicts_oldest() {
    let mut buf = VecDeque::new();
    for i in 0..3 {
        push_bounded(&mut buf, process(i, "a", "t"), 2);
    }
    assert_eq!(buf.len(), 2);
    match &buf[0] {
        Event::ProcessCreate(p) => assert_eq!(p.event_data.process_id, 1),
        _ => panic!("expected a process"),
    }
}

#[test]
fn observe_analyses_before_admitting() {
    let mut buf = VecDeque::new();
    let found = observe(&mut buf, process(7, "C:\\w\\svchost.exe", "t"), true);
    assert_eq!(found.len(), 1);
    assert_eq!(buf.len(), 1);
    let quiet = observe(&mut buf, process(8, "C:\\w\\svchost.exe", "t"), false);
    assert!(quiet.is_empty());
    assert_eq!(buf.len(), 2);
    for i in 0..(BUFFER_SIZE as u64 + 5) {
        observe(&mut buf, process(100 + i, "a", "t"), false);
    }
    assert_eq!(buf.len(), BUFFER_SIZE);
}
