use roadtoriches::log_watcher::{check_for_scans, latest_log_index, resume_position, scan_event_from_fields, scan_event_from_line, strip_line_terminator, ScanEvent};
use roadtoriches::tracking::{apply_scan_events, log_check_due};
use roadtoriches::travel::{Body, SystemGroup};

fn name_of(e: &ScanEvent) -> (&str, bool) {
    match e {
        ScanEvent::FSS(n) => (n.as_str(), false),
        ScanEvent::DSS(n) => (n.as_str(), true),
    }
}

#[test]
fn scan_lines_report_events() {
    let fss = r#"{ "timestamp":"2024-01-01T00:00:00Z", "event":"Scan", "BodyName":"Col 285 A 1" }"#;
    let dss = r#"{"event":"SAAScanComplete","BodyName":"Col 285 A 2"}"#;
    let belt = r#"{"event":"Scan","BodyName":"Col 285 A A Belt Cluster 1"}"#;
    let other = r#"{"event":"FSDJump","StarSystem":"Sol"}"#;
    let no_body = r#"{"event":"Scan"}"#;
    let non_string = r#"{"event":"Scan","BodyName":5}"#;
    assert_eq!(scan_event_from_line(fss).as_ref().map(name_of), Some(("Col 285 A 1", false)));
    assert_eq!(scan_event_from_line(dss).as_ref().map(name_of), Some(("Col 285 A 2", true)));
    assert!(scan_event_from_line(belt).is_none());
    assert!(scan_event_from_line(other).is_none());
    assert!(scan_event_from_line(no_body).is_none());
    assert!(scan_event_from_line(non_string).is_none());
    assert!(scan_event_from_line("not json").is_none());
    assert!(scan_event_from_line("").is_none());
    assert!(scan_event_from_line("[1,2]").is_none());
}

#[test]
fn saa_scan_of_belt_cluster_counts() {
    let e = scan_event_from_fields(Some("SAAScanComplete"), Some("X Belt Cluster 1".to_string()));
    assert_eq!(e.as_ref().map(name_of), Some(("X Belt Cluster 1", true)));
    assert!(scan_event_from_fields(None, Some("X".to_string())).is_none());
    assert!(scan_event_from_fields(Some("Scan"), None).is_none());
}

#[test]
fn positions_advance_by_line_bytes() {
    let lines = vec![
        "{\"event\":\"Scan\",\"BodyName\":\"Sol 1\"}\n".to_string(),
        "ü\n".to_string(),
    ];
    // 35 bytes + newline, then 2 bytes + newline
    let (events, end) = check_for_scans(&lines, 100, 1000);
    assert_eq!(events.len(), 1);
    assert_eq!(end, 100 + 36 + 3);
    let (_, clamped) = check_for_scans(&lines, 100, 120);
    assert_eq!(clamped, 120);
    let (none, same) = check_for_scans(&[], 7, 10);
    assert!(none.is_empty());
    assert_eq!(same, 7);
}

#[test]
fn crlf_lines_count_every_byte() {
    let lines = vec![
        "{\"event\":\"SAAScanComplete\",\"BodyName\":\"Sol 2\"}\r\n".to_string(),
        "{\"event\":\"Scan\",\"BodyName\":\"Sol 3\"}\r\n".to_string(),
        "partial".to_string(),
    ];
    let total: u64 = lines.iter().map(|l| l.len() as u64).sum();
    let (events, end) = check_for_scans(&lines, 0, 10_000);
    assert_eq!(events.iter().map(name_of).collect::<Vec<_>>(), vec![("Sol 2", true), ("Sol 3", false)]);
    assert_eq!(end, total);
    // Resuming there reads nothing twice.
    assert_eq!(resume_position(Some(end), 10_000), total);
}

#[test]
fn terminators_are_stripped() {
    assert_eq!(strip_line_terminator("abc\r\n"), "abc");
    assert_eq!(strip_line_terminator("abc\n"), "abc");
    assert_eq!(strip_line_terminator("abc\r"), "abc\r");
    assert_eq!(strip_line_terminator("\n"), "");
    assert_eq!(strip_line_terminator("\r\n"), "");
    assert_eq!(strip_line_terminator("a\n\n"), "a\n");
    assert_eq!(strip_line_terminator(""), "");
}

#[test]
fn resume_restarts_on_shrunk_file() {
    assert_eq!(resume_position(None, 50), 0);
    assert_eq!(resume_position(Some(40), 50), 40);
    assert_eq!(resume_position(Some(50), 50), 50);
    assert_eq!(resume_position(Some(60), 50), 0);
}

fn route() -> Vec<SystemGroup> {
    let b = |n: &str, fss: bool, dss: bool| Body {
        body_name: n.to_string(),
        body_subtype: "Water world".to_string(),
        distance_bits: 0,
        fss_scanned: fss,
        dss_mapped: dss,
        status: String::new(),
    };
    vec![
        SystemGroup { name: "A".to_string(), jumps: 1, bodies: vec![b("A 1", false, false), b("A 2", true, false)] },
        SystemGroup { name: "B".to_string(), jumps: 2, bodies: vec![b("B 1", false, false)] },
    ]
}

#[test]
fn scans_mark_bodies_and_ask_for_sounds() {
    let mut groups = route();
    let events = vec![
        ScanEvent::FSS("A 1".to_string()),
        ScanEvent::FSS("A 2".to_string()),
        ScanEvent::DSS("B 1".to_string()),
        ScanEvent::DSS("Nowhere".to_string()),
    ];
    let sounds = apply_scan_events(&mut groups, &events);
    assert_eq!(sounds, vec![false, true]);
    assert!(groups[0].bodies[0].fss_scanned);
    assert!(!groups[0].bodies[0].dss_mapped);
    assert!(groups[1].bodies[0].dss_mapped);
    assert!(!groups[1].bodies[0].fss_scanned);
    // the same scans again change nothing
    let again = apply_scan_events(&mut groups, &events);
    assert!(again.is_empty());
}

#[test]
fn no_events_no_change() {
    let mut groups = route();
    assert!(apply_scan_events(&mut groups, &[]).is_empty());
    assert!(!groups[0].bodies[0].fss_scanned);
}

#[test]
fn polling_interval() {
    assert!(!log_check_due(0));
    assert!(!log_check_due(1));
    assert!(log_check_due(2));
    assert!(log_check_due(100));
}

#[test]
fn next_poll_resumes_where_reading_stopped() {
    let lines = vec!["{}\n".to_string(), "abc".to_string()];
    let (_, end) = check_for_scans(&lines, 5, 100);
    assert_eq!(end, 5 + 3 + 3);
    assert_eq!(resume_position(Some(end), 100), end);
    assert_eq!(resume_position(Some(end), 500), end);
    let (_, clamped) = check_for_scans(&lines, 5, 9);
    assert_eq!(clamped, 9);
    assert_eq!(resume_position(Some(clamped), 9), 9);
}

#[test]
fn changed_exactly_when_sound_requested() {
    let mut groups = route();
    let before: Vec<(bool, bool)> = groups.iter().flat_map(|g| g.bodies.iter().map(|b| (b.fss_scanned, b.dss_mapped))).collect();
    // A 2 already has its FSS scan: nothing changes, nothing sounds.
    let sounds = apply_scan_events(&mut groups, &[ScanEvent::FSS("A 2".to_string())]);
    let after: Vec<(bool, bool)> = groups.iter().flat_map(|g| g.bodies.iter().map(|b| (b.fss_scanned, b.dss_mapped))).collect();
    assert!(sounds.is_empty());
    assert_eq!(before, after);
    // One new scan: one sound, one flag more.
    let sounds = apply_scan_events(&mut groups, &[ScanEvent::DSS("A 2".to_string())]);
    assert_eq!(sounds, vec![true]);
    let flags: usize = groups.iter().flat_map(|g| g.bodies.iter()).map(|b| b.fss_scanned as usize + b.dss_mapped as usize).sum();
    assert_eq!(flags, 2);
}

#[test]
fn latest_journal_is_most_recent_first_on_tie() {
    assert_eq!(latest_log_index(&[]), None);
    assert_eq!(latest_log_index(&[5]), Some(0));
    assert_eq!(latest_log_index(&[5, 9, 2, 9]), Some(1));
    assert_eq!(latest_log_index(&[1, 2, 3]), Some(2));
}
