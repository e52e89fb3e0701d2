use markermaker::session::{MarkerApp, SessionError};

fn record(index: &str, tc: &str, name: &str) -> String {
    format!(
        "{index} 001 V C {tc}:00 {tc}:01 {tc}:00 {tc}:01\n |C:ResolveColorBlue |M:{name} |D:1\n"
    )
}

#[test]
fn new_session_is_idle_and_empty() {
    let app = MarkerApp::new(500, 1_700_000_000);
    assert!(!app.is_running());
    assert_eq!(app.len(), 0);
    assert_eq!(app.encode(), "");
}

#[test]
fn trigger_while_idle_changes_nothing() {
    let mut app = MarkerApp::new(0, 10);
    assert_eq!(app.add_marker(5_000), None);
    assert_eq!(app.len(), 0);
    app.start(6_000, 11).unwrap();
    app.add_marker(7_000).unwrap();
    app.stop().unwrap();
    let before = app.encode();
    assert_eq!(app.add_marker(9_000), None);
    assert_eq!(app.len(), 1);
    assert_eq!(app.encode(), before);
}

#[test]
fn start_then_trigger_gives_one_marker_at_elapsed_time() {
    let mut app = MarkerApp::new(0, 10);
    assert_eq!(app.start(1_000, 1_700_000_000), Ok(()));
    assert!(app.is_running());
    assert_eq!(app.len(), 0);
    let text = app.add_marker(71_500).unwrap();
    assert_eq!(app.len(), 1);
    assert_eq!(app.markers()[0].time_ms, 70_500);
    assert_eq!(app.markers()[0].name, "Marker");
    assert_eq!(text, record("001", "01:01:10", "Marker"));
    assert_eq!(app.file_name(), "1700000000.edl");
}

#[test]
fn n_triggers_give_n_numbered_records() {
    let mut app = MarkerApp::new(0, 10);
    app.start(0, 10).unwrap();
    let mut text = String::new();
    for k in 0..12u64 {
        text = app.add_marker(k * 1_000).unwrap();
    }
    let lines: Vec<&str> = text.lines().collect();
    assert_eq!(lines.len(), 24);
    for k in 0..12usize {
        assert!(lines[2 * k].starts_with(&format!("{:03} 001 V C ", k + 1)));
        assert!(lines[2 * k + 1].starts_with(" |C:ResolveColorBlue |M:"));
    }
    let times: Vec<u64> = app.markers().iter().map(|m| m.time_ms).collect();
    assert!(times.windows(2).all(|w| w[0] <= w[1]));
    assert_eq!(app.encode(), text);
}

#[test]
fn rename_changes_only_that_record() {
    let mut app = MarkerApp::new(0, 10);
    app.start(0, 10).unwrap();
    app.add_marker(1_000).unwrap();
    app.add_marker(2_000).unwrap();
    let before = app.add_marker(3_000).unwrap();
    let after = app.rename(1, "X".to_string()).unwrap();
    let b: Vec<&str> = before.lines().collect();
    let a: Vec<&str> = after.lines().collect();
    assert_eq!(a.len(), b.len());
    for i in 0..a.len() {
        if i == 3 {
            assert_eq!(a[i], " |C:ResolveColorBlue |M:X |D:1");
        } else {
            assert_eq!(a[i], b[i]);
        }
    }
    assert_eq!(app.markers()[1].time_ms, 2_000);
}

#[test]
fn rename_out_of_range_is_not_found() {
    let mut app = MarkerApp::new(0, 10);
    assert_eq!(app.rename(0, "X".to_string()), Err(SessionError::NotFound));
    app.start(0, 10).unwrap();
    app.add_marker(1_000).unwrap();
    let before = app.encode();
    assert_eq!(app.rename(1, "X".to_string()), Err(SessionError::NotFound));
    assert_eq!(app.encode(), before);
}

#[test]
fn rename_works_while_idle() {
    let mut app = MarkerApp::new(0, 10);
    app.start(0, 10).unwrap();
    app.add_marker(2_000).unwrap();
    app.stop().unwrap();
    let text = app.rename(0, "Intro".to_string()).unwrap();
    assert_eq!(text, record("001", "01:00:02", "Intro"));
}

#[test]
fn second_start_forgets_earlier_markers() {
    let mut app = MarkerApp::new(0, 10);
    app.start(0, 10).unwrap();
    app.add_marker(1_000).unwrap();
    app.rename(0, "Old".to_string()).unwrap();
    app.stop().unwrap();
    assert_eq!(app.len(), 1);
    app.start(10_000, 20).unwrap();
    assert_eq!(app.len(), 0);
    assert_eq!(app.encode(), "");
    let text = app.add_marker(15_000).unwrap();
    assert!(!text.contains("Old"));
    assert_eq!(text, record("001", "01:00:05", "Marker"));
    assert_eq!(app.file_name(), "20.edl");
}

#[test]
fn start_while_recording_is_refused() {
    let mut app = MarkerApp::new(0, 10);
    app.start(0, 10).unwrap();
    app.add_marker(1_000).unwrap();
    assert_eq!(app.start(2_000, 12), Err(SessionError::AlreadyRecording));
    assert_eq!(app.len(), 1);
    assert_eq!(app.file_name(), "10.edl");
}

#[test]
fn stop_while_idle_is_refused() {
    let mut app = MarkerApp::new(0, 10);
    assert_eq!(app.stop(), Err(SessionError::NotRecording));
    app.start(0, 10).unwrap();
    assert_eq!(app.stop(), Ok(()));
    assert!(!app.is_running());
}

#[test]
fn encoding_same_snapshot_twice_is_identical() {
    let mut app = MarkerApp::new(0, 10);
    app.start(0, 10).unwrap();
    app.add_marker(4_000).unwrap();
    app.add_marker(4_000).unwrap();
    assert_eq!(app.encode().as_bytes(), app.encode().as_bytes());
}

#[test]
fn display_clock_runs_only_while_recording() {
    let mut app = MarkerApp::new(0, 10);
    assert_eq!(app.display_timecode(90_000), "01:00:00");
    app.start(1_000, 10).unwrap();
    assert_eq!(app.display_timecode(3_662_000), "02:01:01");
    app.stop().unwrap();
    assert_eq!(app.display_timecode(3_662_000), "01:00:00");
}
