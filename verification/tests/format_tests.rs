use webcam_tracker::csvfmt::{escape_app_name, export_sessions_to_csv, i64_to_string};
use webcam_tracker::icon::{app_bundle_candidates, common_icon_names, icon_data_url, normalize_icon_name};
use webcam_tracker::monitor::{monitor_directive, MonitorDirective};
use webcam_tracker::parser::{extract_app_name, parse_log_line, CameraEvent, ParserState};
use webcam_tracker::session::{status_to_string, string_to_status, Session, SessionStatus};
use webcam_tracker::subsystem::{detect_subsystem, probe_hit, probe_marker_for, probe_predicate_for, Subsystem};
use webcam_tracker::timefmt::{rfc3339_to_ts, ts_to_rfc3339};

const NOW: i64 = 1_700_000_000;

// --- Diff-based parsing on a changed active-set ---

#[test]
fn controlcenter_diff_reports_symmetric_difference() {
    let mut state = ParserState::default();
    state.active_apps.push("A".to_string());
    state.active_apps.push("B".to_string());

    let line = "StatusBarServer[1]: activeCameraAttributions: [cam] B (b.id), [cam] C (c.id)";
    let events = parse_log_line(line, &Subsystem::ControlCenter, &mut state, NOW);
    assert_eq!(events.len(), 2);
    assert!(events.iter().any(
        |e| matches!(e, CameraEvent::Started { app_name, .. } if app_name == "C"),
    ));
    assert!(events.iter().any(
        |e| matches!(e, CameraEvent::Stopped { app_name, .. } if app_name == "A"),
    ));
    for e in &events {
        match e {
            CameraEvent::Started { timestamp, .. } => assert_eq!(*timestamp, NOW),
            CameraEvent::Stopped { timestamp, .. } => assert_eq!(*timestamp, NOW),
        }
    }

    assert_eq!(state.active_apps.len(), 2);
    assert!(state.active_apps.iter().any(|a| a == "B"));
    assert!(state.active_apps.iter().any(|a| a == "C"));
}

#[test]
fn controlcenter_same_line_twice_reports_once() {
    let mut state = ParserState::default();
    let line = "StatusBarServer[1]: activeCameraAttributions: [cam] FaceTime (com.apple.FaceTime)";
    let first = parse_log_line(line, &Subsystem::ControlCenter, &mut state, NOW);
    assert_eq!(first.len(), 1);
    let second = parse_log_line(line, &Subsystem::ControlCenter, &mut state, NOW + 1);
    assert!(second.is_empty());
}

// --- Transition-based parsing ---

#[test]
fn skylight_repeated_status_emits_once() {
    let mut state = ParserState::default();
    let line = "WindowServer[123]: camera status 1";
    let first = parse_log_line(line, &Subsystem::SkyLight, &mut state, NOW);
    assert_eq!(first.len(), 1);
    assert!(matches!(first[0], CameraEvent::Started { .. }));
    let second = parse_log_line(line, &Subsystem::SkyLight, &mut state, NOW + 1);
    assert!(second.is_empty());
}

#[test]
fn skylight_open_then_close_emits_both() {
    let mut state = ParserState::default();
    let open = parse_log_line(
        "WindowServer[123]: camera status 1",
        &Subsystem::SkyLight,
        &mut state,
        NOW,
    );
    assert_eq!(open.len(), 1);
    assert!(matches!(open[0], CameraEvent::Started { .. }));
    let close = parse_log_line(
        "WindowServer[123]: camera status 0",
        &Subsystem::SkyLight,
        &mut state,
        NOW + 5,
    );
    assert_eq!(close.len(), 1);
    assert!(matches!(close[0], CameraEvent::Stopped { .. }));
}

// --- Redacted capture lines ---

#[test]
fn cameracapture_private_line_never_yields_event() {
    let line = "FaceTime[1234]: <private> [AVCaptureSession startRunning]: called";
    let mut state = ParserState::default();
    let events = parse_log_line(line, &Subsystem::CameraCapture, &mut state, NOW);
    assert!(events.is_empty());
}

// --- App-name extraction ---

#[test]
fn extract_app_name_falls_back_to_unknown() {
    assert_eq!(extract_app_name("no matching tokens here"), "Unknown");
    // Brackets must enclose digits.
    assert_eq!(extract_app_name("weird[abc]: message"), "Unknown");
    assert_eq!(extract_app_name("WindowServer[123]: ok"), "WindowServer");
}

// --- Subsystem detection ---

#[test]
fn detection_follows_priority_order() {
    assert_eq!(detect_subsystem(true, true, true, true), Subsystem::ControlCenter);
    assert_eq!(detect_subsystem(false, true, true, true), Subsystem::SkyLight);
    assert_eq!(detect_subsystem(false, false, true, true), Subsystem::CameraCapture);
    assert_eq!(detect_subsystem(false, false, false, true), Subsystem::Cmio);
    // No probe succeeded: fall back to the most common subsystem.
    assert_eq!(detect_subsystem(false, false, false, false), Subsystem::ControlCenter);
}

#[test]
fn probe_hit_finds_marker_in_output() {
    let marker = probe_marker_for(&Subsystem::ControlCenter);
    assert!(probe_hit("... activeCameraAttributions: [cam] X ...", marker));
    assert!(!probe_hit("nothing of note", marker));
    assert!(!probe_predicate_for(&Subsystem::Cmio).is_empty());
}

// --- Monitoring loop directives ---

#[test]
fn monitor_directive_follows_tracking_and_run_state() {
    assert_eq!(monitor_directive(true, false), MonitorDirective::StartCapture);
    assert_eq!(monitor_directive(true, true), MonitorDirective::Idle);
    assert_eq!(monitor_directive(false, false), MonitorDirective::StopCapture);
    assert_eq!(monitor_directive(false, true), MonitorDirective::StopCapture);
}

// --- Timestamp text ---

#[test]
fn rfc3339_rendering_and_parsing() {
    assert_eq!(ts_to_rfc3339(0), "1970-01-01T00:00:00+00:00");
    assert_eq!(rfc3339_to_ts("1970-01-01T00:00:00+00:00"), Some(0));
    // An offset denotes the same instant.
    assert_eq!(rfc3339_to_ts("1970-01-01T01:00:00+01:00"), Some(0));
    assert_eq!(rfc3339_to_ts("not a timestamp"), None);
    let text = ts_to_rfc3339(NOW);
    assert_eq!(rfc3339_to_ts(&text), Some(NOW));
}

// --- Status text ---

#[test]
fn status_text_round_trips() {
    assert_eq!(status_to_string(&SessionStatus::Running), "running");
    assert_eq!(status_to_string(&SessionStatus::Completed), "completed");
    assert!(matches!(string_to_status("running"), SessionStatus::Running));
    assert!(matches!(string_to_status("completed"), SessionStatus::Completed));
    // Unrecognized text reads as completed.
    assert!(matches!(string_to_status("paused"), SessionStatus::Completed));
}

// --- CSV export ---

#[test]
fn csv_export_renders_header_and_rows() {
    let mut completed = Session::new("Face,Time".to_string(), 0);
    completed.close(3600);
    let running = Session::new("zoom.us".to_string(), 60);
    let sessions = vec![completed, running];

    let text = export_sessions_to_csv(&sessions);
    let expected = "App Name,Start Time,End Time,Duration (seconds),Status\n\
                    Face;Time,1970-01-01T00:00:00+00:00,1970-01-01T01:00:00+00:00,3600,Completed\n\
                    zoom.us,1970-01-01T00:01:00+00:00,,,Running\n";
    assert_eq!(text, expected);
}

#[test]
fn decimal_and_escape_helpers() {
    assert_eq!(i64_to_string(0), "0");
    assert_eq!(i64_to_string(12345), "12345");
    assert_eq!(escape_app_name("a,b,c"), "a;b;c");
    assert_eq!(escape_app_name("plain"), "plain");
}

// --- Icon helpers ---

#[test]
fn icon_data_url_encodes_png_bytes() {
    let png = vec![104u8, 101, 108, 108, 111];
    assert_eq!(icon_data_url(&png), "data:image/png;base64,aGVsbG8=");
    let empty: Vec<u8> = Vec::new();
    assert_eq!(icon_data_url(&empty), "data:image/png;base64,");
}

#[test]
fn icon_lookup_paths_and_names() {
    let candidates = app_bundle_candidates("Zoom", None);
    assert_eq!(
        candidates,
        vec![
            "/Applications/Zoom.app".to_string(),
            "/System/Applications/Zoom.app".to_string(),
            "/Applications/Utilities/Zoom.app".to_string(),
        ],
    );
    let home = "/Users/me".to_string();
    let with_home = app_bundle_candidates("Zoom", Some(&home));
    assert_eq!(with_home.len(), 4);
    assert_eq!(with_home[3], "/Users/me/Applications/Zoom.app");

    assert_eq!(common_icon_names(), vec!["AppIcon.icns", "app.icns", "icon.icns"]);
    assert_eq!(normalize_icon_name("AppIcon"), "AppIcon.icns");
    assert_eq!(normalize_icon_name("AppIcon.icns"), "AppIcon.icns");
}
