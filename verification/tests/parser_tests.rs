use webcam_tracker::parser::{parse_log_line, CameraEvent, ParserState};
use webcam_tracker::subsystem::{predicate_for, Subsystem};

const NOW: i64 = 1_700_000_000;

// --- Detection / Predicate tests ---

#[test]
fn test_predicate_strings_are_non_empty() {
    for sub in [
        Subsystem::ControlCenter,
        Subsystem::SkyLight,
        Subsystem::CameraCapture,
        Subsystem::Cmio,
    ] {
        assert!(!predicate_for(&sub).is_empty());
    }
}

// --- CameraCapture parser tests ---

#[test]
fn test_cameracapture_start() {
    let line = "2025-06-10 14:23:01.123456-0700  0x1a2b  Default  0x0  123  0  FaceTime[1234]: (com.apple.cameracapture) [AVCaptureSession startRunning]: called";
    let mut state = ParserState::default();
    let events = parse_log_line(line, &Subsystem::CameraCapture, &mut state, NOW);
    assert_eq!(events.len(), 1);
    match &events[0] {
        CameraEvent::Started { app_name, .. } => assert_eq!(app_name, "FaceTime"),
        _ => panic!("Expected Started event"),
    }
}

#[test]
fn test_cameracapture_stop() {
    let line = "2025-06-10 14:25:01.654321-0700  0x1a2b  Default  0x0  123  0  FaceTime[1234]: (com.apple.cameracapture) [AVCaptureSession stopRunning]: called";
    let mut state = ParserState::default();
    let events = parse_log_line(line, &Subsystem::CameraCapture, &mut state, NOW);
    assert_eq!(events.len(), 1);
    match &events[0] {
        CameraEvent::Stopped { app_name, .. } => assert_eq!(app_name, "FaceTime"),
        _ => panic!("Expected Stopped event"),
    }
}

#[test]
fn test_cameracapture_skip_private() {
    let line = "2025-06-10 14:23:01.123456-0700  FaceTime[1234]: <private>";
    let mut state = ParserState::default();
    let events = parse_log_line(line, &Subsystem::CameraCapture, &mut state, NOW);
    assert!(events.is_empty());
}

#[test]
fn test_cameracapture_skip_filter_header() {
    let line = "Filtering the log data using ...";
    let mut state = ParserState::default();
    let events = parse_log_line(line, &Subsystem::CameraCapture, &mut state, NOW);
    assert!(events.is_empty());
}

#[test]
fn test_cameracapture_skip_backtrace() {
    let line = "  0  CoreMedia  backtrace ...";
    let mut state = ParserState::default();
    let events = parse_log_line(line, &Subsystem::CameraCapture, &mut state, NOW);
    assert!(events.is_empty());
}

#[test]
fn test_cameracapture_unrelated_line() {
    let line = "2025-06-10 14:23:01.123456-0700  kernel[0]: some other message";
    let mut state = ParserState::default();
    let events = parse_log_line(line, &Subsystem::CameraCapture, &mut state, NOW);
    assert!(events.is_empty());
}

#[test]
fn test_cameracapture_zoom_app_name() {
    let line = "2025-06-10 14:23:01.123456-0700  0x1a2b  Default  0x0  456  0  zoom.us[5678]: (com.apple.cameracapture) [AVCaptureSession startRunning]: called";
    let mut state = ParserState::default();
    let events = parse_log_line(line, &Subsystem::CameraCapture, &mut state, NOW);
    assert_eq!(events.len(), 1);
    match &events[0] {
        CameraEvent::Started { app_name, .. } => assert_eq!(app_name, "zoom.us"),
        _ => panic!("Expected Started event"),
    }
}

// --- ControlCenter parser tests ---

#[test]
fn test_controlcenter_single_app_start() {
    let line = "2025-06-10 14:23:01 StatusBarServer[123]: activeCameraAttributions: [cam] FaceTime (com.apple.FaceTime)";
    let mut state = ParserState::default();
    let events = parse_log_line(line, &Subsystem::ControlCenter, &mut state, NOW);
    assert_eq!(events.len(), 1);
    match &events[0] {
        CameraEvent::Started { app_name, .. } => assert_eq!(app_name, "FaceTime"),
        _ => panic!("Expected Started event"),
    }
}

#[test]
fn test_controlcenter_app_stop() {
    let mut state = ParserState::default();
    state.active_apps.push("FaceTime".to_string());

    // Empty attributions line = camera turned off
    let line = "2025-06-10 14:25:01 StatusBarServer[123]: activeCameraAttributions: (none)";
    let events = parse_log_line(line, &Subsystem::ControlCenter, &mut state, NOW);
    assert_eq!(events.len(), 1);
    match &events[0] {
        CameraEvent::Stopped { app_name, .. } => assert_eq!(app_name, "FaceTime"),
        _ => panic!("Expected Stopped event"),
    }
}

#[test]
fn test_controlcenter_two_apps_one_stops() {
    let mut state = ParserState::default();
    state.active_apps.push("FaceTime".to_string());
    state.active_apps.push("zoom.us".to_string());

    // Only FaceTime remains
    let line = "2025-06-10 14:25:01 StatusBarServer[123]: activeCameraAttributions: [cam] FaceTime (com.apple.FaceTime)";
    let events = parse_log_line(line, &Subsystem::ControlCenter, &mut state, NOW);
    assert_eq!(events.len(), 1);
    match &events[0] {
        CameraEvent::Stopped { app_name, .. } => assert_eq!(app_name, "zoom.us"),
        _ => panic!("Expected Stopped event"),
    }
}

#[test]
fn test_controlcenter_no_change_no_events() {
    let mut state = ParserState::default();
    state.active_apps.push("FaceTime".to_string());

    let line = "2025-06-10 14:25:01 StatusBarServer[123]: activeCameraAttributions: [cam] FaceTime (com.apple.FaceTime)";
    let events = parse_log_line(line, &Subsystem::ControlCenter, &mut state, NOW);
    assert!(events.is_empty());
}

// --- SkyLight parser tests ---

#[test]
fn test_skylight_camera_opened() {
    let mut state = ParserState::default();
    let line = "2025-06-10 14:23:01 WindowServer[123]: camera status 1";
    let events = parse_log_line(line, &Subsystem::SkyLight, &mut state, NOW);
    assert_eq!(events.len(), 1);
    match &events[0] {
        CameraEvent::Started { .. } => {}
        _ => panic!("Expected Started event"),
    }
}

#[test]
fn test_skylight_camera_closed() {
    let mut state = ParserState {
        skylight_state: Some(true),
        ..Default::default()
    };
    let line = "2025-06-10 14:25:01 WindowServer[123]: camera status 0";
    let events = parse_log_line(line, &Subsystem::SkyLight, &mut state, NOW);
    assert_eq!(events.len(), 1);
    match &events[0] {
        CameraEvent::Stopped { .. } => {}
        _ => panic!("Expected Stopped event"),
    }
}

#[test]
fn test_skylight_duplicate_open_ignored() {
    let mut state = ParserState {
        skylight_state: Some(true),
        ..Default::default()
    };
    let line = "2025-06-10 14:25:01 WindowServer[123]: camera status 1";
    let events = parse_log_line(line, &Subsystem::SkyLight, &mut state, NOW);
    assert!(events.is_empty());
}

// --- CMIO parser tests ---

#[test]
fn test_cmio_start_stream() {
    let mut state = ParserState::default();
    let line = "2025-06-10 14:23:01 some_app[456]: CMIODeviceStartStream device 0x1234";
    let events = parse_log_line(line, &Subsystem::Cmio, &mut state, NOW);
    assert_eq!(events.len(), 1);
    match &events[0] {
        CameraEvent::Started { app_name, .. } => assert_eq!(app_name, "some_app"),
        _ => panic!("Expected Started event"),
    }
}

#[test]
fn test_cmio_stop_stream() {
    let mut state = ParserState::default();
    let line = "2025-06-10 14:25:01 some_app[456]: CMIODeviceStopStream device 0x1234";
    let events = parse_log_line(line, &Subsystem::Cmio, &mut state, NOW);
    assert_eq!(events.len(), 1);
    match &events[0] {
        CameraEvent::Stopped { app_name, .. } => assert_eq!(app_name, "some_app"),
        _ => panic!("Expected Stopped event"),
    }
}

#[test]
fn test_cmio_start_running() {
    let mut state = ParserState::default();
    let line = "2025-06-10 14:23:01 zoom.us[789]: startRunning session";
    let events = parse_log_line(line, &Subsystem::Cmio, &mut state, NOW);
    assert_eq!(events.len(), 1);
    match &events[0] {
        CameraEvent::Started { app_name, .. } => assert_eq!(app_name, "zoom.us"),
        _ => panic!("Expected Started event"),
    }
}

// --- extract_cam_apps helper tests ---

#[test]
fn test_extract_cam_apps_multiple() {
    let line = "activeCameraAttributions: [cam] FaceTime (com.apple.FaceTime), [cam] zoom.us (us.zoom.xos)";
    let apps = webcam_tracker::parser::extract_cam_apps(line);
    assert!(apps.iter().any(|a| a == "FaceTime"));
    assert!(apps.iter().any(|a| a == "zoom.us"));
    assert_eq!(apps.len(), 2);
}

#[test]
fn test_extract_cam_apps_empty() {
    let line = "activeCameraAttributions: (none)";
    let apps = webcam_tracker::parser::extract_cam_apps(line);
    assert!(apps.is_empty());
}
