use webcam_tracker::manager::SessionManager;
use webcam_tracker::parser::CameraEvent;
use webcam_tracker::session::{Session, SessionStatus};
use webcam_tracker::store::SessionStore;

fn fresh_manager() -> SessionManager {
    SessionManager::new(SessionStore::new())
}

// --- Session overlap ---

#[test]
fn overlap_closes_first_session_before_second() {
    let mut mgr = fresh_manager();
    let id1 = mgr.start_session("Zoom".to_string(), 100);
    let id2 = mgr.start_session("Zoom".to_string(), 200);
    assert_ne!(id1, id2);

    let rows = mgr.get_all_sessions();
    assert_eq!(rows.len(), 2);
    let zoom: Vec<&Session> = rows.iter().filter(|r| r.app_name == "Zoom").collect();
    assert_eq!(zoom.len(), 2);

    let completed: Vec<&&Session> = zoom
        .iter()
        .filter(|r| matches!(r.status, SessionStatus::Completed))
        .collect();
    let running: Vec<&&Session> = zoom
        .iter()
        .filter(|r| matches!(r.status, SessionStatus::Running))
        .collect();
    assert_eq!(completed.len(), 1);
    assert_eq!(running.len(), 1);
    assert_eq!(completed[0].id, Some(id1));
    assert_eq!(completed[0].end_time, Some(200));
    assert_eq!(completed[0].duration_secs, Some(100));
    assert_eq!(running[0].id, Some(id2));
    assert_eq!(running[0].end_time, None);
}

#[test]
fn overlap_leaves_other_apps_untouched() {
    let mut mgr = fresh_manager();
    let other = mgr.start_session("FaceTime".to_string(), 50);
    let _ = mgr.start_session("Zoom".to_string(), 100);
    let _ = mgr.start_session("Zoom".to_string(), 200);

    let rows = mgr.get_all_sessions();
    let facetime: Vec<&Session> = rows.iter().filter(|r| r.app_name == "FaceTime").collect();
    assert_eq!(facetime.len(), 1);
    assert_eq!(facetime[0].id, Some(other));
    assert!(matches!(facetime[0].status, SessionStatus::Running));
}

// --- Recovery ---

#[test]
fn recovery_completes_orphaned_running_session() {
    // A run that ends without closing its session...
    let mut mgr = fresh_manager();
    let _ = mgr.start_session("Zoom".to_string(), 100);
    let persisted = mgr.get_all_sessions();

    // ...and the next run recovers it at startup.
    let store = SessionStore::from_rows(persisted);
    let mut mgr2 = SessionManager::new(store);
    mgr2.recover_orphaned_sessions(150);

    let rows = mgr2.get_all_sessions();
    assert_eq!(rows.len(), 1);
    assert!(matches!(rows[0].status, SessionStatus::Completed));
    assert_eq!(rows[0].end_time, Some(150));
    assert_eq!(rows[0].duration_secs, Some(50));
    assert!(rows[0].duration_secs.unwrap() >= 0);
}

#[test]
fn recovery_clamps_duration_at_zero() {
    // Clock skew: recovery time before the recorded start.
    let mut mgr = fresh_manager();
    let _ = mgr.start_session("Zoom".to_string(), 500);
    let store = SessionStore::from_rows(mgr.get_all_sessions());
    let mut mgr2 = SessionManager::new(store);
    mgr2.recover_orphaned_sessions(400);

    let rows = mgr2.get_all_sessions();
    assert_eq!(rows.len(), 1);
    assert_eq!(rows[0].duration_secs, Some(0));
}

#[test]
fn recovery_leaves_completed_rows_alone() {
    let mut mgr = fresh_manager();
    let _ = mgr.start_session("Zoom".to_string(), 100);
    let _ = mgr.end_session_for_app("Zoom", 120);
    let store = SessionStore::from_rows(mgr.get_all_sessions());
    let mut mgr2 = SessionManager::new(store);
    mgr2.recover_orphaned_sessions(150);

    let rows = mgr2.get_all_sessions();
    assert_eq!(rows.len(), 1);
    assert_eq!(rows[0].end_time, Some(120));
    assert_eq!(rows[0].duration_secs, Some(20));
}

// --- Round trip through the string form ---

#[test]
fn round_trip_completed_session() {
    let mut store = SessionStore::new();
    let s = Session::new("FaceTime".to_string(), 1000);
    let id = store.insert_session(&s);
    assert!(store.update_session(id, 1500));

    let rows = store.get_all_sessions();
    assert_eq!(rows.len(), 1);
    let row = &rows[0];
    let dto = row.to_dto();
    let back = dto.to_session().expect("timestamps round-trip");
    assert_eq!(back.id, row.id);
    assert_eq!(back.app_name, "FaceTime");
    assert_eq!(back.start_time, 1000);
    assert_eq!(back.end_time, Some(1500));
    assert_eq!(back.duration_secs, Some(500));
    assert!(matches!(back.status, SessionStatus::Completed));
}

#[test]
fn round_trip_running_session() {
    let s = Session::new("zoom.us".to_string(), 1_700_000_000);
    let dto = s.to_dto();
    assert_eq!(dto.end_time, None);
    assert_eq!(dto.status, "running");
    let back = dto.to_session().expect("timestamp round-trips");
    assert_eq!(back.app_name, "zoom.us");
    assert_eq!(back.start_time, 1_700_000_000);
    assert_eq!(back.end_time, None);
    assert_eq!(back.duration_secs, None);
    assert!(matches!(back.status, SessionStatus::Running));
}

// --- Ending sessions ---

#[test]
fn end_session_without_active_session_is_a_noop() {
    let mut mgr = fresh_manager();
    let _ = mgr.start_session("Zoom".to_string(), 100);

    let closed = mgr.end_session_for_app("Slack", 150);
    assert!(!closed);

    let rows = mgr.get_all_sessions();
    assert_eq!(rows.len(), 1);
    assert!(matches!(rows[0].status, SessionStatus::Running));
    assert_eq!(rows[0].end_time, None);
    assert!(mgr.has_active_sessions());
}

#[test]
fn end_session_closes_and_reports() {
    let mut mgr = fresh_manager();
    let id = mgr.start_session("Zoom".to_string(), 100);
    let closed = mgr.end_session_for_app("Zoom", 160);
    assert!(closed);
    assert!(!mgr.has_active_sessions());

    let rows = mgr.get_all_sessions();
    assert_eq!(rows.len(), 1);
    assert_eq!(rows[0].id, Some(id));
    assert_eq!(rows[0].end_time, Some(160));
    assert_eq!(rows[0].duration_secs, Some(60));
    assert!(matches!(rows[0].status, SessionStatus::Completed));

    // A second end for the same app reports nothing closed.
    assert!(!mgr.end_session_for_app("Zoom", 170));
}

#[test]
fn end_all_active_sessions_closes_every_app() {
    let mut mgr = fresh_manager();
    let _ = mgr.start_session("Zoom".to_string(), 100);
    let _ = mgr.start_session("FaceTime".to_string(), 110);
    assert!(mgr.has_active_sessions());

    mgr.end_all_active_sessions(200);
    assert!(!mgr.has_active_sessions());
    let rows = mgr.get_all_sessions();
    assert_eq!(rows.len(), 2);
    for row in &rows {
        assert!(matches!(row.status, SessionStatus::Completed));
        assert_eq!(row.end_time, Some(200));
    }
}

// --- Tracking flag ---

#[test]
fn pause_and_resume_toggle_tracking_and_close_sessions() {
    let mut mgr = fresh_manager();
    assert!(!mgr.is_tracking());
    mgr.resume_tracking(10);
    assert!(mgr.is_tracking());

    let _ = mgr.start_session("Zoom".to_string(), 20);
    mgr.pause_tracking(30);
    assert!(!mgr.is_tracking());
    assert!(!mgr.has_active_sessions());
    let rows = mgr.get_all_sessions();
    assert_eq!(rows.len(), 1);
    assert!(matches!(rows[0].status, SessionStatus::Completed));
}

// --- Queries ---

#[test]
fn get_all_sessions_orders_most_recent_first() {
    let mut mgr = fresh_manager();
    let _ = mgr.start_session("A".to_string(), 100);
    let _ = mgr.start_session("B".to_string(), 300);
    let _ = mgr.start_session("C".to_string(), 200);

    let rows = mgr.get_all_sessions();
    assert_eq!(rows.len(), 3);
    assert_eq!(rows[0].start_time, 300);
    assert_eq!(rows[1].start_time, 200);
    assert_eq!(rows[2].start_time, 100);
}

#[test]
fn get_active_sessions_returns_only_running_rows() {
    let mut mgr = fresh_manager();
    let _ = mgr.start_session("A".to_string(), 100);
    let _ = mgr.start_session("B".to_string(), 200);
    let _ = mgr.end_session_for_app("A", 250);

    let active = mgr.get_active_sessions();
    assert_eq!(active.len(), 1);
    assert_eq!(active[0].app_name, "B");
    assert!(matches!(active[0].status, SessionStatus::Running));
}

#[test]
fn get_active_session_picks_most_recent_running_row() {
    let mut store = SessionStore::new();
    let _ = store.insert_session(&Session::new("A".to_string(), 100));
    let b = store.insert_session(&Session::new("B".to_string(), 300));
    let _ = store.insert_session(&Session::new("C".to_string(), 200));

    let top = store.get_active_session().expect("running rows exist");
    assert_eq!(top.id, Some(b));
    assert_eq!(top.start_time, 300);

    let empty = SessionStore::new();
    assert!(empty.get_active_session().is_none());
}

// --- Loading persisted rows ---

#[test]
fn from_rows_keeps_valid_rows_and_skips_unidentified_ones() {
    let mut mgr = fresh_manager();
    let id = mgr.start_session("Zoom".to_string(), 100);
    let mut rows = mgr.get_all_sessions();
    // A row that was never persisted has no identity and is skipped.
    rows.push(Session::new("Ghost".to_string(), 50));

    let store = SessionStore::from_rows(rows);
    let kept = store.get_all_sessions();
    assert_eq!(kept.len(), 1);
    assert_eq!(kept[0].id, Some(id));

    // New identities never collide with the loaded ones.
    let mut mgr2 = SessionManager::new(store);
    let id2 = mgr2.start_session("FaceTime".to_string(), 400);
    assert!(id2 > id);
}

// --- Event routing ---

#[test]
fn apply_event_routes_started_and_stopped() {
    let mut mgr = fresh_manager();
    let started = CameraEvent::Started {
        app_name: "Zoom".to_string(),
        timestamp: 100,
    };
    let id = mgr.apply_event(&started).expect("a new session identity");

    let stopped = CameraEvent::Stopped {
        app_name: "Zoom".to_string(),
        timestamp: 180,
    };
    assert!(mgr.apply_event(&stopped).is_none());

    let rows = mgr.get_all_sessions();
    assert_eq!(rows.len(), 1);
    assert_eq!(rows[0].id, Some(id));
    assert_eq!(rows[0].end_time, Some(180));
    assert_eq!(rows[0].duration_secs, Some(80));
    assert!(matches!(rows[0].status, SessionStatus::Completed));
}
