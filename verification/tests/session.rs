use wbwime::session::{SessionEvent, SessionManager, SessionState};
use wbwime::types::SessionConfig;

#[test]
fn sessions_are_numbered_in_order() {
    let mut m = SessionManager::new();
    let a = m.create_session();
    let b = m.create_session();
    assert_eq!((a, b), (1, 2));
    assert_eq!(m.active_count(), 2);
    assert_eq!(m.active_sessions(), vec![1, 2]);
    assert_eq!(m.get_session(a).map(|s| s.id()), Some(1));
    assert!(m.close_session(a));
    assert!(!m.close_session(a));
    assert!(m.get_session(a).is_none());
    let c = m.create_session();
    assert_eq!(c, 3);
    assert_eq!(m.active_sessions(), vec![2, 3]);
    m.close_all();
    assert_eq!(m.active_count(), 0);
    assert_eq!(m.create_session(), 4);
}

#[test]
fn session_configs() {
    let mut m = SessionManager::default();
    assert_eq!(m.default_config().max_candidates, 10);
    let cfg = SessionConfig { fuzzy_enabled: false, max_candidates: 5, ngram_enabled: false, user_dict_path: Some("u.cin".into()) };
    let id = m.create_session_with_config(cfg);
    let s = m.get_session(id).unwrap();
    assert_eq!(s.config().max_candidates, 5);
    assert!(!s.config().fuzzy_enabled);
    m.set_default_config(SessionConfig { fuzzy_enabled: true, max_candidates: 7, ngram_enabled: true, user_dict_path: None });
    let id2 = m.create_session();
    assert_eq!(m.get_session(id2).unwrap().config().max_candidates, 7);
}

#[test]
fn snapshots_are_kept_and_restored() {
    let mut s = SessionState::new(9, SessionConfig::default());
    s.context.push_char('n');
    s.context.push_char('i');
    s.save_snapshot();
    s.context.push_char('h');
    assert_eq!(s.snapshot_count(), 1);
    assert!(s.restore_snapshot(0));
    assert_eq!(s.context.buffer(), "ni");
    assert_eq!(s.context.current().session_id, 9);
    assert!(!s.restore_snapshot(1));
    for _ in 0..60 {
        s.save_snapshot();
    }
    assert_eq!(s.snapshot_count(), 50);
    s.clear_snapshots();
    assert_eq!(s.snapshot_count(), 0);
}

#[test]
fn timeouts_and_durations() {
    let mut s = SessionState::new(1, SessionConfig::default());
    s.last_active = 100;
    s.created_at = 50;
    assert!(!s.is_timeout_at(150, 60));
    assert!(s.is_timeout_at(161, 60));
    assert!(!s.is_timeout_at(90, 0));
    assert_eq!(s.duration_secs_at(80), 30);
    assert_eq!(s.duration_secs_at(10), 0);
    s.touch();
    assert!(!s.is_timeout(60));
    assert!(s.duration_secs() > 0);
}

#[test]
fn save_snapshot_through_manager() {
    let mut m = SessionManager::new();
    let id = m.create_session();
    assert!(m.save_snapshot_in(id));
    assert!(!m.save_snapshot_in(id + 1));
    assert_eq!(m.get_session(id).unwrap().snapshot_count(), 1);
    match SessionEvent::Error(id, "boom".into()) {
        SessionEvent::Error(n, msg) => assert_eq!((n, msg.as_str()), (1, "boom")),
        _ => panic!("wrong event"),
    }
}
