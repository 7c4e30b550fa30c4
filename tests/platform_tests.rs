use securevault::platform::{ClipboardManager, IdleDetector, SessionLock};

#[test]
fn idle_after_timeout() {
    let mut d = IdleDetector::new(300, 1000);
    assert!(!d.is_idle(1299));
    assert!(d.is_idle(1300));
    d.record_activity(1200);
    assert!(!d.is_idle(1300));
    assert!(!d.is_idle(900));
}

#[test]
fn auto_lock_sets_flag() {
    let mut s = SessionLock::new();
    assert!(s.locked);
    s.unlocked();
    assert!(!s.locked);
    let d = IdleDetector::new(300, 0);
    assert!(!s.check_auto_lock(&d, 10));
    assert!(!s.locked);
    assert!(s.check_auto_lock(&d, 300));
    assert!(s.locked);
}

#[test]
fn clipboard_clear_due() {
    let c = ClipboardManager::new(30);
    assert_eq!(c.clear_timeout_secs, 30);
    assert!(!c.clear_due(100, 129));
    assert!(c.clear_due(100, 130));
}
