use guardrail::{nudge_message, ErrorTracker};

#[test]
fn budget_is_respected() {
    let mut t = ErrorTracker::new(2);
    assert!(t.can_retry());
    t.record_retry();
    assert!(t.can_retry());
    t.record_retry();
    assert!(!t.can_retry());
    assert_eq!(t.attempts(), 2);
}

#[test]
fn zero_budget_never_retries() {
    let t = ErrorTracker::new(0);
    assert!(!t.can_retry());
}

#[test]
fn nudge_is_a_user_message() {
    let m = nudge_message("try again");
    assert_eq!(m.get("role").and_then(|v| v.as_str()), Some("user"));
    assert_eq!(m.get("content").and_then(|v| v.as_str()), Some("try again"));
}

#[test]
fn fresh_tracker_has_no_attempts() {
    let t = ErrorTracker::new(5);
    assert_eq!(t.attempts(), 0);
    assert!(t.can_retry());
}

#[test]
fn nudge_message_text() {
    assert_eq!(nudge_message("x").to_text(), "{\"content\":\"x\",\"role\":\"user\"}");
}
