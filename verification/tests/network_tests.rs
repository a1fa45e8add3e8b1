use bank_protocol::network::{once_send_complete, PeerLoop, Registry};

#[test]
fn error_budget_stops_after_six_consecutive_errors() {
    let mut actor = PeerLoop::new();
    for _ in 0..5 {
        assert!(!actor.on_error());
    }
    assert!(actor.on_error());
}

#[test]
fn any_success_resets_the_error_budget() {
    let mut actor = PeerLoop::new();
    for _ in 0..5 {
        assert!(!actor.on_error());
    }
    actor.on_success();
    for _ in 0..5 {
        assert!(!actor.on_error());
    }
    assert!(actor.on_error());
}

#[test]
fn stopping_clears_the_liveness_flag() {
    let mut actor = PeerLoop::new();
    assert!(actor.should_continue());
    actor.stop();
    assert!(!actor.should_continue());
}

#[test]
fn once_send_reports_partial_sends() {
    assert!(once_send_complete(10, 10));
    assert!(!once_send_complete(7, 10));
}

#[test]
fn registry_insert_evicts_same_address() {
    let mut reg = Registry::new();
    assert!(!reg.insert("1.2.3.4:5".to_owned()));
    assert!(!reg.insert("6.7.8.9:1".to_owned()));
    assert_eq!(reg.len(), 2);
    // A new session from a known address replaces the old entry.
    assert!(reg.insert("1.2.3.4:5".to_owned()));
    assert_eq!(reg.len(), 2);
}

#[test]
fn registry_sweep_drops_dead_entries() {
    let mut reg = Registry::new();
    reg.insert("a".to_owned());
    reg.insert("b".to_owned());
    reg.insert("c".to_owned());
    reg.mark_dead(&"b".to_owned());
    reg.sweep();
    assert_eq!(reg.len(), 2);
    reg.mark_dead(&"a".to_owned());
    reg.mark_dead(&"c".to_owned());
    reg.sweep();
    assert_eq!(reg.len(), 0);
}
