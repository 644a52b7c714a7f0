use lspmux_cc_mcp::correlator::Correlator;
use lspmux_cc_mcp::frame::encode_frame;
use lspmux_cc_mcp::message::{encode_notification, encode_request};
use lspmux_cc_mcp::session::{
    Delivery, LifecycleEvent, Phase, Session, SessionError, WaitOutcome,
};

fn ready_session() -> Session<&'static str> {
    let mut s = Session::new();
    s.on_event(LifecycleEvent::Spawned);
    s.on_event(LifecycleEvent::HandshakeSucceeded);
    s
}

#[test]
fn identifiers_are_distinct_and_increasing() {
    let mut c: Correlator<u32> = Correlator::new();
    let ids: Vec<i64> = (0..50).map(|w| c.register(w).unwrap()).collect();
    assert_eq!(ids[0], 1);
    for pair in ids.windows(2) {
        assert!(pair[0] < pair[1]);
    }
    assert_eq!(c.pending_count(), 50);
}

#[test]
fn response_resolves_exactly_its_waiter() {
    let mut c: Correlator<&str> = Correlator::new();
    let a = c.register("a").unwrap();
    let b = c.register("b").unwrap();
    let d = c.register("c").unwrap();
    assert_eq!(c.resolve(b), Some("b"));
    assert_eq!(c.resolve(b), None);
    assert!(c.is_pending(a) && c.is_pending(d));
    assert_eq!(c.resolve(d), Some("c"));
    assert_eq!(c.resolve(a), Some("a"));
    assert_eq!(c.resolve(99), None);
    assert_eq!(c.pending_count(), 0);
}

#[test]
fn abandon_and_drain() {
    let mut c: Correlator<u8> = Correlator::new();
    let a = c.register(1).unwrap();
    c.register(2).unwrap();
    c.register(3).unwrap();
    assert!(c.abandon(a));
    assert!(!c.abandon(a));
    assert_eq!(c.drain_all(), 2);
    assert_eq!(c.pending_count(), 0);
    assert_eq!(c.register(4), Some(4));
}

#[test]
fn request_frames_carry_the_identifier() {
    let mut s = ready_session();
    let first = s.begin_request("w1", "textDocument/hover", b"{}").unwrap();
    let second = s.begin_request("w2", "textDocument/hover", b"{}").unwrap();
    assert_eq!(first.id, 1);
    assert_eq!(second.id, 2);
    assert_eq!(first.frame, encode_frame(&encode_request(1, "textDocument/hover", b"{}")));
    assert_eq!(s.pending_count(), 2);
    let note = s.notification("initialized", b"{}").unwrap();
    assert_eq!(note, encode_frame(&encode_notification("initialized", b"{}")));
}

#[test]
fn delivery_by_identifier() {
    let mut s = ready_session();
    let a = s.begin_request("a", "m", b"null").unwrap().id;
    let b = s.begin_request("b", "m", b"null").unwrap().id;
    assert!(matches!(s.deliver(Some(b)), Delivery::Resolved("b")));
    assert!(matches!(s.deliver(Some(b)), Delivery::Unmatched(k) if k == b));
    assert!(matches!(s.deliver(None), Delivery::Notification));
    assert!(matches!(s.deliver(Some(a)), Delivery::Resolved("a")));
    assert_eq!(s.pending_count(), 0);
}

#[test]
fn timeout_removes_the_entry() {
    let mut s = ready_session();
    let a = s.begin_request("a", "m", b"null").unwrap().id;
    let b = s.begin_request("b", "m", b"null").unwrap().id;
    assert_eq!(s.pending_count(), 2);
    let r: Result<u8, SessionError> = s.finish_wait(a, WaitOutcome::TimedOut);
    assert_eq!(r, Err(SessionError::TimedOut));
    assert_eq!(s.pending_count(), 1);
    assert!(matches!(s.deliver(Some(a)), Delivery::Unmatched(_)));
    let closed: Result<u8, SessionError> = s.finish_wait(b, WaitOutcome::Closed);
    assert_eq!(closed, Err(SessionError::ConnectionLost));
    let answered: Result<u8, SessionError> = s.finish_wait(b, WaitOutcome::Answered(5));
    assert_eq!(answered, Ok(5));
    assert_eq!(s.pending_count(), 0);
    assert_eq!(s.phase(), Phase::Ready);
}

#[test]
fn request_send_failure_cleans_pending_entry() {
    let mut s = ready_session();
    let id = s.begin_request("w", "shutdown", b"null").unwrap().id;
    assert!(s.abandon(id));
    assert_eq!(s.pending_count(), 0);
    s.on_event(LifecycleEvent::Failed);
    let err = s.begin_request("x", "shutdown", b"null");
    assert!(matches!(err, Err(SessionError::NotRunning)));
    assert_eq!(s.pending_count(), 0);
}

#[test]
fn after_death_every_request_fails() {
    let mut s = ready_session();
    s.begin_request("a", "m", b"null").unwrap();
    s.begin_request("b", "m", b"null").unwrap();
    assert_eq!(s.on_event(LifecycleEvent::Failed), 2);
    assert_eq!(s.phase(), Phase::Terminated);
    assert!(!s.is_alive());
    for event in [LifecycleEvent::Spawned, LifecycleEvent::HandshakeSucceeded, LifecycleEvent::Exited] {
        s.on_event(event);
        assert!(matches!(s.begin_request("c", "m", b"null"), Err(SessionError::NotRunning)));
        assert!(matches!(s.notification("exit", b"null"), Err(SessionError::NotRunning)));
        assert_eq!(s.pending_count(), 0);
    }
}

#[test]
fn nothing_is_sent_before_the_process_starts() {
    let mut s: Session<u8> = Session::new();
    assert_eq!(s.phase(), Phase::Starting);
    assert!(matches!(s.begin_request(1, "initialize", b"{}"), Err(SessionError::NotRunning)));
    s.on_event(LifecycleEvent::HandshakeSucceeded);
    assert_eq!(s.phase(), Phase::Starting);
    s.on_event(LifecycleEvent::Spawned);
    assert_eq!(s.phase(), Phase::Handshaking);
    assert!(s.begin_request(1, "initialize", b"{}").is_ok());
}

#[test]
fn lifecycle_through_shutdown() {
    let mut s = ready_session();
    assert_eq!(s.phase(), Phase::Ready);
    s.on_event(LifecycleEvent::ShutdownRequested);
    assert_eq!(s.phase(), Phase::ShuttingDown);
    assert!(s.begin_request("shutdown", "shutdown", b"null").is_ok());
    assert!(s.notification("exit", b"null").is_ok());
    assert_eq!(s.on_event(LifecycleEvent::Exited), 1);
    assert_eq!(s.phase(), Phase::Terminated);
    let mut failed: Session<u8> = Session::new();
    failed.on_event(LifecycleEvent::Spawned);
    failed.on_event(LifecycleEvent::Failed);
    assert_eq!(failed.phase(), Phase::Terminated);
}

#[test]
fn request_identifiers_are_never_reused() {
    let mut s = ready_session();
    let mut seen = Vec::new();
    for i in 0..20u32 {
        let req = s.begin_request("w", "m", b"null").unwrap();
        assert!(seen.iter().all(|&k| k < req.id));
        seen.push(req.id);
        if i % 3 == 0 {
            s.deliver(Some(req.id));
        }
    }
    assert_eq!(seen, (1..=20).collect::<Vec<i64>>());
}
