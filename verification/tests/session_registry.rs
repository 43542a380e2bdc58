use sagent::ids::SessionId;
use sagent::session_registry::{SessionRegistry, StartDecision};

#[test]
fn repeated_requests_start_a_single_actor() {
    let session = SessionId::new("concurrent-session");
    let mut registry = SessionRegistry::new();
    let mut started = 0;
    let mut given = Vec::new();
    for fresh in 1..=100u64 {
        match registry.decide(&[], &session) {
            StartDecision::Start => {
                started += 1;
                registry.record_start(session.duplicate(), fresh);
                given.push(fresh);
            }
            StartDecision::Reuse(actor) => given.push(actor),
        }
    }
    assert_eq!(started, 1);
    assert!(given.iter().all(|actor| *actor == 1));
    assert_eq!(registry.lookup(&session), Some(1));
}

#[test]
fn a_live_actor_is_reused_until_removed() {
    let session = SessionId::new("reuse-session");
    let mut registry = SessionRegistry::new();
    assert_eq!(registry.decide(&[], &session), StartDecision::Start);
    registry.record_start(session.duplicate(), 7);
    assert_eq!(registry.decide(&[], &session), StartDecision::Reuse(7));
    assert_eq!(registry.remove(&[], &session), Some(7));
    assert_eq!(registry.lookup(&session), None);
    assert_eq!(registry.remove(&[], &session), None);
    assert_eq!(registry.decide(&[], &session), StartDecision::Start);
    registry.record_start(session.duplicate(), 8);
    assert_eq!(registry.decide(&[7], &session), StartDecision::Reuse(8));
}

#[test]
fn a_finished_actor_is_reaped_and_replaced() {
    let session = SessionId::new("close-session");
    let mut registry = SessionRegistry::new();
    assert_eq!(registry.decide(&[], &session), StartDecision::Start);
    registry.record_start(session.duplicate(), 3);
    assert_eq!(registry.decide(&[3], &session), StartDecision::Start);
    assert_eq!(registry.lookup(&session), None);
    registry.record_start(session.duplicate(), 4);
    assert_eq!(registry.decide(&[3], &session), StartDecision::Reuse(4));
}

#[test]
fn sessions_have_independent_actors() {
    let a = SessionId::new("independent-a");
    let b = SessionId::new("independent-b");
    let mut registry = SessionRegistry::new();
    assert_eq!(registry.decide(&[], &a), StartDecision::Start);
    registry.record_start(a.duplicate(), 1);
    assert_eq!(registry.decide(&[], &b), StartDecision::Start);
    registry.record_start(b.duplicate(), 2);
    assert_eq!(registry.decide(&[], &a), StartDecision::Reuse(1));
    assert_eq!(registry.decide(&[], &b), StartDecision::Reuse(2));
    assert_eq!(registry.remove(&[1], &b), Some(2));
    assert_eq!(registry.lookup(&a), None);
    assert_eq!(registry.lookup(&b), None);
}
