use sagent::approval::{
    ApprovalDecision, ApprovalError, ApprovalManager, ApprovalOutcome, ApprovalRequest,
};
use sagent::ids::{ApprovalId, SessionId, ToolCallId, TurnId};

fn request(session: &str, turn: TurnId, policy: &str) -> ApprovalRequest {
    ApprovalRequest::new(
        SessionId::new(session),
        turn,
        ToolCallId::new(),
        "terminal",
        "该命令需要审批",
        policy,
        "2026-09-05T00:00:00Z",
    )
    .unwrap()
}

/// The outcomes put out since the last call, as (approval id, outcome).
fn deliveries(manager: &mut ApprovalManager) -> Vec<(ApprovalId, ApprovalOutcome)> {
    manager
        .take_deliveries()
        .into_iter()
        .map(|d| (d.approval_id, d.outcome))
        .collect()
}

#[test]
fn once_resolves_only_current_waiter() {
    let session = SessionId::new("session-1");
    let turn = TurnId::new();
    let mut manager = ApprovalManager::new(1000);
    let approval = request("session-1", turn, "terminal:recursive_delete");
    let id = approval.approval_id;
    let other = request("session-1", turn, "terminal:force_push");
    let other_id = manager.register(other).unwrap();
    assert_eq!(manager.register(approval).unwrap(), id);
    manager
        .resolve(&session, &turn, id, ApprovalDecision::Once)
        .unwrap();
    let delivered = deliveries(&mut manager);
    assert_eq!(
        delivered,
        vec![(id, ApprovalOutcome::Approved(ApprovalDecision::Once))]
    );
    assert!(delivered.iter().all(|(to, _)| *to != other_id));
    assert!(!manager.is_allowed(&session, "terminal:recursive_delete"));
    assert_eq!(manager.pending().len(), 1);
}

#[test]
fn session_and_always_create_their_expected_scopes() {
    let session = SessionId::new("session-1");
    let turn = TurnId::new();
    let mut manager = ApprovalManager::default();
    let first = request("session-1", turn, "terminal:recursive_delete");
    manager.register(first.clone()).unwrap();
    manager
        .resolve(&session, &turn, first.approval_id, ApprovalDecision::Session)
        .unwrap();
    assert_eq!(
        deliveries(&mut manager),
        vec![(first.approval_id, ApprovalOutcome::Approved(ApprovalDecision::Session))]
    );
    assert!(manager.is_allowed(&session, "terminal:recursive_delete"));
    assert!(!manager.is_allowed(&SessionId::new("session-2"), "terminal:recursive_delete"));

    let second = request("session-1", turn, "terminal:force_push");
    manager.register(second.clone()).unwrap();
    manager
        .resolve(&session, &turn, second.approval_id, ApprovalDecision::Always)
        .unwrap();
    assert_eq!(
        deliveries(&mut manager),
        vec![(second.approval_id, ApprovalOutcome::Approved(ApprovalDecision::Always))]
    );
    assert!(manager.is_allowed(&SessionId::new("session-2"), "terminal:force_push"));
}

#[test]
fn timeout_and_cancel_remove_pending_requests() {
    let session = SessionId::new("session-1");
    let turn = TurnId::new();
    let mut manager = ApprovalManager::new(20);
    let first = request("session-1", turn, "terminal:recursive_delete");
    let first_id = first.approval_id;
    manager.register_at(first, 0).unwrap();
    assert_eq!(
        manager.resolve_at(&session, &turn, first_id, ApprovalDecision::Once, 20),
        Err(ApprovalError::Expired)
    );
    assert_eq!(
        deliveries(&mut manager),
        vec![(first_id, ApprovalOutcome::TimedOut)]
    );

    let second = request("session-1", turn, "terminal:force_push");
    let id = second.approval_id;
    manager.register(second).unwrap();
    manager.cancel_for_turn(&turn);
    assert_eq!(deliveries(&mut manager), vec![(id, ApprovalOutcome::Cancelled)]);
    assert_eq!(
        manager.resolve(&session, &turn, id, ApprovalDecision::Deny),
        Err(ApprovalError::Cancelled)
    );
    assert!(manager.pending().is_empty());
}

#[test]
fn mismatched_session_does_not_consume_pending_request() {
    let turn = TurnId::new();
    let mut manager = ApprovalManager::default();
    let approval = request("session-1", turn, "terminal:recursive_delete");
    let id = approval.approval_id;
    manager.register(approval).unwrap();
    let error = manager
        .resolve(&SessionId::new("session-2"), &turn, id, ApprovalDecision::Once)
        .unwrap_err();
    assert_eq!(error, ApprovalError::SessionMismatch);
    assert_eq!(manager.pending().len(), 1);
}

#[test]
fn mismatched_turn_does_not_consume_pending_request() {
    let session = SessionId::new("session-1");
    let turn = TurnId::new();
    let mut manager = ApprovalManager::default();
    let approval = request("session-1", turn, "terminal:recursive_delete");
    let id = approval.approval_id;
    manager.register(approval).unwrap();
    assert_eq!(
        manager.resolve(&session, &TurnId::new(), id, ApprovalDecision::Once),
        Err(ApprovalError::TurnMismatch)
    );
    manager
        .resolve(&session, &turn, id, ApprovalDecision::Deny)
        .unwrap();
    assert_eq!(deliveries(&mut manager), vec![(id, ApprovalOutcome::Denied)]);
}

#[test]
fn a_decided_request_cannot_be_decided_or_registered_again() {
    let session = SessionId::new("session-1");
    let turn = TurnId::new();
    let mut manager = ApprovalManager::default();
    let approval = request("session-1", turn, "terminal:recursive_delete");
    let copy = approval.duplicate();
    let id = approval.approval_id;
    manager.register(approval).unwrap();
    assert_eq!(
        manager.register(copy.clone()).err(),
        Some(ApprovalError::AlreadyPending)
    );
    manager
        .resolve(&session, &turn, id, ApprovalDecision::Once)
        .unwrap();
    assert_eq!(
        manager.resolve(&session, &turn, id, ApprovalDecision::Always),
        Err(ApprovalError::AlreadyResolved)
    );
    assert_eq!(
        manager.register(copy).err(),
        Some(ApprovalError::AlreadyResolved)
    );
    assert!(!manager.is_allowed(&session, "terminal:recursive_delete"));
}

#[test]
fn unknown_and_expired_requests_are_reported() {
    let session = SessionId::new("session-1");
    let turn = TurnId::new();
    let mut manager = ApprovalManager::new(50);
    assert_eq!(
        manager.resolve(&session, &turn, ApprovalId::new(), ApprovalDecision::Once),
        Err(ApprovalError::NotFound)
    );
    let approval = request("session-1", turn, "p");
    let id = approval.approval_id;
    assert_eq!(manager.register_at(approval, 100).unwrap(), id);
    manager.expire(id);
    assert_eq!(deliveries(&mut manager), vec![(id, ApprovalOutcome::TimedOut)]);
    assert_eq!(
        manager.resolve_at(&session, &turn, id, ApprovalDecision::Once, 120),
        Err(ApprovalError::NotFound)
    );
    assert_eq!(
        manager.resolve_at(&session, &turn, id, ApprovalDecision::Deny, 500),
        Err(ApprovalError::NotFound)
    );
    assert!(manager.pending().is_empty());
    manager.expire(id);
    assert_eq!(manager.timeout(), 50);
}

#[test]
fn a_decision_before_the_deadline_is_accepted() {
    let session = SessionId::new("session-1");
    let turn = TurnId::new();
    let mut manager = ApprovalManager::new(50);
    let approval = request("session-1", turn, "p");
    let id = approval.approval_id;
    manager.register_at(approval, 100).unwrap();
    assert_eq!(
        manager.resolve_at(&session, &turn, id, ApprovalDecision::Once, 149),
        Ok(())
    );
}

#[test]
fn blank_request_fields_are_refused() {
    let turn = TurnId::new();
    for (tool, summary, policy) in [(" ", "s", "p"), ("t", "", "p"), ("t", "s", "\n")] {
        assert_eq!(
            ApprovalRequest::new(
                SessionId::new("session-1"),
                turn,
                ToolCallId::new(),
                tool,
                summary,
                policy,
                "later",
            ),
            Err(ApprovalError::InvalidRequest)
        );
    }
    let fixed = ApprovalId { value: 7 };
    let request = ApprovalRequest::with_id(
        fixed,
        SessionId::new("session-1"),
        turn,
        ToolCallId::new(),
        "terminal",
        "summary",
        "policy",
        "later",
    )
    .unwrap();
    assert_eq!(request.approval_id, fixed);
    assert_eq!(request.policy_key, "policy");
}

#[test]
fn cancelling_a_turn_leaves_other_turns_pending() {
    let session = SessionId::new("session-1");
    let turn = TurnId::new();
    let other_turn = TurnId::new();
    let mut manager = ApprovalManager::default();
    let mine = request("session-1", turn, "a");
    let theirs = request("session-1", other_turn, "b");
    let theirs_id = theirs.approval_id;
    let mine_id = manager.register(mine).unwrap();
    manager.register(theirs).unwrap();
    manager.cancel_for_turn(&turn);
    assert_eq!(deliveries(&mut manager), vec![(mine_id, ApprovalOutcome::Cancelled)]);
    let pending = manager.pending();
    assert_eq!(pending.len(), 1);
    assert_eq!(pending[0].approval_id, theirs_id);
    manager
        .resolve(&session, &other_turn, theirs_id, ApprovalDecision::Once)
        .unwrap();
    assert_eq!(
        deliveries(&mut manager),
        vec![(theirs_id, ApprovalOutcome::Approved(ApprovalDecision::Once))]
    );
}

#[test]
fn approval_error_messages() {
    assert_eq!(
        ApprovalError::SessionMismatch.message(),
        "approval request belongs to another session"
    );
    assert_eq!(
        ApprovalError::Cancelled.message(),
        "approval request was cancelled"
    );
}
