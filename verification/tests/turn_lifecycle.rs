use sagent::ids::TurnId;
use sagent::turn_lifecycle::{CloseKind, CloseStep, TurnNotice, TurnSlot};

#[test]
fn a_new_slot_has_no_active_turn() {
    let slot = TurnSlot::new();
    assert!(!slot.has_active());
    assert!(!slot.is_active_turn(TurnId { value: 1 }));
}

#[test]
fn a_persisted_completion_frees_the_session_and_ends_the_turn_once() {
    let turn = TurnId { value: 7 };
    let mut slot = TurnSlot::new();
    slot.install(turn);
    assert!(slot.is_active_turn(turn));
    assert_eq!(
        slot.begin_close(turn, CloseKind::Complete),
        CloseStep::Proceed { cancel: false }
    );
    assert!(!slot.is_cancelled(turn));
    assert_eq!(
        slot.finish_close(CloseKind::Complete, true),
        vec![TurnNotice::FinalMessagePersisted, TurnNotice::TurnCompleted]
    );
    assert!(!slot.has_active());
    assert_eq!(slot.begin_close(turn, CloseKind::Complete), CloseStep::Skip);
    assert_eq!(slot.begin_close(turn, CloseKind::Fail), CloseStep::Skip);
    assert_eq!(
        slot.begin_close(turn, CloseKind::Interrupt),
        CloseStep::NoActiveTurn
    );
}

#[test]
fn a_failed_persistence_keeps_the_turn_active() {
    let turn = TurnId { value: 9 };
    let mut slot = TurnSlot::new();
    slot.install(turn);
    assert_eq!(
        slot.begin_close(turn, CloseKind::Interrupt),
        CloseStep::Proceed { cancel: true }
    );
    assert!(slot.finish_close(CloseKind::Interrupt, false).is_empty());
    assert!(slot.is_active_turn(turn));
    assert!(slot.is_cancelled(turn));
}

#[test]
fn a_cancelled_turn_is_not_completed() {
    let turn = TurnId { value: 11 };
    let mut slot = TurnSlot::new();
    slot.install(turn);
    assert_eq!(
        slot.begin_close(turn, CloseKind::Fail),
        CloseStep::Proceed { cancel: true }
    );
    assert!(slot.finish_close(CloseKind::Fail, false).is_empty());
    assert_eq!(slot.begin_close(turn, CloseKind::Complete), CloseStep::Skip);
    assert!(slot.is_active_turn(turn));
}

#[test]
fn another_turn_cannot_end_the_active_one() {
    let turn = TurnId { value: 3 };
    let other = TurnId { value: 4 };
    let mut slot = TurnSlot::new();
    slot.install(turn);
    assert_eq!(
        slot.begin_close(other, CloseKind::Interrupt),
        CloseStep::NoActiveTurn
    );
    assert_eq!(slot.begin_close(other, CloseKind::Complete), CloseStep::Skip);
    assert!(slot.is_active_turn(turn));
    assert!(!slot.is_cancelled(turn));
}

#[test]
fn a_committed_start_is_published_in_order() {
    let turn = TurnId { value: 21 };
    let mut slot = TurnSlot::new();
    assert_eq!(
        slot.start_turn(turn, true),
        vec![TurnNotice::PromptAccepted, TurnNotice::UserMessagePersisted]
    );
    assert!(slot.is_active_turn(turn));
    assert!(!slot.is_cancelled(turn));
}

#[test]
fn an_uncommitted_start_publishes_nothing() {
    let turn = TurnId { value: 22 };
    let mut slot = TurnSlot::new();
    assert!(slot.start_turn(turn, false).is_empty());
    assert!(!slot.has_active());
}

#[test]
fn committed_failures_and_interrupts_publish_one_event() {
    let turn = TurnId { value: 23 };
    let mut slot = TurnSlot::new();
    slot.install(turn);
    assert_eq!(
        slot.begin_close(turn, CloseKind::Fail),
        CloseStep::Proceed { cancel: true }
    );
    assert_eq!(slot.finish_close(CloseKind::Fail, true), vec![TurnNotice::TurnFailed]);
    assert!(!slot.has_active());

    let next = TurnId { value: 24 };
    slot.install(next);
    assert_eq!(
        slot.begin_close(next, CloseKind::Interrupt),
        CloseStep::Proceed { cancel: true }
    );
    assert_eq!(
        slot.finish_close(CloseKind::Interrupt, true),
        vec![TurnNotice::TurnInterrupted]
    );
    assert!(!slot.has_active());
}
