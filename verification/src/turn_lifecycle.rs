//! The terminal lifecycle of a session's active turn.
//!
//! A turn ends once, as completed, failed or interrupted, and its end becomes visible only
//! after the store committed it. While an end is being persisted nothing else may end the same
//! turn; when persisting fails the turn stays active, so that the caller sees the error instead
//! of an idle session. Cancelling workers, persisting and publishing are left to the caller;
//! this module decides.

use vstd::prelude::*;

use crate::ids::TurnId;

verus! {

/// What the actor keeps of its active turn for deciding how it may end.
#[derive(Debug, Clone, Copy, PartialEq, Eq, Structural)]
pub struct ActiveTurnState {
    pub turn_id: TurnId,
    /// The turn has reached its end.
    pub terminal: bool,
    /// The turn's cancellation token has fired.
    pub cancelled: bool,
}

/// How a turn is to end.
#[derive(Debug, Clone, Copy, PartialEq, Eq, Structural)]
pub enum CloseKind {
    /// The model produced its final answer.
    Complete,
    /// A controlled failure.
    Fail,
    /// The user or the session interrupted the turn.
    Interrupt,
}

/// What the caller does after asking to end a turn.
#[derive(Debug, Clone, Copy, PartialEq, Eq, Structural)]
pub enum CloseStep {
    /// Cancel the turn's work when `cancel` says so, persist the end, then report the outcome
    /// with `finish_close`.
    Proceed { cancel: bool },
    /// Nothing is to be done: the turn is not active, or has ended, or (for a completion) was
    /// cancelled.
    Skip,
    /// The request fails: there is no active turn to interrupt.
    NoActiveTurn,
}

/// An event the actor publishes about a turn.
#[derive(Debug, Clone, Copy, PartialEq, Eq, Structural)]
pub enum TurnNotice {
    /// The prompt was accepted.
    PromptAccepted,
    /// The user's message was committed.
    UserMessagePersisted,
    /// The assistant's final message was committed.
    FinalMessagePersisted,
    /// The turn completed.
    TurnCompleted,
    /// The turn failed.
    TurnFailed,
    /// The turn was interrupted.
    TurnInterrupted,
}

/// The events published once a turn's start was, or was not, committed: nothing before the
/// store has it.
pub open spec fn start_notices(persisted: bool) -> Seq<TurnNotice> {
    if persisted {
        seq![TurnNotice::PromptAccepted, TurnNotice::UserMessagePersisted]
    } else {
        Seq::empty()
    }
}

/// The events published once a turn's end of kind `kind` was, or was not, committed: nothing
/// before the store has it.
pub open spec fn end_notices(kind: CloseKind, persisted: bool) -> Seq<TurnNotice> {
    if !persisted {
        Seq::empty()
    } else {
        match kind {
            CloseKind::Complete => seq![TurnNotice::FinalMessagePersisted, TurnNotice::TurnCompleted],
            CloseKind::Fail => seq![TurnNotice::TurnFailed],
            CloseKind::Interrupt => seq![TurnNotice::TurnInterrupted],
        }
    }
}

/// The state after asking to end turn `turn_id` as `kind` in state `active`, and the step.
pub open spec fn begin_close_step(
    active: Option<ActiveTurnState>,
    turn_id: TurnId,
    kind: CloseKind,
) -> (Option<ActiveTurnState>, CloseStep) {
    let refused = if kind == CloseKind::Interrupt {
        CloseStep::NoActiveTurn
    } else {
        CloseStep::Skip
    };
    match active {
        Some(a) if a.turn_id == turn_id => if a.terminal || (kind == CloseKind::Complete
            && a.cancelled) {
            (active, refused)
        } else if kind == CloseKind::Complete {
            (active, CloseStep::Proceed { cancel: false })
        } else {
            (Some(ActiveTurnState { cancelled: true, ..a }), CloseStep::Proceed { cancel: true })
        },
        _ => (active, refused),
    }
}

/// The state after the end of the active turn was persisted (`persisted`) or not: a persisted
/// end frees the session; a failed one leaves the turn active.
pub open spec fn finish_close_step(active: Option<ActiveTurnState>, persisted: bool) -> Option<
    ActiveTurnState,
> {
    if persisted {
        None
    } else {
        active
    }
}

/// The slot that holds a session's active turn, if any.
#[derive(Debug)]
pub struct TurnSlot {
    active: Option<ActiveTurnState>,
}

impl View for TurnSlot {
    type V = Option<ActiveTurnState>;

    closed spec fn view(&self) -> Option<ActiveTurnState> {
        self.active
    }
}

impl TurnSlot {
    /// A slot with no active turn.
    pub fn new() -> (r: TurnSlot)
        ensures
            r@ is None,
    {
        TurnSlot { active: None }
    }

    /// Makes `turn_id` the active turn; a prompt is admitted only while no turn is active.
    pub fn install(&mut self, turn_id: TurnId)
        requires
            old(self)@ is None,
        ensures
            final(self)@ == Some(ActiveTurnState { turn_id, terminal: false, cancelled: false }),
    {
        self.active = Some(ActiveTurnState { turn_id, terminal: false, cancelled: false });
    }

    /// Whether a turn is active.
    pub fn has_active(&self) -> (r: bool)
        ensures
            r == (self@ is Some),
    {
        self.active.is_some()
    }

    /// Whether `turn_id` is the active turn.
    pub fn is_active_turn(&self, turn_id: TurnId) -> (r: bool)
        ensures
            r == (self@ matches Some(a) && a.turn_id == turn_id),
    {
        match self.active {
            Some(a) => a.turn_id == turn_id,
            None => false,
        }
    }

    /// Whether `turn_id` is the active turn and has been cancelled.
    pub fn is_cancelled(&self, turn_id: TurnId) -> (r: bool)
        ensures
            r == (self@ matches Some(a) && a.turn_id == turn_id && a.cancelled),
    {
        match self.active {
            Some(a) => a.turn_id == turn_id && a.cancelled,
            None => false,
        }
    }

    /// Asks to end turn `turn_id` as `kind`. A completion proceeds only for an active turn that
    /// neither ended nor was cancelled; a failure or an interrupt proceeds for an active turn
    /// that has not ended, and cancels it first. An interrupt of anything else fails.
    pub fn begin_close(&mut self, turn_id: TurnId, kind: CloseKind) -> (r: CloseStep)
        ensures
            (final(self)@, r) == begin_close_step(old(self)@, turn_id, kind),
    {
        let refused = if kind == CloseKind::Interrupt {
            CloseStep::NoActiveTurn
        } else {
            CloseStep::Skip
        };
        match self.active {
            Some(a) => {
                if a.turn_id != turn_id {
                    return refused;
                }
                if a.terminal || (kind == CloseKind::Complete && a.cancelled) {
                    return refused;
                }
                if kind == CloseKind::Complete {
                    CloseStep::Proceed { cancel: false }
                } else {
                    self.active = Some(ActiveTurnState { cancelled: true, ..a });
                    CloseStep::Proceed { cancel: true }
                }
            },
            None => refused,
        }
    }

    /// Reports whether the end of kind `kind` that `begin_close` allowed was persisted, and
    /// returns the events to publish: if it was, the turn is over, the session is free and the
    /// end is announced; if not, the turn stays active, nothing is published, and the caller
    /// reports the persistence error.
    pub fn finish_close(&mut self, kind: CloseKind, persisted: bool) -> (r: Vec<TurnNotice>)
        ensures
            final(self)@ == finish_close_step(old(self)@, persisted),
            r@ == end_notices(kind, persisted),
    {
        if !persisted {
            return Vec::new();
        }
        self.active = None;
        match kind {
            CloseKind::Complete => vec![TurnNotice::FinalMessagePersisted, TurnNotice::TurnCompleted],
            CloseKind::Fail => vec![TurnNotice::TurnFailed],
            CloseKind::Interrupt => vec![TurnNotice::TurnInterrupted],
        }
    }

    /// Starts turn `turn_id` once the store reported whether its start and the user's message
    /// were committed (`persisted`), and returns the events to publish: a committed start makes
    /// the turn active and is announced; otherwise nothing changes and nothing is published.
    pub fn start_turn(&mut self, turn_id: TurnId, persisted: bool) -> (r: Vec<TurnNotice>)
        requires
            old(self)@ is None,
        ensures
            persisted ==> final(self)@ == Some(
                ActiveTurnState { turn_id, terminal: false, cancelled: false },
            ),
            !persisted ==> final(self)@ is None,
            r@ == start_notices(persisted),
    {
        if !persisted {
            return Vec::new();
        }
        self.install(turn_id);
        vec![TurnNotice::PromptAccepted, TurnNotice::UserMessagePersisted]
    }
}

/// Once a turn's end was persisted, the turn cannot end again: a later completion or failure
/// of it is skipped and a later interrupt fails, and none of them changes anything.
pub proof fn law_a_turn_ends_once(
    active: Option<ActiveTurnState>,
    turn_id: TurnId,
    first: CloseKind,
    later: CloseKind,
)
    requires
        begin_close_step(active, turn_id, first).1 is Proceed,
    ensures
        ({
            let ended = finish_close_step(begin_close_step(active, turn_id, first).0, true);
            let (after, step) = begin_close_step(ended, turn_id, later);
            &&& after == ended
            &&& step == (if later == CloseKind::Interrupt {
                CloseStep::NoActiveTurn
            } else {
                CloseStep::Skip
            })
        }),
{
}

/// A failed persistence keeps the turn active and the session busy: the same turn is still
/// the active one, not yet ended.
pub proof fn law_failed_persistence_keeps_the_turn(
    active: Option<ActiveTurnState>,
    turn_id: TurnId,
    kind: CloseKind,
)
    requires
        begin_close_step(active, turn_id, kind).1 is Proceed,
    ensures
        finish_close_step(begin_close_step(active, turn_id, kind).0, false) matches Some(a)
            && a.turn_id == turn_id && !a.terminal,
{
}

/// A completion never overrides an interrupt or failure already under way: once the turn was
/// cancelled, a completion is skipped.
pub proof fn law_cancelled_turn_is_not_completed(
    active: Option<ActiveTurnState>,
    turn_id: TurnId,
    kind: CloseKind,
)
    requires
        kind != CloseKind::Complete,
        begin_close_step(active, turn_id, kind).1 is Proceed,
    ensures
        begin_close_step(begin_close_step(active, turn_id, kind).0, turn_id, CloseKind::Complete)
            .1 == CloseStep::Skip,
{
}

/// Asking to end a turn that is not the active one changes nothing.
pub proof fn law_other_turns_are_untouched(
    active: Option<ActiveTurnState>,
    turn_id: TurnId,
    kind: CloseKind,
)
    requires
        !(active matches Some(a) && a.turn_id == turn_id),
    ensures
        begin_close_step(active, turn_id, kind).0 == active,
        !(begin_close_step(active, turn_id, kind).1 is Proceed),
{
}

/// Events about a turn follow the store: nothing is published about a start or an end that
/// was not committed, and a committed one is announced in its fixed order (the accepted prompt
/// before the user's message; the final message before the completion).
pub proof fn law_events_follow_the_commit(kind: CloseKind, persisted: bool)
    ensures
        start_notices(persisted).len() > 0 <==> persisted,
        end_notices(kind, persisted).len() > 0 <==> persisted,
        persisted ==> start_notices(persisted)[0] == TurnNotice::PromptAccepted
            && start_notices(persisted)[1] == TurnNotice::UserMessagePersisted,
        persisted && kind == CloseKind::Complete ==> end_notices(kind, persisted)
            =~= seq![TurnNotice::FinalMessagePersisted, TurnNotice::TurnCompleted],
{
}

} // verus!
