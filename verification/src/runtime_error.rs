//! The runtime's single error boundary.

use vstd::prelude::*;

use crate::ids::SessionId;

verus! {

/// The stable error classes between session actors, the supervisor and workers.
///
/// Database and provider errors are not exposed as such; callers depend on runtime meaning
/// only, and a cause is kept as text.
#[derive(Debug, Clone, PartialEq, Eq)]
pub enum RuntimeError {
    /// The session already runs a turn.
    Busy { session_id: SessionId },
    /// The actor mailbox is full; the caller should retry later.
    MailboxFull,
    /// The actor mailbox is closed; no command can be delivered.
    MailboxClosed,
    /// An interrupt was requested while no turn is active.
    NoActiveTurn,
    /// The actor has stopped; an old handle is no longer valid.
    ActorStopped,
    /// An atomic store operation failed.
    Persistence(String),
    /// The current lifecycle does not allow the operation.
    InvalidLifecycle(String),
    /// The stable hash of the prompt snapshot or generation needs an explicit transition.
    RequiresTransition,
    /// A supervised provider or tool worker failed.
    WorkerFailed(String),
}

/// A `RuntimeError` with its texts taken as character sequences.
pub enum RuntimeErrorView {
    Busy { session_id: Seq<char> },
    MailboxFull,
    MailboxClosed,
    NoActiveTurn,
    ActorStopped,
    Persistence(Seq<char>),
    InvalidLifecycle(Seq<char>),
    RequiresTransition,
    WorkerFailed(Seq<char>),
}

impl View for RuntimeError {
    type V = RuntimeErrorView;

    open spec fn view(&self) -> RuntimeErrorView {
        match self {
            RuntimeError::Busy { session_id } => RuntimeErrorView::Busy { session_id: session_id@ },
            RuntimeError::MailboxFull => RuntimeErrorView::MailboxFull,
            RuntimeError::MailboxClosed => RuntimeErrorView::MailboxClosed,
            RuntimeError::NoActiveTurn => RuntimeErrorView::NoActiveTurn,
            RuntimeError::ActorStopped => RuntimeErrorView::ActorStopped,
            RuntimeError::Persistence(m) => RuntimeErrorView::Persistence(m@),
            RuntimeError::InvalidLifecycle(m) => RuntimeErrorView::InvalidLifecycle(m@),
            RuntimeError::RequiresTransition => RuntimeErrorView::RequiresTransition,
            RuntimeError::WorkerFailed(m) => RuntimeErrorView::WorkerFailed(m@),
        }
    }
}

/// The human-readable text of a runtime error. A busy session is named as
/// `SessionId("<id>")`.
pub open spec fn runtime_error_text(e: RuntimeErrorView) -> Seq<char> {
    match e {
        RuntimeErrorView::Busy { session_id } => "session SessionId(\""@ + session_id
            + "\") is busy"@,
        RuntimeErrorView::MailboxFull => "session mailbox is full"@,
        RuntimeErrorView::MailboxClosed => "session mailbox is closed"@,
        RuntimeErrorView::NoActiveTurn => "session has no active turn"@,
        RuntimeErrorView::ActorStopped => "session actor has stopped"@,
        RuntimeErrorView::Persistence(m) => "persistence failed: "@ + m,
        RuntimeErrorView::InvalidLifecycle(m) => "invalid session lifecycle: "@ + m,
        RuntimeErrorView::RequiresTransition => "session requires an explicit transition"@,
        RuntimeErrorView::WorkerFailed(m) => "worker task failed: "@ + m,
    }
}

impl RuntimeError {
    /// The human-readable text of this error.
    pub fn message(&self) -> (r: String)
        ensures
            r@ == runtime_error_text(self@),
    {
        match self {
            RuntimeError::Busy { session_id } => {
                let mut r = "session SessionId(\"".to_owned();
                r.append(session_id.as_str());
                r.append("\") is busy");
                r
            },
            RuntimeError::MailboxFull => "session mailbox is full".to_owned(),
            RuntimeError::MailboxClosed => "session mailbox is closed".to_owned(),
            RuntimeError::NoActiveTurn => "session has no active turn".to_owned(),
            RuntimeError::ActorStopped => "session actor has stopped".to_owned(),
            RuntimeError::Persistence(m) => {
                let mut r = "persistence failed: ".to_owned();
                r.append(m.as_str());
                r
            },
            RuntimeError::InvalidLifecycle(m) => {
                let mut r = "invalid session lifecycle: ".to_owned();
                r.append(m.as_str());
                r
            },
            RuntimeError::RequiresTransition => "session requires an explicit transition".to_owned(),
            RuntimeError::WorkerFailed(m) => {
                let mut r = "worker task failed: ".to_owned();
                r.append(m.as_str());
                r
            },
        }
    }
}

} // verus!
