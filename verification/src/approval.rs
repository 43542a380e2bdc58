//! The approval state machine that one session actor owns.
//!
//! Approval state belongs to one session runtime; there is no process-wide queue. Time is
//! read as whole milliseconds since the manager was created.

use vstd::prelude::*;

use std::collections::HashMap;
use std::time::Instant;

use crate::ids::{ApprovalId, SessionId, ToolCallId, TurnId};
use crate::text::{is_blank, str_is_blank};

verus! {

broadcast use vstd::std_specs::hash::group_hash_axioms;

/// `std::time::Instant`, held opaque.
#[verifier::external_type_specification]
#[verifier::external_body]
pub struct ExInstant(std::time::Instant);

/// How the user answered an approval request.
#[derive(Debug, Clone, Copy, PartialEq, Eq, Structural)]
pub enum ApprovalDecision {
    /// Allow this one call.
    Once,
    /// Allow the policy for the rest of the session.
    Session,
    /// Allow the policy for the rest of the runtime process.
    Always,
    /// Refuse the call.
    Deny,
}

/// Why waiting for an approval ended.
#[derive(Debug, Clone, Copy, PartialEq, Eq, Structural)]
pub enum ApprovalOutcome {
    Approved(ApprovalDecision),
    Denied,
    TimedOut,
    Cancelled,
}

/// The stable kinds of approval failures.
#[derive(Debug, Clone, Copy, PartialEq, Eq, Structural)]
pub enum ApprovalError {
    InvalidRequest,
    AlreadyPending,
    NotFound,
    SessionMismatch,
    TurnMismatch,
    AlreadyResolved,
    Expired,
    Cancelled,
}

/// The human-readable text of an approval error.
pub open spec fn approval_error_text(e: ApprovalError) -> Seq<char> {
    match e {
        ApprovalError::InvalidRequest => "approval request is invalid"@,
        ApprovalError::AlreadyPending => "approval request already exists"@,
        ApprovalError::NotFound => "approval request was not found"@,
        ApprovalError::SessionMismatch => "approval request belongs to another session"@,
        ApprovalError::TurnMismatch => "approval request belongs to another turn"@,
        ApprovalError::AlreadyResolved => "approval request has already been resolved"@,
        ApprovalError::Expired => "approval request has expired"@,
        ApprovalError::Cancelled => "approval request was cancelled"@,
    }
}

impl ApprovalError {
    /// The human-readable text of this error.
    pub fn message(&self) -> (r: String)
        ensures
            r@ == approval_error_text(*self),
    {
        match self {
            ApprovalError::InvalidRequest => "approval request is invalid".to_owned(),
            ApprovalError::AlreadyPending => "approval request already exists".to_owned(),
            ApprovalError::NotFound => "approval request was not found".to_owned(),
            ApprovalError::SessionMismatch => "approval request belongs to another session".to_owned(),
            ApprovalError::TurnMismatch => "approval request belongs to another turn".to_owned(),
            ApprovalError::AlreadyResolved => "approval request has already been resolved".to_owned(),
            ApprovalError::Expired => "approval request has expired".to_owned(),
            ApprovalError::Cancelled => "approval request was cancelled".to_owned(),
        }
    }
}

/// A pending approval request as shown to the client.
///
/// `summary` must already be redacted: no full environment, API key or password.
#[derive(Debug, Clone, PartialEq, Eq)]
pub struct ApprovalRequest {
    pub approval_id: ApprovalId,
    pub session_id: SessionId,
    pub turn_id: TurnId,
    pub tool_call_id: ToolCallId,
    pub tool_name: String,
    pub summary: String,
    pub policy_key: String,
    pub expires_at: String,
}

/// An approval request with its texts taken as character sequences.
pub struct ApprovalRequestView {
    pub approval_id: u128,
    pub session_id: Seq<char>,
    pub turn_id: u128,
    pub tool_call_id: u128,
    pub tool_name: Seq<char>,
    pub summary: Seq<char>,
    pub policy_key: Seq<char>,
    pub expires_at: Seq<char>,
}

impl View for ApprovalRequest {
    type V = ApprovalRequestView;

    open spec fn view(&self) -> ApprovalRequestView {
        ApprovalRequestView {
            approval_id: self.approval_id.value,
            session_id: self.session_id@,
            turn_id: self.turn_id.value,
            tool_call_id: self.tool_call_id.value,
            tool_name: self.tool_name@,
            summary: self.summary@,
            policy_key: self.policy_key@,
            expires_at: self.expires_at@,
        }
    }
}

impl ApprovalRequest {
    /// Builds an approval request with a fresh random id. A blank tool name, summary or policy
    /// key is refused, so that no card the user cannot act on is ever shown.
    pub fn new(
        session_id: SessionId,
        turn_id: TurnId,
        tool_call_id: ToolCallId,
        tool_name: &str,
        summary: &str,
        policy_key: &str,
        expires_at: &str,
    ) -> (r: Result<ApprovalRequest, ApprovalError>)
        ensures
            is_blank(tool_name@) || is_blank(summary@) || is_blank(policy_key@) ==> r == Err::<
                ApprovalRequest,
                ApprovalError,
            >(ApprovalError::InvalidRequest),
            !(is_blank(tool_name@) || is_blank(summary@) || is_blank(policy_key@)) ==> (
            r matches Ok(req) && req.session_id@ == session_id@ && req.turn_id == turn_id
                && req.tool_call_id == tool_call_id && req.tool_name@ == tool_name@
                && req.summary@ == summary@ && req.policy_key@ == policy_key@
                && req.expires_at@ == expires_at@),
    {
        let approval_id = ApprovalId::new();
        Self::with_id(
            approval_id,
            session_id,
            turn_id,
            tool_call_id,
            tool_name,
            summary,
            policy_key,
            expires_at,
        )
    }

    /// Builds an approval request with the given id; the same checks as `new` apply.
    pub fn with_id(
        approval_id: ApprovalId,
        session_id: SessionId,
        turn_id: TurnId,
        tool_call_id: ToolCallId,
        tool_name: &str,
        summary: &str,
        policy_key: &str,
        expires_at: &str,
    ) -> (r: Result<ApprovalRequest, ApprovalError>)
        ensures
            is_blank(tool_name@) || is_blank(summary@) || is_blank(policy_key@) ==> r == Err::<
                ApprovalRequest,
                ApprovalError,
            >(ApprovalError::InvalidRequest),
            !(is_blank(tool_name@) || is_blank(summary@) || is_blank(policy_key@)) ==> (
            r matches Ok(req) && req.approval_id == approval_id && req.session_id@ == session_id@
                && req.turn_id == turn_id && req.tool_call_id == tool_call_id
                && req.tool_name@ == tool_name@ && req.summary@ == summary@
                && req.policy_key@ == policy_key@ && req.expires_at@ == expires_at@),
    {
        if str_is_blank(tool_name) || str_is_blank(summary) || str_is_blank(policy_key) {
            return Err(ApprovalError::InvalidRequest);
        }
        Ok(
            ApprovalRequest {
                approval_id,
                session_id,
                turn_id,
                tool_call_id,
                tool_name: tool_name.to_owned(),
                summary: summary.to_owned(),
                policy_key: policy_key.to_owned(),
                expires_at: expires_at.to_owned(),
            },
        )
    }

    /// A copy of the request.
    pub fn duplicate(&self) -> (r: ApprovalRequest)
        ensures
            r@ == self@,
    {
        ApprovalRequest {
            approval_id: self.approval_id,
            session_id: self.session_id.duplicate(),
            turn_id: self.turn_id,
            tool_call_id: self.tool_call_id,
            tool_name: self.tool_name.as_str().to_owned(),
            summary: self.summary.as_str().to_owned(),
            policy_key: self.policy_key.as_str().to_owned(),
            expires_at: self.expires_at.as_str().to_owned(),
        }
    }
}

/// The reading of the monotonic clock, `std::time::Instant::now`, that the manager counts from.
#[verifier::external_body]
fn clock_origin() -> Instant {
    Instant::now()
}

/// Whole milliseconds elapsed since `origin`, from `std::time::Instant::elapsed` and
/// `Duration::as_millis`. Nothing is claimed: it reads the clock.
#[verifier::external_body]
fn millis_since(origin: &Instant) -> u128 {
    origin.elapsed().as_millis()
}

/// The clock reading in milliseconds since `origin`, held at `u64::MAX`.
fn clock_millis(origin: &Instant) -> u64 {
    let elapsed = millis_since(origin);
    if elapsed > u64::MAX as u128 {
        u64::MAX
    } else {
        elapsed as u64
    }
}

/// An outcome the manager has decided for the waiter of an approval, still to be handed over.
#[derive(Debug, Clone, Copy, PartialEq, Eq, Structural)]
pub struct ApprovalDelivery {
    pub approval_id: ApprovalId,
    pub outcome: ApprovalOutcome,
}

/// The deliveries `v` as (approval id, outcome) pairs.
pub open spec fn deliveries_view(v: Seq<ApprovalDelivery>) -> Seq<(u128, ApprovalOutcome)> {
    v.map_values(|d: ApprovalDelivery| (d.approval_id.value, d.outcome))
}

/// A pending approval as the manager holds it.
pub struct PendingView {
    pub request: ApprovalRequestView,
    /// The clock reading, in milliseconds, from which on the request has expired.
    pub deadline: u64,
}

/// What the manager knows: its pending requests by approval id, the policy keys allowed per
/// session and for the whole process, the final error of every approval that has ended, its
/// timeout, every outcome decided for a waiter so far, in order, and those of them not yet
/// taken for delivery.
pub struct ManagerView {
    pub pending: Map<u128, PendingView>,
    pub session_rules: Set<(Seq<char>, Seq<char>)>,
    pub permanent_rules: Set<Seq<char>>,
    pub finished: Map<u128, ApprovalError>,
    pub timeout_ms: u64,
    pub delivered: Seq<(u128, ApprovalOutcome)>,
    pub outbox: Seq<(u128, ApprovalOutcome)>,
}

/// The manager's invariant: a pending request is held under its own id and has not ended, and
/// every outcome handed out belongs to an ended approval, at most one per approval.
pub open spec fn manager_invariant(m: ManagerView) -> bool {
    &&& forall|id: u128| #[trigger]
        m.pending.contains_key(id) ==> m.pending[id].request.approval_id == id
            && !m.finished.contains_key(id)
    &&& forall|k: int|
        0 <= k < m.delivered.len() ==> m.finished.contains_key((#[trigger] m.delivered[k]).0)
    &&& forall|k: int, l: int|
        0 <= k < l < m.delivered.len() ==> (#[trigger] m.delivered[k]).0 != (
        #[trigger] m.delivered[l]).0
}

/// Whether the session rules or the process rules allow `policy_key` in `session_id`.
pub open spec fn allowed(m: ManagerView, session_id: Seq<char>, policy_key: Seq<char>) -> bool {
    m.permanent_rules.contains(policy_key) || m.session_rules.contains((session_id, policy_key))
}

/// The deadline of a request registered at `now`.
pub open spec fn deadline_after(now: u64, timeout_ms: u64) -> u64 {
    if now + timeout_ms > u64::MAX {
        u64::MAX
    } else {
        (now + timeout_ms) as u64
    }
}

/// The manager after registering `request` at clock reading `now`, and the outcome.
pub open spec fn register_step(m: ManagerView, request: ApprovalRequestView, now: u64) -> (
    ManagerView,
    Result<(), ApprovalError>,
) {
    if m.pending.contains_key(request.approval_id) {
        (m, Err(ApprovalError::AlreadyPending))
    } else if m.finished.contains_key(request.approval_id) {
        (m, Err(m.finished[request.approval_id]))
    } else {
        (
            ManagerView {
                pending: m.pending.insert(
                    request.approval_id,
                    PendingView { request, deadline: deadline_after(now, m.timeout_ms) },
                ),
                ..m
            },
            Ok(()),
        )
    }
}

/// The outcome the waiter receives for an accepted decision.
pub open spec fn decision_outcome(decision: ApprovalDecision) -> ApprovalOutcome {
    match decision {
        ApprovalDecision::Deny => ApprovalOutcome::Denied,
        d => ApprovalOutcome::Approved(d),
    }
}

/// The manager with the pending request `id` ended: its error recorded in `finished` and
/// `outcome` handed to its waiter.
pub open spec fn end_pending(
    m: ManagerView,
    id: u128,
    error: ApprovalError,
    outcome: ApprovalOutcome,
) -> ManagerView {
    ManagerView {
        pending: m.pending.remove(id),
        finished: m.finished.insert(id, error),
        delivered: m.delivered.push((id, outcome)),
        outbox: m.outbox.push((id, outcome)),
        ..m
    }
}

/// The manager after the decision `decision` on approval `approval_id`, sent from
/// `session_id` and `turn_id`, at clock reading `now`, and the outcome. A request that has
/// expired ends as expired; one that belongs to another session or turn stays pending.
pub open spec fn resolve_step(
    m: ManagerView,
    session_id: Seq<char>,
    turn_id: u128,
    approval_id: u128,
    decision: ApprovalDecision,
    now: u64,
) -> (ManagerView, Result<(), ApprovalError>) {
    if !m.pending.contains_key(approval_id) {
        (
            m,
            Err(
                if m.finished.contains_key(approval_id) {
                    m.finished[approval_id]
                } else {
                    ApprovalError::NotFound
                },
            ),
        )
    } else {
        let request = m.pending[approval_id].request;
        if now >= m.pending[approval_id].deadline {
            (
                end_pending(m, approval_id, ApprovalError::Expired, ApprovalOutcome::TimedOut),
                Err(ApprovalError::Expired),
            )
        } else if request.session_id != session_id {
            (m, Err(ApprovalError::SessionMismatch))
        } else if request.turn_id != turn_id {
            (m, Err(ApprovalError::TurnMismatch))
        } else {
            let ended = end_pending(
                m,
                approval_id,
                ApprovalError::AlreadyResolved,
                decision_outcome(decision),
            );
            let granted = match decision {
                ApprovalDecision::Session => ManagerView {
                    session_rules: ended.session_rules.insert((session_id, request.policy_key)),
                    ..ended
                },
                ApprovalDecision::Always => ManagerView {
                    permanent_rules: ended.permanent_rules.insert(request.policy_key),
                    ..ended
                },
                _ => ended,
            };
            (granted, Ok(()))
        }
    }
}

/// The ids of the pending requests of turn `turn_id`.
pub open spec fn turn_ids(m: ManagerView, turn_id: u128) -> Set<u128> {
    m.pending.dom().filter(|id: u128| m.pending[id].request.turn_id == turn_id)
}

/// Whether `order` lists each id of `ids` exactly once.
pub open spec fn enumerates(order: Seq<u128>, ids: Set<u128>) -> bool {
    order.no_duplicates() && order.to_set() == ids
}

/// `finished` with every id of `ended` recorded as `error`.
pub open spec fn finish_all(
    finished: Map<u128, ApprovalError>,
    ended: Seq<u128>,
    error: ApprovalError,
) -> Map<u128, ApprovalError>
    decreases ended.len(),
{
    if ended.len() == 0 {
        finished
    } else {
        finish_all(finished, ended.drop_last(), error).insert(ended.last(), error)
    }
}

/// The outcome `Cancelled` for the waiter of each id of `ended`, in order.
pub open spec fn cancelled_outcomes(ended: Seq<u128>) -> Seq<(u128, ApprovalOutcome)> {
    ended.map_values(|id: u128| (id, ApprovalOutcome::Cancelled))
}

/// The manager after cancelling every pending request of turn `turn_id`, the waiters told in
/// the order `order`: each request ends as cancelled and its waiter receives `Cancelled`.
pub open spec fn cancel_turn_step(m: ManagerView, turn_id: u128, order: Seq<u128>) -> ManagerView {
    ManagerView {
        pending: m.pending.remove_keys(turn_ids(m, turn_id)),
        finished: finish_all(m.finished, order, ApprovalError::Cancelled),
        delivered: m.delivered + cancelled_outcomes(order),
        outbox: m.outbox + cancelled_outcomes(order),
        ..m
    }
}

/// The manager after its waiter saw approval `approval_id` time out: a pending request is
/// cleared, its waiter receives `TimedOut`, and the approval is recorded as not found, so that
/// every later decision on it answers `NotFound`; anything else is left as it is.
pub open spec fn expire_step(m: ManagerView, approval_id: u128) -> ManagerView {
    if m.pending.contains_key(approval_id) {
        end_pending(m, approval_id, ApprovalError::NotFound, ApprovalOutcome::TimedOut)
    } else {
        m
    }
}

/// A pending request.
struct PendingApproval {
    request: ApprovalRequest,
    deadline: u64,
}

impl View for PendingApproval {
    type V = PendingView;

    closed spec fn view(&self) -> PendingView {
        PendingView { request: self.request@, deadline: self.deadline }
    }
}

/// The approval manager that one session actor owns.
pub struct ApprovalManager {
    origin: Instant,
    pending: HashMap<u128, PendingApproval>,
    session_rules: Vec<(SessionId, String)>,
    permanent_rules: Vec<String>,
    finished: HashMap<u128, ApprovalError>,
    timeout_ms: u64,
    delivered: Ghost<Seq<(u128, ApprovalOutcome)>>,
    outbox: Vec<ApprovalDelivery>,
}

impl View for ApprovalManager {
    type V = ManagerView;

    closed spec fn view(&self) -> ManagerView {
        ManagerView {
            pending: self.pending@.map_values(|p: PendingApproval| p@),
            session_rules: Set::new(
                |r: (Seq<char>, Seq<char>)|
                    exists|i: int|
                        0 <= i < self.session_rules@.len() && (#[trigger] self.session_rules@[i]).0@
                            == r.0 && self.session_rules@[i].1@ == r.1,
            ),
            permanent_rules: Set::new(
                |k: Seq<char>|
                    exists|i: int|
                        0 <= i < self.permanent_rules@.len() && (#[trigger] self.permanent_rules@[i])@
                            == k,
            ),
            finished: self.finished@,
            timeout_ms: self.timeout_ms,
            delivered: self.delivered@,
            outbox: deliveries_view(self.outbox@),
        }
    }
}

/// The outcome of an operation, without the value it returns on success.
pub open spec fn outcome_of<T>(r: Result<T, ApprovalError>) -> Result<(), ApprovalError> {
    match r {
        Ok(_) => Ok(()),
        Err(e) => Err(e),
    }
}


/// Ending the pending request `id` keeps the manager's invariant.
proof fn lemma_end_pending_keeps_invariant(
    m: ManagerView,
    id: u128,
    error: ApprovalError,
    outcome: ApprovalOutcome,
)
    requires
        manager_invariant(m),
        m.pending.contains_key(id),
    ensures
        manager_invariant(end_pending(m, id, error, outcome)),
{
    let n = end_pending(m, id, error, outcome);
    assert forall|k: int| 0 <= k < n.delivered.len() implies n.finished.contains_key(
        (#[trigger] n.delivered[k]).0,
    ) by {
        if k < m.delivered.len() {
            assert(n.delivered[k] == m.delivered[k]);
        }
    }
    assert forall|k: int, l: int| 0 <= k < l < n.delivered.len() implies (
    #[trigger] n.delivered[k]).0 != (#[trigger] n.delivered[l]).0 by {
        if l == m.delivered.len() {
            assert(n.delivered[k] == m.delivered[k]);
            assert(m.finished.contains_key(m.delivered[k].0));
        } else {
            assert(n.delivered[k] == m.delivered[k]);
            assert(n.delivered[l] == m.delivered[l]);
        }
    }
}

impl ApprovalManager {
    /// A manager with nothing pending, no rules, and the given timeout in milliseconds.
    pub fn new(timeout_ms: u64) -> (r: ApprovalManager)
        ensures
            r@.pending == Map::<u128, PendingView>::empty(),
            r@.session_rules == Set::<(Seq<char>, Seq<char>)>::empty(),
            r@.permanent_rules == Set::<Seq<char>>::empty(),
            r@.finished == Map::<u128, ApprovalError>::empty(),
            r@.timeout_ms == timeout_ms,
            r@.delivered.len() == 0,
            r@.outbox.len() == 0,
            manager_invariant(r@),
    {
        let r = ApprovalManager {
            origin: clock_origin(),
            pending: HashMap::new(),
            session_rules: Vec::new(),
            permanent_rules: Vec::new(),
            finished: HashMap::new(),
            timeout_ms,
            delivered: Ghost(Seq::empty()),
            outbox: Vec::new(),
        };
        assert(r@.pending =~= Map::<u128, PendingView>::empty());
        assert(r@.session_rules =~= Set::<(Seq<char>, Seq<char>)>::empty());
        assert(r@.permanent_rules =~= Set::<Seq<char>>::empty());
        r
    }

    /// The timeout of new requests, in milliseconds.
    pub fn timeout(&self) -> (r: u64)
        ensures
            r == self@.timeout_ms,
    {
        self.timeout_ms
    }

    /// Whether the session rules or the process rules already allow `policy_key`.
    pub fn is_allowed(&self, session_id: &SessionId, policy_key: &str) -> (r: bool)
        ensures
            r == allowed(self@, session_id@, policy_key@),
    {
        self.has_permanent_rule(policy_key) || self.has_session_rule(session_id, policy_key)
    }

    /// Whether the process rules allow `policy_key`.
    fn has_permanent_rule(&self, policy_key: &str) -> (r: bool)
        ensures
            r == self@.permanent_rules.contains(policy_key@),
    {
        let mut i: usize = 0;
        while i < self.permanent_rules.len()
            invariant
                i <= self.permanent_rules@.len(),
                forall|j: int| 0 <= j < i ==> (#[trigger] self.permanent_rules@[j])@ != policy_key@,
            decreases self.permanent_rules@.len() - i,
        {
            if crate::json::str_equal(self.permanent_rules[i].as_str(), policy_key) {
                return true;
            }
            i = i + 1;
        }
        false
    }

    /// Whether the rules of `session_id` allow `policy_key`.
    fn has_session_rule(&self, session_id: &SessionId, policy_key: &str) -> (r: bool)
        ensures
            r == self@.session_rules.contains((session_id@, policy_key@)),
    {
        let mut i: usize = 0;
        while i < self.session_rules.len()
            invariant
                i <= self.session_rules@.len(),
                forall|j: int|
                    0 <= j < i ==> !((#[trigger] self.session_rules@[j]).0@ == session_id@
                        && self.session_rules@[j].1@ == policy_key@),
            decreases self.session_rules@.len() - i,
        {
            let rule = &self.session_rules[i];
            if rule.0.same_as(session_id) && crate::json::str_equal(rule.1.as_str(), policy_key) {
                assert(self.session_rules@[i as int].0@ == session_id@);
                return true;
            }
            i = i + 1;
        }
        false
    }

    /// Ends the pending request `id`: records `error` and puts `outcome` out for its waiter.
    fn end_at(&mut self, id: u128, error: ApprovalError, outcome: ApprovalOutcome)
        requires
            old(self)@.pending.contains_key(id),
        ensures
            final(self)@ == end_pending(old(self)@, id, error, outcome),
    {
        let ghost before = self@;
        let _ = self.pending.remove(&id);
        self.finished.insert(id, error);
        self.delivered = Ghost(self.delivered@.push((id, outcome)));
        let ghost old_outbox = self.outbox@;
        self.outbox.push(ApprovalDelivery { approval_id: ApprovalId { value: id }, outcome });
        assert(deliveries_view(self.outbox@) =~= deliveries_view(old_outbox).push((id, outcome)));
        assert(self@.pending =~= before.pending.remove(id));
        assert(self@.session_rules =~= before.session_rules);
        assert(self@.permanent_rules =~= before.permanent_rules);
    }

    /// Registers a pending request at clock reading `now_ms` and returns its id; its outcome is
    /// put out for delivery when it ends.
    pub fn register_at(&mut self, request: ApprovalRequest, now_ms: u64) -> (r: Result<
        ApprovalId,
        ApprovalError,
    >)
        ensures
            (final(self)@, outcome_of(r)) == register_step(old(self)@, request@, now_ms),
            r matches Ok(id) ==> id == request.approval_id,
            manager_invariant(old(self)@) ==> manager_invariant(final(self)@),
    {
        let id = request.approval_id;
        if self.pending.contains_key(&id.value) {
            return Err(ApprovalError::AlreadyPending);
        }
        match self.finished.get(&id.value) {
            Some(error) => {
                return Err(*error);
            },
            None => {},
        }
        let ghost before = self@;
        let deadline = now_ms.saturating_add(self.timeout_ms);
        let ghost entry_view = PendingView { request: request@, deadline };
        self.pending.insert(id.value, PendingApproval { request, deadline });
        proof {
            assert(self@.pending =~= before.pending.insert(id.value, entry_view));
            assert(self@.session_rules =~= before.session_rules);
            assert(self@.permanent_rules =~= before.permanent_rules);
        }
        Ok(id)
    }

    /// Registers a pending request, timed from now, and returns its id; its outcome is put out
    /// for delivery when it ends.
    pub fn register(&mut self, request: ApprovalRequest) -> (r: Result<
        ApprovalId,
        ApprovalError,
    >)
        ensures
            exists|now: u64|
                (final(self)@, outcome_of(r)) == #[trigger] register_step(
                    old(self)@,
                    request@,
                    now,
                ),
            r matches Ok(id) ==> id == request.approval_id,
            manager_invariant(old(self)@) ==> manager_invariant(final(self)@),
    {
        let now = clock_millis(&self.origin);
        self.register_at(request, now)
    }

    /// Allows `policy_key` for the rest of session `session_id`.
    fn add_session_rule(&mut self, session_id: &SessionId, policy_key: &str)
        ensures
            final(self)@ == (ManagerView {
                session_rules: old(self)@.session_rules.insert((session_id@, policy_key@)),
                ..old(self)@
            }),
    {
        if self.has_session_rule(session_id, policy_key) {
            assert(self@.session_rules.insert((session_id@, policy_key@)) =~= self@.session_rules);
            return;
        }
        let ghost before = self@;
        let ghost old_rules = self.session_rules@;
        self.session_rules.push((session_id.duplicate(), policy_key.to_owned()));
        assert(self@.pending =~= before.pending);
        assert(self@.permanent_rules =~= before.permanent_rules);
        assert forall|r: (Seq<char>, Seq<char>)|
            #![auto]
            self@.session_rules.contains(r) == before.session_rules.insert(
                (session_id@, policy_key@),
            ).contains(r) by {
            if before.session_rules.contains(r) {
                let i = choose|i: int|
                    0 <= i < old_rules.len() && (#[trigger] old_rules[i]).0@ == r.0
                        && old_rules[i].1@ == r.1;
                assert(self.session_rules@[i] == old_rules[i]);
            }
            if self@.session_rules.contains(r) {
                let i = choose|i: int|
                    0 <= i < self.session_rules@.len() && (#[trigger] self.session_rules@[i]).0@
                        == r.0 && self.session_rules@[i].1@ == r.1;
                if i < old_rules.len() {
                    assert(self.session_rules@[i] == old_rules[i]);
                }
            }
            if r == (session_id@, policy_key@) {
                assert(self.session_rules@[old_rules.len() as int].0@ == r.0);
            }
        }
        assert(self@.session_rules =~= before.session_rules.insert((session_id@, policy_key@)));
    }

    /// Allows `policy_key` for the rest of the process.
    fn add_permanent_rule(&mut self, policy_key: &str)
        ensures
            final(self)@ == (ManagerView {
                permanent_rules: old(self)@.permanent_rules.insert(policy_key@),
                ..old(self)@
            }),
    {
        if self.has_permanent_rule(policy_key) {
            assert(self@.permanent_rules.insert(policy_key@) =~= self@.permanent_rules);
            return;
        }
        let ghost before = self@;
        let ghost old_rules = self.permanent_rules@;
        self.permanent_rules.push(policy_key.to_owned());
        assert(self@.pending =~= before.pending);
        assert(self@.session_rules =~= before.session_rules);
        assert forall|k: Seq<char>|
            #![auto]
            self@.permanent_rules.contains(k) == before.permanent_rules.insert(policy_key@).contains(
                k,
            ) by {
            if before.permanent_rules.contains(k) {
                let i = choose|i: int|
                    0 <= i < old_rules.len() && (#[trigger] old_rules[i])@ == k;
                assert(self.permanent_rules@[i] == old_rules[i]);
            }
            if self@.permanent_rules.contains(k) {
                let i = choose|i: int|
                    0 <= i < self.permanent_rules@.len() && (#[trigger] self.permanent_rules@[i])@
                        == k;
                if i < old_rules.len() {
                    assert(self.permanent_rules@[i] == old_rules[i]);
                }
            }
            if k == policy_key@ {
                assert(self.permanent_rules@[old_rules.len() as int]@ == k);
            }
        }
        assert(self@.permanent_rules =~= before.permanent_rules.insert(policy_key@));
    }

    /// Applies the user's decision at clock reading `now_ms`. The checks happen here, so that
    /// a client of another session or turn cannot decide, nor use up, someone else's request.
    pub fn resolve_at(
        &mut self,
        session_id: &SessionId,
        turn_id: &TurnId,
        approval_id: ApprovalId,
        decision: ApprovalDecision,
        now_ms: u64,
    ) -> (r: Result<(), ApprovalError>)
        ensures
            (final(self)@, r) == resolve_step(
                old(self)@,
                session_id@,
                turn_id.value,
                approval_id.value,
                decision,
                now_ms,
            ),
            manager_invariant(old(self)@) ==> manager_invariant(final(self)@),
    {
        let ghost before = self@;
        let id = approval_id.value;
        let (expired, same_session, same_turn, policy_key) = match self.pending.get(&id) {
            None => {
                return match self.finished.get(&id) {
                    Some(error) => Err(*error),
                    None => Err(ApprovalError::NotFound),
                };
            },
            Some(entry) => {
                assert(entry@ == before.pending[id]);
                (
                    now_ms >= entry.deadline,
                    entry.request.session_id.same_as(session_id),
                    entry.request.turn_id.value == turn_id.value,
                    entry.request.policy_key.as_str().to_owned(),
                )
            },
        };
        if expired {
            self.end_at(id, ApprovalError::Expired, ApprovalOutcome::TimedOut);
            proof {
                if manager_invariant(before) {
                    lemma_end_pending_keeps_invariant(
                        before,
                        id,
                        ApprovalError::Expired,
                        ApprovalOutcome::TimedOut,
                    );
                }
            }
            return Err(ApprovalError::Expired);
        }
        if !same_session {
            return Err(ApprovalError::SessionMismatch);
        }
        if !same_turn {
            return Err(ApprovalError::TurnMismatch);
        }
        let outcome = match decision {
            ApprovalDecision::Deny => ApprovalOutcome::Denied,
            d => ApprovalOutcome::Approved(d),
        };
        self.end_at(id, ApprovalError::AlreadyResolved, outcome);
        proof {
            if manager_invariant(before) {
                lemma_end_pending_keeps_invariant(
                    before,
                    id,
                    ApprovalError::AlreadyResolved,
                    outcome,
                );
            }
        }
        match decision {
            ApprovalDecision::Session => {
                self.add_session_rule(session_id, policy_key.as_str());
            },
            ApprovalDecision::Always => {
                self.add_permanent_rule(policy_key.as_str());
            },
            _ => {},
        }
        Ok(())
    }

    /// Applies the user's decision, with the clock read now; see `resolve_at`.
    pub fn resolve(
        &mut self,
        session_id: &SessionId,
        turn_id: &TurnId,
        approval_id: ApprovalId,
        decision: ApprovalDecision,
    ) -> (r: Result<(), ApprovalError>)
        ensures
            exists|now: u64|
                (final(self)@, r) == #[trigger] resolve_step(
                    old(self)@,
                    session_id@,
                    turn_id.value,
                    approval_id.value,
                    decision,
                    now,
                ),
            manager_invariant(old(self)@) ==> manager_invariant(final(self)@),
    {
        let now = clock_millis(&self.origin);
        self.resolve_at(session_id, turn_id, approval_id, decision, now)
    }

    /// Clears the pending request whose timeout its waiter has observed; every later
    /// `resolve` of it answers `NotFound`. An approval that is not pending is left alone.
    pub fn expire(&mut self, approval_id: ApprovalId)
        ensures
            final(self)@ == expire_step(old(self)@, approval_id.value),
            manager_invariant(old(self)@) ==> manager_invariant(final(self)@),
    {
        let ghost before = self@;
        if self.pending.contains_key(&approval_id.value) {
            self.end_at(approval_id.value, ApprovalError::NotFound, ApprovalOutcome::TimedOut);
            proof {
                if manager_invariant(before) {
                    lemma_end_pending_keeps_invariant(
                        before,
                        approval_id.value,
                        ApprovalError::NotFound,
                        ApprovalOutcome::TimedOut,
                    );
                }
            }
        }
    }

    /// Takes the outcomes decided since the last call, in the order they were decided, for the
    /// caller to hand each to its waiter.
    pub fn take_deliveries(&mut self) -> (r: Vec<ApprovalDelivery>)
        ensures
            deliveries_view(r@) == old(self)@.outbox,
            final(self)@ == (ManagerView { outbox: Seq::empty(), ..old(self)@ }),
    {
        let ghost before = self@;
        let mut taken: Vec<ApprovalDelivery> = Vec::new();
        std::mem::swap(&mut taken, &mut self.outbox);
        assert(deliveries_view(self.outbox@) =~= Seq::<(u128, ApprovalOutcome)>::empty());
        assert(self@.session_rules =~= before.session_rules);
        assert(self@.permanent_rules =~= before.permanent_rules);
        assert(self@.pending =~= before.pending);
        taken
    }

    /// The ids of the pending requests, each once, in the order the map yields them.
    fn pending_ids(&self) -> (r: Vec<u128>)
        ensures
            enumerates(r@, self@.pending.dom()),
    {
        let mut out: Vec<u128> = Vec::new();
        let ghost ks = vstd::std_specs::iter::IteratorSpec::remaining(
            &vstd::std_specs::hash::spec_keys_iter(&self.pending),
        ).unref();
        proof {
            assert(ks.to_set() == self.pending@.dom());
            assert(self@.pending.dom() =~= self.pending@.dom());
        }
        for k in it: self.pending.keys()
            invariant
                it.seq().unref() == ks,
                ks.no_duplicates(),
                out@ == ks.take(it.index()),
        {
            let ghost idx = it.index();
            assert(*k == ks[idx]);
            out.push(*k);
            assert(out@ =~= ks.take(idx + 1));
        }
        proof {
            assert(out@ =~= ks);
        }
        out
    }

    /// The pending requests, each once, in the order the map yields them.
    pub fn pending(&self) -> (r: Vec<ApprovalRequest>)
        ensures
            r@.len() == self@.pending.dom().len(),
            exists|order: Seq<u128>|
                enumerates(order, self@.pending.dom()) && order.len() == r@.len() && forall|i: int|
                    0 <= i < r@.len() ==> (#[trigger] r@[i])@ == self@.pending[order[i]].request,
    {
        let ids = self.pending_ids();
        let ghost order = ids@;
        proof {
            order.unique_seq_to_set();
        }
        let mut out: Vec<ApprovalRequest> = Vec::new();
        let mut i: usize = 0;
        while i < ids.len()
            invariant
                order == ids@,
                enumerates(order, self@.pending.dom()),
                i <= order.len(),
                out@.len() == i,
                forall|j: int| 0 <= j < i ==> (#[trigger] out@[j])@ == self@.pending[order[j]].request,
            decreases order.len() - i,
        {
            assert(order.to_set().contains(order[i as int]));
            match self.pending.get(&ids[i]) {
                Some(entry) => {
                    out.push(entry.request.duplicate());
                },
                None => {
                    proof { assert(false); }
                    return out;
                },
            }
            i = i + 1;
        }
        proof {
            order.unique_seq_to_set();
        }
        out
    }

    /// Cancels every pending request of turn `turn_id`; a late `resolve` answers `Cancelled`.
    /// The waiters are told in the order the map yields the requests.
    pub fn cancel_for_turn(&mut self, turn_id: &TurnId)
        ensures
            exists|order: Seq<u128>|
                enumerates(order, turn_ids(old(self)@, turn_id.value)) && final(self)@
                    == #[trigger] cancel_turn_step(old(self)@, turn_id.value, order),
            manager_invariant(old(self)@) ==> manager_invariant(final(self)@),
    {
        let ghost before = self@;
        let ghost t = turn_id.value;
        let ids = self.pending_ids();
        let mut ended: Vec<u128> = Vec::new();
        let mut i: usize = 0;
        while i < ids.len()
            invariant
                self@ == before,
                enumerates(ids@, before.pending.dom()),
                i <= ids@.len(),
                ended@.no_duplicates(),
                forall|x: u128| ended@.contains(x) <==> (exists|j: int|
                    0 <= j < i && ids@[j] == x && before.pending[x].request.turn_id == t),
                t == turn_id.value,
            decreases ids@.len() - i,
        {
            let ghost x = ids@[i as int];
            let ghost prev = ended@;
            assert(ids@.to_set().contains(x));
            let of_turn = match self.pending.get(&ids[i]) {
                Some(entry) => entry.request.turn_id.value == turn_id.value,
                None => false,
            };
            if of_turn {
                assert(!prev.contains(x)) by {
                    if prev.contains(x) {
                        let j = choose|j: int| 0 <= j < i && ids@[j] == x && before.pending[x].request.turn_id == t;
                        assert(ids@[j] == ids@[i as int]);
                    }
                }
                ended.push(ids[i]);
            }
            assert forall|y: u128| ended@.contains(y) <==> (exists|j: int|
                0 <= j < i + 1 && ids@[j] == y && before.pending[y].request.turn_id == t) by {
                if ended@.contains(y) && !prev.contains(y) {
                    assert(y == x);
                }
                if prev.contains(y) {
                    let k = choose|k: int| 0 <= k < prev.len() && prev[k] == y;
                    assert(ended@[k] == y);
                }
                if exists|j: int| 0 <= j < i + 1 && ids@[j] == y && before.pending[y].request.turn_id == t {
                    let j = choose|j: int| 0 <= j < i + 1 && ids@[j] == y && before.pending[y].request.turn_id == t;
                    if j == i {
                        assert(ended@[ended@.len() - 1] == y);
                    }
                }
            }
            i = i + 1;
        }
        let ghost order = ended@;
        proof {
            assert(order.to_set() =~= turn_ids(before, t)) by {
                assert forall|x: u128| order.to_set().contains(x) <==> turn_ids(before, t).contains(x) by {
                    if turn_ids(before, t).contains(x) {
                        assert(ids@.to_set().contains(x));
                        let j = choose|j: int| 0 <= j < ids@.len() && ids@[j] == x;
                    }
                }
            }
            assert(order.take(0) =~= Seq::<u128>::empty());
            assert(before.pending.remove_keys(order.take(0).to_set()) =~= before.pending);
            assert(cancelled_outcomes(order.take(0)) =~= Seq::empty());
            assert(before.delivered + cancelled_outcomes(order.take(0)) =~= before.delivered);
            assert(before.outbox + cancelled_outcomes(order.take(0)) =~= before.outbox);
        }
        let mut j: usize = 0;
        while j < ended.len()
            invariant
                order == ended@,
                enumerates(order, turn_ids(before, t)),
                j <= order.len(),
                self@.pending == before.pending.remove_keys(order.take(j as int).to_set()),
                self@.finished == finish_all(before.finished, order.take(j as int), ApprovalError::Cancelled),
                self@.delivered == before.delivered + cancelled_outcomes(order.take(j as int)),
                self@.outbox == before.outbox + cancelled_outcomes(order.take(j as int)),
                self@.session_rules == before.session_rules,
                self@.permanent_rules == before.permanent_rules,
                self@.timeout_ms == before.timeout_ms,
                manager_invariant(before) ==> manager_invariant(self@),
            decreases order.len() - j,
        {
            let id = ended[j];
            let ghost cur = self@;
            proof {
                assert(order.to_set().contains(id));
                assert(!order.take(j as int).to_set().contains(id)) by {
                    if order.take(j as int).to_set().contains(id) {
                        let k = choose|k: int| 0 <= k < j && order.take(j as int)[k] == id;
                        assert(order[k] == order[j as int]);
                    }
                }
                assert(cur.pending.contains_key(id));
                assert(order.take(j + 1) =~= order.take(j as int).push(id));
                let a = order.take(j + 1);
                let b = order.take(j as int);
                assert forall|x: u128| #[trigger] a.to_set().contains(x) == b.to_set().insert(id).contains(x) by {
                    if a.contains(x) {
                        let k = choose|k: int| 0 <= k < a.len() && a[k] == x;
                        if k < j {
                            assert(b[k] == x);
                        }
                    }
                    if b.contains(x) {
                        let k = choose|k: int| 0 <= k < b.len() && b[k] == x;
                        assert(a[k] == x);
                    }
                    if x == id {
                        assert(a[j as int] == id);
                    }
                }
                assert(a.to_set() =~= b.to_set().insert(id));
            }
            self.end_at(id, ApprovalError::Cancelled, ApprovalOutcome::Cancelled);
            proof {
                if manager_invariant(before) {
                    lemma_end_pending_keeps_invariant(
                        cur,
                        id,
                        ApprovalError::Cancelled,
                        ApprovalOutcome::Cancelled,
                    );
                }
                assert(self@.pending =~= before.pending.remove_keys(order.take(j + 1).to_set()));
                assert(order.take(j + 1).drop_last() =~= order.take(j as int));
                assert(cancelled_outcomes(order.take(j + 1)) =~= cancelled_outcomes(
                    order.take(j as int),
                ).push((id, ApprovalOutcome::Cancelled)));
                assert(self@.delivered =~= before.delivered + cancelled_outcomes(
                    order.take(j + 1),
                ));
                assert(self@.outbox =~= before.outbox + cancelled_outcomes(order.take(j + 1)));
            }
            j = j + 1;
        }
        proof {
            assert(order.take(order.len() as int) =~= order);
            assert(self@ == cancel_turn_step(before, t, order));
        }
    }
}

/// The timeout of a default manager: five minutes.
pub const DEFAULT_APPROVAL_TIMEOUT_MS: u64 = 300_000;

impl Default for ApprovalManager {
    /// A manager with the default timeout and nothing pending.
    fn default() -> (r: ApprovalManager)
        ensures
            r@.pending == Map::<u128, PendingView>::empty(),
            r@.session_rules == Set::<(Seq<char>, Seq<char>)>::empty(),
            r@.permanent_rules == Set::<Seq<char>>::empty(),
            r@.finished == Map::<u128, ApprovalError>::empty(),
            r@.timeout_ms == DEFAULT_APPROVAL_TIMEOUT_MS,
            r@.delivered.len() == 0,
            r@.outbox.len() == 0,
            manager_invariant(r@),
    {
        ApprovalManager::new(DEFAULT_APPROVAL_TIMEOUT_MS)
    }
}

/// What `finish_all` records: the ids of `ended` map to `error`, every other id keeps its entry.
pub proof fn lemma_finish_all(
    finished: Map<u128, ApprovalError>,
    ended: Seq<u128>,
    error: ApprovalError,
    k: u128,
)
    ensures
        ended.contains(k) ==> finish_all(finished, ended, error).contains_key(k) && finish_all(
            finished,
            ended,
            error,
        )[k] == error,
        !ended.contains(k) ==> finish_all(finished, ended, error).contains_key(k)
            == finished.contains_key(k) && (finished.contains_key(k) ==> finish_all(
            finished,
            ended,
            error,
        )[k] == finished[k]),
    decreases ended.len(),
{
    if ended.len() > 0 {
        let rest = ended.drop_last();
        lemma_finish_all(finished, rest, error, k);
        if rest.contains(k) {
            let j = choose|j: int| 0 <= j < rest.len() && rest[j] == k;
            assert(ended[j] == rest[j]);
        }
        if ended.contains(k) && k != ended.last() {
            let j = choose|j: int| 0 <= j < ended.len() && ended[j] == k;
            assert(rest[j] == ended[j]);
        }
        if !ended.contains(k) {
            assert(ended[ended.len() - 1] != k);
            if rest.contains(k) {
                let j = choose|j: int| 0 <= j < rest.len() && rest[j] == k;
                assert(ended[j] == k);
            }
        }
    }
}

/// Cancelling a turn keeps the manager's invariant, whatever the order in which its waiters are
/// told.
pub proof fn law_cancel_keeps_invariant(m: ManagerView, turn_id: u128, order: Seq<u128>)
    requires
        manager_invariant(m),
        enumerates(order, turn_ids(m, turn_id)),
    ensures
        manager_invariant(cancel_turn_step(m, turn_id, order)),
{
    let n = cancel_turn_step(m, turn_id, order);
    let ids = turn_ids(m, turn_id);
    assert forall|id: u128| #[trigger] n.pending.contains_key(id) implies n.pending[id].request.approval_id
        == id && !n.finished.contains_key(id) by {
        assert(!ids.contains(id));
        assert(!order.contains(id)) by {
            if order.contains(id) {
                assert(order.to_set().contains(id));
            }
        }
        lemma_finish_all(m.finished, order, ApprovalError::Cancelled, id);
    }
    assert forall|k: int| 0 <= k < n.delivered.len() implies n.finished.contains_key(
        (#[trigger] n.delivered[k]).0,
    ) by {
        let x = n.delivered[k].0;
        lemma_finish_all(m.finished, order, ApprovalError::Cancelled, x);
        if k >= m.delivered.len() {
            assert(order[k - m.delivered.len()] == x);
        } else {
            assert(n.delivered[k] == m.delivered[k]);
        }
    }
    assert forall|k: int, l: int| 0 <= k < l < n.delivered.len() implies (
    #[trigger] n.delivered[k]).0 != (#[trigger] n.delivered[l]).0 by {
        let d = m.delivered.len() as int;
        if l < d {
            assert(n.delivered[k] == m.delivered[k]);
            assert(n.delivered[l] == m.delivered[l]);
        } else if k < d {
            assert(n.delivered[k] == m.delivered[k]);
            let y = order[l - d];
            assert(n.delivered[l].0 == y);
            assert(order.to_set().contains(y));
            assert(m.pending.contains_key(y));
            assert(m.finished.contains_key(m.delivered[k].0));
        } else {
            assert(n.delivered[k].0 == order[k - d]);
            assert(n.delivered[l].0 == order[l - d]);
        }
    }
}

/// A decision that is accepted ends exactly the decided request: it leaves the pending
/// requests, is recorded as resolved, and the decision's outcome is put out for its waiter,
/// and for no other.
pub proof fn law_accepted_decision_ends_only_its_request(
    m: ManagerView,
    session_id: Seq<char>,
    turn_id: u128,
    approval_id: u128,
    decision: ApprovalDecision,
    now: u64,
)
    requires
        resolve_step(m, session_id, turn_id, approval_id, decision, now).1 is Ok,
    ensures
        ({
            let n = resolve_step(m, session_id, turn_id, approval_id, decision, now).0;
            &&& m.pending.contains_key(approval_id)
            &&& n.pending == m.pending.remove(approval_id)
            &&& n.finished == m.finished.insert(approval_id, ApprovalError::AlreadyResolved)
            &&& n.delivered == m.delivered.push((approval_id, decision_outcome(decision)))
            &&& n.outbox == m.outbox.push((approval_id, decision_outcome(decision)))
        }),
{
}

/// `Once` approves the one call and allows nothing further, in any session.
pub proof fn law_once_allows_nothing_further(
    m: ManagerView,
    session_id: Seq<char>,
    turn_id: u128,
    approval_id: u128,
    now: u64,
    any_session: Seq<char>,
    any_policy: Seq<char>,
)
    requires
        resolve_step(m, session_id, turn_id, approval_id, ApprovalDecision::Once, now).1 is Ok,
    ensures
        allowed(
            resolve_step(m, session_id, turn_id, approval_id, ApprovalDecision::Once, now).0,
            any_session,
            any_policy,
        ) == allowed(m, any_session, any_policy),
{
}

/// `Session` allows the request's policy key in the deciding session, and in no other.
pub proof fn law_session_decision_scope(
    m: ManagerView,
    session_id: Seq<char>,
    turn_id: u128,
    approval_id: u128,
    now: u64,
    other_session: Seq<char>,
    any_policy: Seq<char>,
)
    requires
        resolve_step(m, session_id, turn_id, approval_id, ApprovalDecision::Session, now).1 is Ok,
        other_session != session_id,
    ensures
        ({
            let n = resolve_step(m, session_id, turn_id, approval_id, ApprovalDecision::Session, now).0;
            let policy = m.pending[approval_id].request.policy_key;
            &&& allowed(n, session_id, policy)
            &&& allowed(n, other_session, any_policy) == allowed(m, other_session, any_policy)
        }),
{
}

/// `Always` allows the request's policy key in every session.
pub proof fn law_always_decision_scope(
    m: ManagerView,
    session_id: Seq<char>,
    turn_id: u128,
    approval_id: u128,
    now: u64,
    any_session: Seq<char>,
)
    requires
        resolve_step(m, session_id, turn_id, approval_id, ApprovalDecision::Always, now).1 is Ok,
    ensures
        allowed(
            resolve_step(m, session_id, turn_id, approval_id, ApprovalDecision::Always, now).0,
            any_session,
            m.pending[approval_id].request.policy_key,
        ),
{
}

/// A decision sent from another session, or for another turn, before the deadline changes
/// nothing: the request stays pending for its own waiter.
pub proof fn law_mismatch_does_not_consume(
    m: ManagerView,
    session_id: Seq<char>,
    turn_id: u128,
    approval_id: u128,
    decision: ApprovalDecision,
    now: u64,
)
    requires
        m.pending.contains_key(approval_id),
        now < m.pending[approval_id].deadline,
        m.pending[approval_id].request.session_id != session_id
            || m.pending[approval_id].request.turn_id != turn_id,
    ensures
        resolve_step(m, session_id, turn_id, approval_id, decision, now).0 == m,
        resolve_step(m, session_id, turn_id, approval_id, decision, now).1 is Err,
{
}

/// A request decided once cannot be decided again: every later decision answers
/// `AlreadyResolved`, whoever sends it, and changes nothing.
pub proof fn law_resolve_twice(
    m: ManagerView,
    session_id: Seq<char>,
    turn_id: u128,
    approval_id: u128,
    decision: ApprovalDecision,
    now: u64,
    session_id2: Seq<char>,
    turn_id2: u128,
    decision2: ApprovalDecision,
    now2: u64,
)
    requires
        resolve_step(m, session_id, turn_id, approval_id, decision, now).1 is Ok,
    ensures
        ({
            let n = resolve_step(m, session_id, turn_id, approval_id, decision, now).0;
            resolve_step(n, session_id2, turn_id2, approval_id, decision2, now2) == (
                n,
                Err::<(), ApprovalError>(ApprovalError::AlreadyResolved),
            )
        }),
{
}

/// A request of a cancelled turn cannot be decided afterwards, whatever the order in which the
/// waiters were told: every decision answers `Cancelled` and changes nothing.
pub proof fn law_resolve_after_cancel(
    m: ManagerView,
    turn_id: u128,
    order: Seq<u128>,
    approval_id: u128,
    session_id: Seq<char>,
    turn_id2: u128,
    decision: ApprovalDecision,
    now: u64,
)
    requires
        manager_invariant(m),
        enumerates(order, turn_ids(m, turn_id)),
        m.pending.contains_key(approval_id),
        m.pending[approval_id].request.turn_id == turn_id,
    ensures
        ({
            let n = cancel_turn_step(m, turn_id, order);
            resolve_step(n, session_id, turn_id2, approval_id, decision, now) == (
                n,
                Err::<(), ApprovalError>(ApprovalError::Cancelled),
            )
        }),
{
    assert(turn_ids(m, turn_id).contains(approval_id));
    assert(order.to_set().contains(approval_id));
    lemma_finish_all(m.finished, order, ApprovalError::Cancelled, approval_id);
}

/// A request whose timeout its waiter observed cannot be decided afterwards: every decision
/// answers `NotFound` and changes nothing.
pub proof fn law_resolve_after_expire(
    m: ManagerView,
    approval_id: u128,
    session_id: Seq<char>,
    turn_id: u128,
    decision: ApprovalDecision,
    now: u64,
)
    requires
        m.pending.contains_key(approval_id),
    ensures
        ({
            let n = expire_step(m, approval_id);
            &&& !n.pending.contains_key(approval_id)
            &&& resolve_step(n, session_id, turn_id, approval_id, decision, now) == (
                n,
                Err::<(), ApprovalError>(ApprovalError::NotFound),
            )
        }),
{
}

/// A decision that arrives at or after the deadline ends the request as expired: the answer
/// is `Expired` and `TimedOut` is put out for the waiter.
pub proof fn law_late_decision_expires(
    m: ManagerView,
    session_id: Seq<char>,
    turn_id: u128,
    approval_id: u128,
    decision: ApprovalDecision,
    now: u64,
)
    requires
        m.pending.contains_key(approval_id),
        now >= m.pending[approval_id].deadline,
    ensures
        ({
            let (n, r) = resolve_step(m, session_id, turn_id, approval_id, decision, now);
            &&& r == Err::<(), ApprovalError>(ApprovalError::Expired)
            &&& n.delivered == m.delivered.push((approval_id, ApprovalOutcome::TimedOut))
            &&& n.outbox == m.outbox.push((approval_id, ApprovalOutcome::TimedOut))
            &&& n.finished == m.finished.insert(approval_id, ApprovalError::Expired)
        }),
{
}

/// An approval that has ended cannot be registered again: registering it answers the error
/// it ended with.
pub proof fn law_ended_approval_stays_ended(
    m: ManagerView,
    request: ApprovalRequestView,
    now: u64,
)
    requires
        manager_invariant(m),
        m.finished.contains_key(request.approval_id),
    ensures
        register_step(m, request, now) == (
            m,
            Err::<(), ApprovalError>(m.finished[request.approval_id]),
        ),
{
    if m.pending.contains_key(request.approval_id) {
        assert(!m.finished.contains_key(request.approval_id));
    }
}

/// A request registered at clock reading `now` expires `timeout_ms` milliseconds later (at the
/// largest reading, when that sum does not fit): a decision at any reading at or after
/// `now + timeout_ms` ends it as expired, whoever sends it, and its waiter is told it timed
/// out; a decision from the request's own session and turn at any earlier reading is accepted.
pub proof fn law_registered_request_expires_after_the_timeout(
    m: ManagerView,
    request: ApprovalRequestView,
    now: u64,
    later: u64,
    session_id: Seq<char>,
    turn_id: u128,
    decision: ApprovalDecision,
)
    ensures
        ({
            let (n, r) = register_step(m, request, now);
            let id = request.approval_id;
            let (after, answer) = resolve_step(n, session_id, turn_id, id, decision, later);
            &&& r is Ok ==> n.pending.contains_key(id)
            &&& r is Ok && now + m.timeout_ms <= u64::MAX ==> n.pending[id].deadline == now
                + m.timeout_ms
            &&& r is Ok && now + m.timeout_ms > u64::MAX ==> n.pending[id].deadline == u64::MAX
            &&& r is Ok && later >= now + m.timeout_ms ==> answer == Err::<(), ApprovalError>(
                ApprovalError::Expired,
            ) && after.outbox == n.outbox.push((id, ApprovalOutcome::TimedOut))
            &&& r is Ok && later < now + m.timeout_ms && later < u64::MAX && session_id
                == request.session_id && turn_id == request.turn_id ==> answer is Ok
                && after.outbox == n.outbox.push((id, decision_outcome(decision)))
        }),
{
}

} // verus!
