//! How the session actor steps through a batch of tool calls and its approvals.
//!
//! The actor starts one tool at a time, so that it can pause safely before a dangerous call
//! and resume at the same place after the approval. What it decides at each point is here;
//! running tools, persisting facts and publishing events are not.

use vstd::prelude::*;

use crate::approval::{
    allowed, expire_step, ApprovalDecision, ApprovalManager, ApprovalOutcome, ApprovalRequest,
    manager_invariant,
};
use crate::dispatch::{
    batch_dispatch_error, dispatch_error_text, planned_as, ToolDispatchPlan, ToolDispatcher,
};
use crate::ids::{SessionId, TurnId};
use crate::runtime_error::RuntimeError;
use crate::tool_call::ToolCall;
use crate::tool_worker::ToolExecutionResult;

verus! {

/// The cursor of the actor through one provider batch of tool calls.
///
/// Finished results live only in the store; the batch keeps the plans and whether the current
/// call holds a one-time approval, so that resuming after an approval never reruns an earlier
/// tool.
#[derive(Debug)]
pub struct PendingToolBatch {
    pub plans: Vec<ToolDispatchPlan>,
    pub next_index: usize,
    pub current_approved: bool,
}

impl PendingToolBatch {
    /// A batch at its first call, without approval.
    pub fn new(plans: Vec<ToolDispatchPlan>) -> (r: PendingToolBatch)
        ensures
            r.plans@ == plans@,
            r.next_index == 0,
            !r.current_approved,
    {
        PendingToolBatch { plans, next_index: 0, current_approved: false }
    }

    /// The call to run next, if any is left.
    pub fn current(&self) -> (r: Option<&ToolDispatchPlan>)
        ensures
            self.next_index < self.plans@.len() ==> r == Some(&self.plans@[self.next_index as int]),
            self.next_index >= self.plans@.len() ==> r is None,
    {
        if self.next_index < self.plans.len() {
            Some(&self.plans[self.next_index])
        } else {
            None
        }
    }

    /// Gives the current call a one-time approval.
    pub fn approve_current(&mut self)
        ensures
            final(self).plans@ == old(self).plans@,
            final(self).next_index == old(self).next_index,
            final(self).current_approved,
    {
        self.current_approved = true;
    }

    /// Moves to the next call; the one-time approval of the finished call does not carry over.
    pub fn complete_current(&mut self)
        requires
            old(self).next_index < usize::MAX,
        ensures
            final(self).plans@ == old(self).plans@,
            final(self).next_index == old(self).next_index + 1,
            !final(self).current_approved,
    {
        self.next_index = self.next_index + 1;
        self.current_approved = false;
    }
}

/// What the tool policy decides of one call before it runs.
#[derive(Debug, Clone, PartialEq, Eq)]
pub enum ApprovalPolicyDecision {
    /// The call may run.
    Allow,
    /// The call needs the user's approval under `policy_key`; `summary` is shown to the user.
    RequireApproval { policy_key: String, summary: String },
    /// Policy refuses the call.
    Deny { reason: String },
}

/// What the actor does next in a tool batch.
#[derive(Debug, PartialEq, Eq)]
pub enum ToolStep {
    /// The batch is done; the next provider round starts.
    FinishBatch,
    /// Run the current call.
    Start,
    /// Ask the user to approve the current call.
    RequestApproval { policy_key: String, summary: String },
    /// Fail the current call because policy refuses it.
    Deny { reason: String },
}

/// Decides the next step for `batch`, given what the policy decides of its current call and
/// the rules `approvals` holds for `session_id`: a finished batch ends; a call approved once,
/// allowed by policy, or allowed by a session or process rule runs; another call needing
/// approval asks for it; a refused call fails.
pub fn decide_tool_step(
    batch: &PendingToolBatch,
    policy: ApprovalPolicyDecision,
    approvals: &ApprovalManager,
    session_id: &SessionId,
) -> (r: ToolStep)
    ensures
        batch.next_index >= batch.plans@.len() ==> r == ToolStep::FinishBatch,
        batch.next_index < batch.plans@.len() && batch.current_approved ==> r == ToolStep::Start,
        batch.next_index < batch.plans@.len() && !batch.current_approved ==> match policy {
            ApprovalPolicyDecision::Allow => r == ToolStep::Start,
            ApprovalPolicyDecision::RequireApproval { policy_key, summary } => if allowed(
                approvals@,
                session_id@,
                policy_key@,
            ) {
                r == ToolStep::Start
            } else {
                r matches ToolStep::RequestApproval { policy_key: k, summary: s } && k@
                    == policy_key@ && s@ == summary@
            },
            ApprovalPolicyDecision::Deny { reason } => r matches ToolStep::Deny { reason: x }
                && x@ == reason@,
        },
{
    if batch.current().is_none() {
        return ToolStep::FinishBatch;
    }
    if batch.current_approved {
        return ToolStep::Start;
    }
    match policy {
        ApprovalPolicyDecision::Allow => ToolStep::Start,
        ApprovalPolicyDecision::RequireApproval { policy_key, summary } => {
            if approvals.is_allowed(session_id, policy_key.as_str()) {
                ToolStep::Start
            } else {
                ToolStep::RequestApproval { policy_key, summary }
            }
        },
        ApprovalPolicyDecision::Deny { reason } => ToolStep::Deny { reason },
    }
}

/// How the actor treats an approval request that a tool worker raised.
#[derive(Debug, PartialEq, Eq)]
pub enum ApprovalRequiredStep {
    /// The request belongs to another session or turn: the turn fails.
    ContextMismatch,
    /// The client cannot approve interactively: the current call fails.
    Unavailable,
    /// A rule already allows the policy key: nothing is to be done.
    AlreadyAllowed,
    /// The request is registered and the user is asked.
    Register,
}

/// Decides how to treat `request`, raised in turn `turn_id` of session `session_id`.
pub fn decide_approval_required(
    request: &ApprovalRequest,
    session_id: &SessionId,
    turn_id: TurnId,
    interactive: bool,
    approvals: &ApprovalManager,
) -> (r: ApprovalRequiredStep)
    ensures
        r == (if request.session_id@ != session_id@ || request.turn_id != turn_id {
            ApprovalRequiredStep::ContextMismatch
        } else if !interactive {
            ApprovalRequiredStep::Unavailable
        } else if allowed(approvals@, session_id@, request.policy_key@) {
            ApprovalRequiredStep::AlreadyAllowed
        } else {
            ApprovalRequiredStep::Register
        }),
{
    if !request.session_id.same_as(session_id) || request.turn_id != turn_id {
        ApprovalRequiredStep::ContextMismatch
    } else if !interactive {
        ApprovalRequiredStep::Unavailable
    } else if approvals.is_allowed(session_id, request.policy_key.as_str()) {
        ApprovalRequiredStep::AlreadyAllowed
    } else {
        ApprovalRequiredStep::Register
    }
}

/// What follows an approval outcome for the current call.
#[derive(Debug, PartialEq, Eq)]
pub enum ApprovalFollowUp {
    /// The call was approved: the batch continues with it.
    Continue(ApprovalDecision),
    /// The call fails with this error kind and message.
    FailTool { error_kind: &'static str, message: &'static str },
    /// The turn is being cancelled: nothing more happens here.
    Nothing,
    /// The outcome is not that of the approval the active turn waits for: it is ignored.
    Stale,
}

/// Applies the outcome of approval `approval_id` to the manager and the batch. `awaited` is the
/// approval the active turn waits for (`None` when the outcome's turn is not the active one);
/// an outcome of any other approval is stale and changes nothing. Otherwise the turn stops
/// waiting; a timeout or a cancellation ends the pending request in the manager; an approval
/// marks the current call as approved once; a refusal or a timeout fails the call.
pub fn apply_approval_outcome(
    approvals: &mut ApprovalManager,
    batch: &mut PendingToolBatch,
    awaited: &mut Option<crate::ids::ApprovalId>,
    approval_id: crate::ids::ApprovalId,
    outcome: ApprovalOutcome,
) -> (r: ApprovalFollowUp)
    ensures
        *old(awaited) != Some(approval_id) ==> {
            &&& r == ApprovalFollowUp::Stale
            &&& final(approvals)@ == old(approvals)@
            &&& *final(batch) == *old(batch)
            &&& *final(awaited) == *old(awaited)
        },
        *old(awaited) == Some(approval_id) ==> {
            &&& *final(awaited) == None::<crate::ids::ApprovalId>
            &&& match outcome {
                ApprovalOutcome::TimedOut | ApprovalOutcome::Cancelled => final(approvals)@
                    == expire_step(old(approvals)@, approval_id.value),
                _ => final(approvals)@ == old(approvals)@,
            }
            &&& final(batch).plans@ == old(batch).plans@
            &&& final(batch).next_index == old(batch).next_index
            &&& final(batch).current_approved == (outcome is Approved || old(batch).current_approved)
            &&& match outcome {
                ApprovalOutcome::Approved(d) => r == ApprovalFollowUp::Continue(d),
                ApprovalOutcome::Denied => r matches ApprovalFollowUp::FailTool { error_kind, message }
                    && error_kind@ == "approval_denied"@ && message@ == "用户拒绝了工具执行"@,
                ApprovalOutcome::TimedOut => r matches ApprovalFollowUp::FailTool {
                    error_kind,
                    message,
                } && error_kind@ == "approval_timeout"@ && message@ == "审批等待超时"@,
                ApprovalOutcome::Cancelled => r == ApprovalFollowUp::Nothing,
            }
        },
        manager_invariant(old(approvals)@) ==> manager_invariant(final(approvals)@),
{
    let is_awaited = match *awaited {
        Some(id) => id.value == approval_id.value,
        None => false,
    };
    if !is_awaited {
        return ApprovalFollowUp::Stale;
    }
    *awaited = None;
    match outcome {
        ApprovalOutcome::TimedOut | ApprovalOutcome::Cancelled => {
            approvals.expire(approval_id);
        },
        _ => {},
    }
    match outcome {
        ApprovalOutcome::Approved(decision) => {
            batch.approve_current();
            ApprovalFollowUp::Continue(decision)
        },
        ApprovalOutcome::Denied => ApprovalFollowUp::FailTool {
            error_kind: "approval_denied",
            message: "用户拒绝了工具执行",
        },
        ApprovalOutcome::TimedOut => ApprovalFollowUp::FailTool {
            error_kind: "approval_timeout",
            message: "审批等待超时",
        },
        ApprovalOutcome::Cancelled => ApprovalFollowUp::Nothing,
    }
}

/// Why the actor fails the active turn: the stage that failed and the reason.
#[derive(Debug, PartialEq, Eq)]
pub struct TurnFailure {
    pub stage: &'static str,
    pub reason: String,
}

/// Plans the tool calls of one provider round, the `tool_rounds`-th of the turn: a turn past
/// `max_tool_rounds` rounds fails, as does a round without calls, a runtime without a tool
/// registry, or a batch the dispatcher refuses.
pub fn plan_tool_round(
    tool_rounds: u32,
    max_tool_rounds: u32,
    calls: Vec<ToolCall>,
    dispatcher: Option<&ToolDispatcher>,
) -> (r: Result<Vec<ToolDispatchPlan>, TurnFailure>)
    ensures
        tool_rounds >= max_tool_rounds ==> (r matches Err(f) && f.stage@ == "tool_loop_limit"@
            && f.reason@ == "工具调用超过最大回环次数"@),
        tool_rounds < max_tool_rounds && calls@.len() == 0 ==> (r matches Err(f) && f.stage@
            == "tool_dispatch"@ && f.reason@ == "Provider 返回了空工具调用列表"@),
        tool_rounds < max_tool_rounds && calls@.len() > 0 && dispatcher is None ==> (r matches Err(
            f,
        ) && f.stage@ == "tool_dispatch"@ && f.reason@ == "ToolRegistry 未配置"@),
        tool_rounds < max_tool_rounds && calls@.len() > 0 && dispatcher is Some ==> match 
        batch_dispatch_error(calls@, dispatcher->0.registry_spec()@) {
            Some(e) => r matches Err(f) && f.stage@ == "tool_dispatch"@ && f.reason@
                == dispatch_error_text(e),
            None => r matches Ok(plans) && plans@.len() == calls@.len() && forall|i: int|
                0 <= i < calls@.len() ==> planned_as(
                    #[trigger] plans@[i],
                    calls@[i],
                    dispatcher->0.registry_spec()@,
                ),
        },
{
    if tool_rounds >= max_tool_rounds {
        return Err(
            TurnFailure { stage: "tool_loop_limit", reason: "工具调用超过最大回环次数".to_owned() },
        );
    }
    if calls.len() == 0 {
        return Err(
            TurnFailure {
                stage: "tool_dispatch",
                reason: "Provider 返回了空工具调用列表".to_owned(),
            },
        );
    }
    match dispatcher {
        None => Err(TurnFailure { stage: "tool_dispatch", reason: "ToolRegistry 未配置".to_owned() }),
        Some(d) => match d.plan(calls) {
            Ok(plans) => Ok(plans),
            Err(e) => Err(TurnFailure { stage: "tool_dispatch", reason: e.message() }),
        },
    }
}

/// Admits a new prompt only while no turn is active; otherwise the session is busy.
pub fn validate_prompt_submission(has_active_turn: bool, session_id: &SessionId) -> (r: Result<
    (),
    RuntimeError,
>)
    ensures
        !has_active_turn ==> r is Ok,
        has_active_turn ==> (r matches Err(RuntimeError::Busy { session_id: s }) && s@
            == session_id@),
{
    if has_active_turn {
        return Err(RuntimeError::Busy { session_id: session_id.duplicate() });
    }
    Ok(())
}

/// What a prompt does about the session's stored generation.
#[derive(Debug, Clone, Copy, PartialEq, Eq, Structural)]
pub enum GenerationStep {
    /// The stored generation has the same system prompt and tool schema: it is used as it is.
    Reuse,
    /// No generation is stored yet: it is created with these hashes.
    Create,
}

/// Decides about the session's current generation, given its stored hashes (`None` when
/// there is none) and the hashes of this prompt: equal hashes reuse it, none creates it, and
/// different hashes need a transition that a prompt cannot make.
pub fn decide_generation(
    stored: Option<(&str, &str)>,
    system_hash: &str,
    tool_schema_hash: &str,
) -> (r: Result<GenerationStep, RuntimeError>)
    ensures
        match stored {
            None => r == Ok::<GenerationStep, RuntimeError>(GenerationStep::Create),
            Some((s, t)) => if s@ == system_hash@ && t@ == tool_schema_hash@ {
                r == Ok::<GenerationStep, RuntimeError>(GenerationStep::Reuse)
            } else {
                r matches Err(RuntimeError::RequiresTransition)
            },
        },
{
    match stored {
        None => Ok(GenerationStep::Create),
        Some((s, t)) => {
            if crate::json::str_equal(s, system_hash) && crate::json::str_equal(t, tool_schema_hash) {
                Ok(GenerationStep::Reuse)
            } else {
                Err(RuntimeError::RequiresTransition)
            }
        },
    }
}

/// Checks what a tool worker sent back against the batch: exactly one result, for the call
/// the batch is waiting on.
pub fn check_tool_results(
    batch: Option<&PendingToolBatch>,
    results: &Vec<ToolExecutionResult>,
) -> (r: Result<(), TurnFailure>)
    ensures
        results@.len() != 1 ==> (r matches Err(f) && f.stage@ == "tool_protocol"@ && f.reason@
            == "工具 worker 必须一次返回当前调用的一个结果"@),
        results@.len() == 1 ==> ({
            let waiting = batch matches Some(b) && b.next_index < b.plans@.len()
                && b.plans@[b.next_index as int].call.call_id@ == results@[0].call_id@;
            &&& waiting ==> r is Ok
            &&& !waiting ==> (r matches Err(f) && f.stage@ == "tool_protocol"@ && f.reason@
                == "工具结果与当前等待的调用不匹配"@)
        }),
{
    if results.len() != 1 {
        return Err(
            TurnFailure {
                stage: "tool_protocol",
                reason: "工具 worker 必须一次返回当前调用的一个结果".to_owned(),
            },
        );
    }
    let matches = match batch {
        Some(b) => match b.current() {
            Some(plan) => crate::json::str_equal(
                plan.call.call_id.as_str(),
                results[0].call_id.as_str(),
            ),
            None => false,
        },
        None => false,
    };
    if !matches {
        return Err(
            TurnFailure {
                stage: "tool_protocol",
                reason: "工具结果与当前等待的调用不匹配".to_owned(),
            },
        );
    }
    Ok(())
}

} // verus!
