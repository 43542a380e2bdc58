//! Read-only recovery planning after a runtime restart.
//!
//! The planner only reads facts that were committed for the running turn; it never starts a
//! provider, a tool worker or a process. A tool call that started but has no result may or may
//! not have had its effect, so it is closed fail-safe: its result is recorded as unknown and
//! the call is never run again.

use vstd::prelude::*;

use crate::ids::TurnId;
use crate::tool_worker::ToolExecutionResult;
use crate::json::{get_spec, str_equal, JsonValue};
use crate::text_collections::{
    map_get, map_insert, set_contains, set_insert, set_remove, text_map, text_set,
};

verus! {

/// The kinds of committed facts that recovery reads.
#[derive(Debug, Clone, Copy, PartialEq, Eq, Structural)]
pub enum RecoveryEventKind {
    /// A message was committed to the transcript.
    MessageCommitted,
    /// A tool call started running.
    ToolStarted,
    /// A tool call has its result.
    ToolCompleted,
    /// An approval was requested for a tool call.
    ApprovalRequested,
    /// An approval was decided.
    ApprovalResolved,
    /// An approval timed out.
    ApprovalTimedOut,
    /// Any other fact.
    Other,
}

/// One committed fact of a turn: its kind, its JSON payload, and, when the payload has a
/// `tool_calls` member, what decoding that member as a list of tool calls gave: the (call id,
/// tool name) pairs in order, or the decoder's error text. The reader of the store decodes it
/// with serde, as the stored messages were written.
#[derive(Debug, PartialEq)]
pub struct StoredEvent {
    pub kind: RecoveryEventKind,
    pub payload: JsonValue,
    pub tool_calls: Option<Result<Vec<(String, String)>, String>>,
}

/// The decoded `tool_calls` member of a fact, as texts.
pub open spec fn decoded_tool_calls(event: StoredEvent) -> Option<
    Result<Seq<(Seq<char>, Seq<char>)>, Seq<char>>,
> {
    match event.tool_calls {
        None => None,
        Some(Ok(calls)) => Some(Ok(pair_views(calls@))),
        Some(Err(e)) => Some(Err(e@)),
    }
}

/// A tool call without a committed result, and the error that is recorded for it.
#[derive(Debug, Clone, PartialEq, Eq)]
pub struct RecoveredToolCall {
    pub call_id: String,
    pub name: String,
    pub error_kind: &'static str,
    pub message: &'static str,
}

/// How a running turn left over by a restart is closed.
#[derive(Debug, Clone, PartialEq, Eq)]
pub struct RecoveryPlan {
    pub turn_id: TurnId,
    pub unresolved_tools: Vec<RecoveredToolCall>,
}

/// What recovery has learned from the facts read so far.
pub struct RecoveryState {
    /// The tool calls the assistant asked for, as (call id, tool name), in order.
    pub calls: Seq<(Seq<char>, Seq<char>)>,
    /// The calls that started running.
    pub started: Set<Seq<char>>,
    /// The calls that have a result.
    pub completed: Set<Seq<char>>,
    /// The call each requested approval was for.
    pub approval_calls: Map<Seq<char>, Seq<char>>,
    /// The calls whose approval is still open.
    pub pending_approvals: Set<Seq<char>>,
}

/// The member `key` of `payload` when it is a string.
pub open spec fn text_member(payload: JsonValue, key: Seq<char>) -> Option<Seq<char>> {
    match get_spec(payload, key) {
        Some(JsonValue::Str(s)) => Some(s@),
        _ => None,
    }
}

/// The text with which every failure to read the assistant's tool calls begins.
pub open spec fn tool_calls_error_prefix() -> Seq<char> {
    "解析恢复中的 assistant tool_calls 失败："@
}

/// What recovery learns from one more fact.
pub open spec fn recovery_step(st: RecoveryState, event: StoredEvent) -> Result<
    RecoveryState,
    Seq<char>,
> {
    let p = event.payload;
    match event.kind {
        RecoveryEventKind::MessageCommitted => if text_member(p, "role"@) == Some("assistant"@) {
            match decoded_tool_calls(event) {
                Some(Ok(cs)) => Ok(RecoveryState { calls: st.calls + cs, ..st }),
                Some(Err(e)) => Err(tool_calls_error_prefix() + e),
                None => Ok(st),
            }
        } else {
            Ok(st)
        },
        RecoveryEventKind::ToolStarted => match text_member(p, "provider_call_id"@) {
            Some(c) => Ok(RecoveryState { started: st.started.insert(c), ..st }),
            None => Ok(st),
        },
        RecoveryEventKind::ToolCompleted => match text_member(p, "tool_call_id"@) {
            Some(c) => Ok(RecoveryState { completed: st.completed.insert(c), ..st }),
            None => Ok(st),
        },
        RecoveryEventKind::ApprovalRequested => match (
            text_member(p, "approval_id"@),
            text_member(p, "provider_call_id"@),
        ) {
            (Some(a), Some(c)) => Ok(
                RecoveryState {
                    approval_calls: st.approval_calls.insert(a, c),
                    pending_approvals: st.pending_approvals.insert(c),
                    ..st
                },
            ),
            _ => Ok(st),
        },
        RecoveryEventKind::ApprovalResolved | RecoveryEventKind::ApprovalTimedOut => match text_member(
            p,
            "approval_id"@,
        ) {
            Some(a) => if st.approval_calls.contains_key(a) {
                Ok(
                    RecoveryState {
                        pending_approvals: st.pending_approvals.remove(st.approval_calls[a]),
                        ..st
                    },
                )
            } else {
                Ok(st)
            },
            None => Ok(st),
        },
        RecoveryEventKind::Other => Ok(st),
    }
}

/// What recovery knows before reading any fact.
pub open spec fn empty_recovery_state() -> RecoveryState {
    RecoveryState {
        calls: Seq::empty(),
        started: Set::empty(),
        completed: Set::empty(),
        approval_calls: Map::empty(),
        pending_approvals: Set::empty(),
    }
}

/// What recovery learns from the facts `events`, read in order, or the first failure.
pub open spec fn recovery_fold(events: Seq<StoredEvent>) -> Result<RecoveryState, Seq<char>>
    decreases events.len(),
{
    if events.len() == 0 {
        Ok(empty_recovery_state())
    } else {
        match recovery_fold(events.drop_last()) {
            Err(e) => Err(e),
            Ok(st) => recovery_step(st, events.last()),
        }
    }
}

/// The error kind recorded for the unfinished call `call_id`.
pub open spec fn recovered_kind(st: RecoveryState, call_id: Seq<char>) -> Seq<char> {
    if st.started.contains(call_id) {
        "runtime_restarted_unknown"@
    } else if st.pending_approvals.contains(call_id) {
        "approval_interrupted_by_restart"@
    } else {
        "runtime_restarted_not_executed"@
    }
}

/// The message recorded for the unfinished call `call_id`.
pub open spec fn recovered_message(st: RecoveryState, call_id: Seq<char>) -> Seq<char> {
    if st.started.contains(call_id) {
        "Runtime 重启时工具执行结果未知，未自动重试"@
    } else if st.pending_approvals.contains(call_id) {
        "Runtime 重启时审批未完成，工具未执行"@
    } else {
        "Runtime 重启前工具尚未执行，未自动重试"@
    }
}

/// Whether a call has no committed result.
pub open spec fn unfinished(st: RecoveryState) -> spec_fn((Seq<char>, Seq<char>)) -> bool {
    |c: (Seq<char>, Seq<char>)| !st.completed.contains(c.0)
}

/// Whether `r` is the record of the unfinished call `c`.
pub open spec fn recovered_as(st: RecoveryState, r: RecoveredToolCall, c: (Seq<char>, Seq<char>)) -> bool {
    &&& r.call_id@ == c.0
    &&& r.name@ == c.1
    &&& r.error_kind@ == recovered_kind(st, c.0)
    &&& r.message@ == recovered_message(st, c.0)
}

/// The (call id, tool name) pairs held in `v`, as texts.
pub open spec fn pair_views(v: Seq<(String, String)>) -> Seq<(Seq<char>, Seq<char>)> {
    v.map_values(|p: (String, String)| (p.0@, p.1@))
}

/// The member `key` of `payload` when it is a string.
fn text_of<'a>(payload: &'a JsonValue, key: &str) -> (r: Option<&'a str>)
    ensures
        match r {
            Some(s) => text_member(*payload, key@) == Some(s@),
            None => text_member(*payload, key@) is None,
        },
{
    match payload.get(key) {
        Some(v) => v.as_str(),
        None => None,
    }
}

/// Once a prefix of the facts fails, reading all of them fails the same way.
proof fn lemma_fold_error_prefix(events: Seq<StoredEvent>, j: int)
    requires
        0 <= j <= events.len(),
        recovery_fold(events.take(j)) is Err,
    ensures
        recovery_fold(events) == recovery_fold(events.take(j)),
    decreases events.len(),
{
    if j == events.len() {
        assert(events.take(j) =~= events);
    } else {
        assert(events.drop_last().take(j) =~= events.take(j));
        lemma_fold_error_prefix(events.drop_last(), j);
    }
}

/// The recovery state that the working collections hold.
pub open spec fn held_state(
    calls: Seq<(String, String)>,
    started: Seq<String>,
    completed: Seq<String>,
    approvals: Seq<(String, String)>,
    pending: Seq<String>,
) -> RecoveryState {
    RecoveryState {
        calls: pair_views(calls),
        started: text_set(started),
        completed: text_set(completed),
        approval_calls: text_map(approvals),
        pending_approvals: text_set(pending),
    }
}

/// Plans how to close the running turn `turn_id` from its committed facts `events`, read in
/// order: every tool call the assistant asked for that has no result is listed, in order, with
/// the error recorded for it. A call that started has an unknown result; one whose approval
/// was still open was interrupted; any other never ran. No call is ever run again.
pub fn plan_recovery(turn_id: TurnId, events: &Vec<StoredEvent>) -> (r: Result<RecoveryPlan, String>)
    ensures
        match recovery_fold(events@) {
            Err(e) => r matches Err(x) && x@ == e,
            Ok(st) => r matches Ok(plan) && plan.turn_id == turn_id && ({
                let open = st.calls.filter(unfinished(st));
                &&& plan.unresolved_tools@.len() == open.len()
                &&& forall|i: int|
                    0 <= i < open.len() ==> recovered_as(
                        st,
                        #[trigger] plan.unresolved_tools@[i],
                        open[i],
                    )
            }),
        },
{
    let mut calls: Vec<(String, String)> = Vec::new();
    let mut started: Vec<String> = Vec::new();
    let mut completed: Vec<String> = Vec::new();
    let mut approvals: Vec<(String, String)> = Vec::new();
    let mut pending: Vec<String> = Vec::new();
    let mut k: usize = 0;
    proof {
        assert(events@.take(0) =~= Seq::<StoredEvent>::empty());
        assert(pair_views(calls@) =~= Seq::<(Seq<char>, Seq<char>)>::empty());
        assert(text_set(started@) =~= Set::<Seq<char>>::empty());
        assert(text_set(completed@) =~= Set::<Seq<char>>::empty());
        assert(text_set(pending@) =~= Set::<Seq<char>>::empty());
    }
    while k < events.len()
        invariant
            k <= events@.len(),
            recovery_fold(events@.take(k as int)) == Ok::<RecoveryState, Seq<char>>(
                held_state(calls@, started@, completed@, approvals@, pending@),
            ),
        decreases events@.len() - k,
    {
        let ghost st = held_state(calls@, started@, completed@, approvals@, pending@);
        proof {
            assert(events@.take(k + 1).drop_last() =~= events@.take(k as int));
            assert(events@.take(k + 1).last() == events@[k as int]);
        }
        let event = &events[k];
        let payload = &event.payload;
        match event.kind {
            RecoveryEventKind::MessageCommitted => {
                let is_assistant = match text_of(payload, "role") {
                    Some(role) => str_equal(role, "assistant"),
                    None => false,
                };
                proof { reveal_strlit("assistant"); }
                if is_assistant {
                    match &event.tool_calls {
                        Some(Ok(parsed)) => {
                            let ghost before = calls@;
                            let mut i: usize = 0;
                            while i < parsed.len()
                                invariant
                                    i <= parsed@.len(),
                                    pair_views(calls@) == pair_views(before) + pair_views(
                                        parsed@.take(i as int),
                                    ),
                                decreases parsed@.len() - i,
                            {
                                let ghost mid = calls@;
                                let c = (parsed[i].0.as_str().to_owned(), parsed[i].1.as_str().to_owned());
                                calls.push(c);
                                proof {
                                    assert(parsed@.take(i + 1) =~= parsed@.take(i as int).push(parsed@[i as int]));
                                    assert(pair_views(calls@) =~= pair_views(mid).push((c.0@, c.1@)));
                                    assert(pair_views(parsed@.take(i + 1)) =~= pair_views(
                                        parsed@.take(i as int),
                                    ).push((c.0@, c.1@)));
                                    assert(pair_views(before) + pair_views(parsed@.take(i + 1))
                                        =~= (pair_views(before) + pair_views(parsed@.take(i as int))).push(
                                        (c.0@, c.1@),
                                    ));
                                }
                                i = i + 1;
                            }
                            proof { assert(parsed@.take(parsed@.len() as int) =~= parsed@); }
                        },
                        Some(Err(e)) => {
                            let mut msg = "解析恢复中的 assistant tool_calls 失败：".to_owned();
                            msg.append(e.as_str());
                            proof { lemma_fold_error_prefix(events@, k + 1); }
                            return Err(msg);
                        },
                        None => {},
                    }
                }
            },
            RecoveryEventKind::ToolStarted => {
                match text_of(payload, "provider_call_id") {
                    Some(c) => set_insert(&mut started, c),
                    None => {},
                }
            },
            RecoveryEventKind::ToolCompleted => {
                match text_of(payload, "tool_call_id") {
                    Some(c) => set_insert(&mut completed, c),
                    None => {},
                }
            },
            RecoveryEventKind::ApprovalRequested => {
                match (text_of(payload, "approval_id"), text_of(payload, "provider_call_id")) {
                    (Some(a), Some(c)) => {
                        map_insert(&mut approvals, a, c);
                        set_insert(&mut pending, c);
                    },
                    _ => {},
                }
            },
            RecoveryEventKind::ApprovalResolved | RecoveryEventKind::ApprovalTimedOut => {
                match text_of(payload, "approval_id") {
                    Some(a) => match map_get(&approvals, a) {
                        Some(c) => set_remove(&mut pending, c.as_str()),
                        None => {},
                    },
                    None => {},
                }
            },
            RecoveryEventKind::Other => {},
        }
        k = k + 1;
    }
    assert(events@.take(events@.len() as int) =~= events@);
    let ghost st = held_state(calls@, started@, completed@, approvals@, pending@);
    let ghost all = st.calls;
    let mut out: Vec<RecoveredToolCall> = Vec::new();
    let mut j: usize = 0;
    assert(all.take(0).filter(unfinished(st)) =~= Seq::<(Seq<char>, Seq<char>)>::empty()) by {
        reveal(Seq::filter);
    }
    while j < calls.len()
        invariant
            st == held_state(calls@, started@, completed@, approvals@, pending@),
            all == st.calls,
            j <= all.len(),
            out@.len() == all.take(j as int).filter(unfinished(st)).len(),
            forall|i: int|
                0 <= i < out@.len() ==> recovered_as(
                    st,
                    #[trigger] out@[i],
                    all.take(j as int).filter(unfinished(st))[i],
                ),
        decreases all.len() - j,
    {
        let ghost prev = all.take(j as int).filter(unfinished(st));
        proof {
            assert(all.take(j + 1) =~= all.take(j as int).push(all[j as int]));
            all.take(j as int).lemma_filter_push(all[j as int], unfinished(st));
        }
        let call = &calls[j];
        assert(all[j as int] == (call.0@, call.1@));
        if !set_contains(&completed, call.0.as_str()) {
            let (error_kind, message): (&'static str, &'static str) = if set_contains(
                &started,
                call.0.as_str(),
            ) {
                ("runtime_restarted_unknown", "Runtime 重启时工具执行结果未知，未自动重试")
            } else if set_contains(&pending, call.0.as_str()) {
                ("approval_interrupted_by_restart", "Runtime 重启时审批未完成，工具未执行")
            } else {
                ("runtime_restarted_not_executed", "Runtime 重启前工具尚未执行，未自动重试")
            };
            out.push(
                RecoveredToolCall {
                    call_id: call.0.as_str().to_owned(),
                    name: call.1.as_str().to_owned(),
                    error_kind,
                    message,
                },
            );
            assert forall|i: int| 0 <= i < out@.len() implies recovered_as(
                st,
                #[trigger] out@[i],
                all.take(j + 1).filter(unfinished(st))[i],
            ) by {
                if i < prev.len() {
                    assert(all.take(j + 1).filter(unfinished(st))[i] == prev[i]);
                }
            }
        }
        j = j + 1;
    }
    assert(all.take(all.len() as int) =~= all);
    Ok(RecoveryPlan { turn_id, unresolved_tools: out })
}

/// Recovery lists exactly the calls without a committed result: a call the assistant asked for
/// is listed if and only if no result for it was committed; nothing else is listed.
pub proof fn law_recovery_lists_exactly_unfinished_calls(
    st: RecoveryState,
    c: (Seq<char>, Seq<char>),
)
    ensures
        st.calls.filter(unfinished(st)).contains(c) <==> (st.calls.contains(c)
            && !st.completed.contains(c.0)),
{
    let open = st.calls.filter(unfinished(st));
    if open.contains(c) {
        st.calls.lemma_filter_contains_rev(unfinished(st), c);
        let k = choose|k: int| 0 <= k < open.len() && open[k] == c;
        st.calls.lemma_filter_pred(unfinished(st), k);
    }
    if st.calls.contains(c) && !st.completed.contains(c.0) {
        let k = choose|k: int| 0 <= k < st.calls.len() && st.calls[k] == c;
        st.calls.lemma_filter_contains(unfinished(st), k);
    }
}

/// Whether some fact among `events` is of kind `kind` and names `c` in its member `key`.
pub open spec fn some_fact_names(
    events: Seq<StoredEvent>,
    kind: RecoveryEventKind,
    key: Seq<char>,
    c: Seq<char>,
) -> bool {
    exists|k: int|
        0 <= k < events.len() && (#[trigger] events[k]).kind == kind && text_member(
            events[k].payload,
            key,
        ) == Some(c)
}

/// What recovery learns from the facts of a turn, stated over the facts: a call has started
/// exactly when a `tool.started` fact names it, has a result exactly when a `tool.completed`
/// fact names it, and its approval is open only if an `approval.requested` fact names it.
/// With `plan_recovery` and `law_recovery_lists_exactly_unfinished_calls` this fixes the plan:
/// the calls without a `tool.completed` fact, in order, each recorded as of unknown result when
/// a `tool.started` fact names it, as interrupted in its approval when that approval is open,
/// and as never run otherwise.
pub proof fn law_recovery_reads_the_facts(events: Seq<StoredEvent>, c: Seq<char>)
    ensures
        recovery_fold(events) matches Ok(st) ==> {
            &&& st.started.contains(c) <==> some_fact_names(
                events,
                RecoveryEventKind::ToolStarted,
                "provider_call_id"@,
                c,
            )
            &&& st.completed.contains(c) <==> some_fact_names(
                events,
                RecoveryEventKind::ToolCompleted,
                "tool_call_id"@,
                c,
            )
            &&& st.pending_approvals.contains(c) ==> some_fact_names(
                events,
                RecoveryEventKind::ApprovalRequested,
                "provider_call_id"@,
                c,
            )
        },
    decreases events.len(),
{
    if events.len() > 0 {
        let prev = events.drop_last();
        let last = events.last();
        law_recovery_reads_the_facts(prev, c);
        let n = prev.len() as int;
        assert(events[n] == last);
        assert forall|k: int| 0 <= k < prev.len() implies prev[k] == events[k] by {}
        let kinds = seq![
            RecoveryEventKind::ToolStarted,
            RecoveryEventKind::ToolCompleted,
            RecoveryEventKind::ApprovalRequested,
        ];
        let keys = seq!["provider_call_id"@, "tool_call_id"@, "provider_call_id"@];
        assert forall|j: int| 0 <= j < 3 implies (some_fact_names(events, #[trigger] kinds[j], keys[j], c)
            <==> (some_fact_names(prev, kinds[j], keys[j], c) || (last.kind == kinds[j] && text_member(
            last.payload,
            keys[j],
        ) == Some(c)))) by {
            if some_fact_names(events, kinds[j], keys[j], c) {
                let k = choose|k: int|
                    0 <= k < events.len() && (#[trigger] events[k]).kind == kinds[j] && text_member(
                        events[k].payload,
                        keys[j],
                    ) == Some(c);
                if k < n {
                    assert(prev[k] == events[k]);
                }
            }
            if some_fact_names(prev, kinds[j], keys[j], c) {
                let k = choose|k: int|
                    0 <= k < prev.len() && (#[trigger] prev[k]).kind == kinds[j] && text_member(
                        prev[k].payload,
                        keys[j],
                    ) == Some(c);
                assert(prev[k] == events[k]);
            }
        }
        assert(kinds[0] == RecoveryEventKind::ToolStarted && keys[0] == "provider_call_id"@);
        assert(kinds[1] == RecoveryEventKind::ToolCompleted && keys[1] == "tool_call_id"@);
        assert(kinds[2] == RecoveryEventKind::ApprovalRequested && keys[2] == "provider_call_id"@);
    }
}

/// The (approval id, call id) an `approval.requested` fact names, when it names both.
pub open spec fn requested_pair(e: StoredEvent) -> Option<(Seq<char>, Seq<char>)> {
    if e.kind == RecoveryEventKind::ApprovalRequested {
        match (text_member(e.payload, "approval_id"@), text_member(e.payload, "provider_call_id"@)) {
            (Some(a), Some(c)) => Some((a, c)),
            _ => None,
        }
    } else {
        None
    }
}

/// Whether fact `e` is an `approval.resolved` or `approval.timed_out` fact naming approval `a`.
pub open spec fn closes_approval(e: StoredEvent, a: Seq<char>) -> bool {
    (e.kind == RecoveryEventKind::ApprovalResolved || e.kind == RecoveryEventKind::ApprovalTimedOut)
        && text_member(e.payload, "approval_id"@) == Some(a)
}

/// Whether the approval requests among `events` pair approvals and calls one to one: two
/// requests that share the approval id or the call id share both.
pub open spec fn requests_one_to_one(events: Seq<StoredEvent>) -> bool {
    forall|i: int, j: int|
        0 <= i < events.len() && 0 <= j < events.len() && (#[trigger] requested_pair(events[i])) is Some
            && (#[trigger] requested_pair(events[j])) is Some && ((requested_pair(events[i])->0).0
            == (requested_pair(events[j])->0).0 || (requested_pair(events[i])->0).1 == (requested_pair(
            events[j],
        )->0).1) ==> requested_pair(events[i]) == requested_pair(events[j])
}

/// Whether the fact at `k` requests an approval for call `c` that no later
/// `approval.resolved` or `approval.timed_out` fact among `events` names.
pub open spec fn unanswered_from(events: Seq<StoredEvent>, k: int, c: Seq<char>) -> bool {
    match requested_pair(events[k]) {
        Some((a, c2)) => c2 == c && forall|j: int|
            #![trigger events[j]]
            k < j < events.len() ==> !closes_approval(events[j], a),
        None => false,
    }
}

/// Whether, after the facts `events`, call `c` has an open approval: some `approval.requested`
/// fact names it with an approval id that no later `approval.resolved` or
/// `approval.timed_out` fact names.
pub open spec fn approval_open(events: Seq<StoredEvent>, c: Seq<char>) -> bool {
    exists|k: int| 0 <= k < events.len() && #[trigger] unanswered_from(events, k, c)
}

proof fn lemma_approvals_read_from_facts(events: Seq<StoredEvent>)
    requires
        requests_one_to_one(events),
    ensures
        recovery_fold(events) matches Ok(st) ==> {
            &&& forall|a: Seq<char>| #[trigger] st.approval_calls.contains_key(a) ==> exists|k: int|
                0 <= k < events.len() && #[trigger] requested_pair(events[k]) == Some(
                    (a, st.approval_calls[a]),
                )
            &&& forall|k: int|
                0 <= k < events.len() && (#[trigger] requested_pair(events[k])) is Some
                    ==> st.approval_calls.contains_key((requested_pair(events[k])->0).0)
            &&& forall|c: Seq<char>| #[trigger] st.pending_approvals.contains(c) <==> approval_open(events, c)
        },
    decreases events.len(),
{
    if events.len() > 0 {
        let prev = events.drop_last();
        let n = prev.len() as int;
        let e = events.last();
        assert(events[n] == e);
        assert forall|k: int| 0 <= k < prev.len() implies prev[k] == events[k] by {}
        assert(requests_one_to_one(prev)) by {
            assert forall|i: int, j: int|
                0 <= i < prev.len() && 0 <= j < prev.len() && (#[trigger] requested_pair(prev[i])) is Some
                    && (#[trigger] requested_pair(prev[j])) is Some && ((requested_pair(prev[i])->0).0
                    == (requested_pair(prev[j])->0).0 || (requested_pair(prev[i])->0).1 == (requested_pair(
                    prev[j],
                )->0).1) implies requested_pair(prev[i]) == requested_pair(prev[j]) by {
                assert(prev[i] == events[i] && prev[j] == events[j]);
            }
        }
        lemma_approvals_read_from_facts(prev);
        if let Ok(st0) = recovery_fold(prev) {
            if let Ok(st) = recovery_step(st0, e) {
                assert(recovery_fold(events) == recovery_step(st0, e));
                // The approval map.
                assert forall|a: Seq<char>| #[trigger] st.approval_calls.contains_key(a) implies exists|k: int|
                    0 <= k < events.len() && #[trigger] requested_pair(events[k]) == Some(
                        (a, st.approval_calls[a]),
                    ) by {
                    if requested_pair(e) is Some && (requested_pair(e)->0).0 == a {
                        assert(requested_pair(events[n]) == Some((a, st.approval_calls[a])));
                    } else {
                        assert(st0.approval_calls.contains_key(a));
                        let k = choose|k: int|
                            0 <= k < prev.len() && #[trigger] requested_pair(prev[k]) == Some(
                                (a, st0.approval_calls[a]),
                            );
                        assert(requested_pair(events[k]) == Some((a, st.approval_calls[a])));
                    }
                }
                assert forall|k: int|
                    0 <= k < events.len() && (#[trigger] requested_pair(events[k])) is Some
                        implies st.approval_calls.contains_key((requested_pair(events[k])->0).0) by {
                    if k < n {
                        assert(requested_pair(prev[k]) is Some);
                    }
                }
                // The open approvals.
                assert forall|c: Seq<char>| #[trigger] st.pending_approvals.contains(c) <==> approval_open(events, c) by {
                    lemma_approval_open_step(events, st0, st, c);
                }
            }
        }
    }
}

proof fn lemma_approval_open_step(events: Seq<StoredEvent>, st0: RecoveryState, st: RecoveryState, c: Seq<char>)
    requires
        events.len() > 0,
        requests_one_to_one(events),
        recovery_step(st0, events.last()) == Ok::<RecoveryState, Seq<char>>(st),
        forall|a: Seq<char>| #[trigger] st0.approval_calls.contains_key(a) ==> exists|k: int|
            0 <= k < events.len() - 1 && #[trigger] requested_pair(events[k]) == Some(
                (a, st0.approval_calls[a]),
            ),
        forall|k: int|
            0 <= k < events.len() - 1 && (#[trigger] requested_pair(events[k])) is Some
                ==> st0.approval_calls.contains_key((requested_pair(events[k])->0).0),
        st0.pending_approvals.contains(c) <==> approval_open(events.drop_last(), c),
    ensures
        st.pending_approvals.contains(c) <==> approval_open(events, c),
{
    let prev = events.drop_last();
    let n = prev.len() as int;
    let e = events.last();
    assert(events[n] == e);
    assert forall|k: int| 0 <= k < prev.len() implies prev[k] == events[k] by {}
    // The open approval of the prefix, unless the last fact closes it.
    let mut kp: int = -1;
    if approval_open(prev, c) {
        kp = choose|k: int| 0 <= k < prev.len() && unanswered_from(prev, k, c);
        let a = (requested_pair(prev[kp])->0).0;
        assert(requested_pair(events[kp]) == requested_pair(prev[kp]));
        if !closes_approval(e, a) {
            assert forall|j: int| kp < j < events.len() implies !closes_approval(#[trigger] events[j], a) by {
                if j < n {
                    assert(prev[j] == events[j]);
                }
            }
            assert(unanswered_from(events, kp, c));
            assert(approval_open(events, c));
        }
    }
    // An open approval of all the facts, requested before the last, is one of the prefix.
    if approval_open(events, c) {
        let k = choose|k: int| 0 <= k < events.len() && unanswered_from(events, k, c);
        let a = (requested_pair(events[k])->0).0;
        if k < n {
            assert(requested_pair(prev[k]) == requested_pair(events[k]));
            assert forall|j: int| k < j < prev.len() implies !closes_approval(#[trigger] prev[j], a) by {
                assert(prev[j] == events[j]);
                assert(!closes_approval(events[j], a));
            }
            assert(unanswered_from(prev, k, c));
            assert(approval_open(prev, c));
            assert(!closes_approval(events[n], a));
        }
    }
    match e.kind {
        RecoveryEventKind::ApprovalRequested => {
            if let Some((a, c2)) = requested_pair(e) {
                if c2 == c {
                    assert(unanswered_from(events, n, c));
                    assert(approval_open(events, c));
                }
            }
        },
        RecoveryEventKind::ApprovalResolved | RecoveryEventKind::ApprovalTimedOut => {
            match text_member(e.payload, "approval_id"@) {
                Some(a) => {
                    assert(closes_approval(e, a));
                    if st0.approval_calls.contains_key(a) {
                        let c0 = st0.approval_calls[a];
                        let k0 = choose|k: int|
                            0 <= k < events.len() - 1 && #[trigger] requested_pair(events[k]) == Some(
                                (a, c0),
                            );
                        if c == c0 && approval_open(events, c) {
                            let k = choose|k: int| 0 <= k < events.len() && unanswered_from(events, k, c);
                            assert(requested_pair(events[k]) is Some);
                            assert(requested_pair(events[k0]) is Some);
                            assert(requested_pair(events[k]) == requested_pair(events[k0]));
                            assert(k != n);
                            assert(!closes_approval(events[n], a));
                        }
                        if c != c0 && approval_open(prev, c) {
                            let a2 = (requested_pair(prev[kp])->0).0;
                            assert(requested_pair(events[kp]) is Some);
                            if a2 == a {
                                assert(requested_pair(events[k0]) is Some);
                                assert(requested_pair(events[kp]) == requested_pair(events[k0]));
                            }
                            assert(!closes_approval(e, a2));
                        }
                    } else {
                        if approval_open(prev, c) {
                            let a2 = (requested_pair(prev[kp])->0).0;
                            assert(requested_pair(events[kp]) is Some);
                            assert(st0.approval_calls.contains_key(a2));
                            assert(!closes_approval(e, a2));
                        }
                    }
                },
                None => {},
            }
        },
        _ => {},
    }
}

/// Which approvals recovery finds open, stated over the facts: when approval requests pair
/// approvals and calls one to one, a call's approval is open after the facts exactly when some
/// `approval.requested` fact names the call with an approval id that no later
/// `approval.resolved` or `approval.timed_out` fact names.
pub proof fn law_open_approvals_are_the_unanswered_requests(events: Seq<StoredEvent>, c: Seq<char>)
    requires
        requests_one_to_one(events),
    ensures
        recovery_fold(events) matches Ok(st) ==> (st.pending_approvals.contains(c)
            <==> approval_open(events, c)),
{
    lemma_approvals_read_from_facts(events);
}

/// The failure reason with which a turn left running by a restart ends.
pub open spec fn restart_failure_text() -> Seq<char> {
    "Runtime 重启导致未完成 Turn 安全终止"@
}

/// The failure reason with which a turn left running by a restart ends.
pub fn restart_failure_reason() -> (r: String)
    ensures
        r@ == restart_failure_text(),
{
    "Runtime 重启导致未完成 Turn 安全终止".to_owned()
}

/// Whether `result` is the persisted result of the recovered call `call`: a failure whose
/// content is the recorded message and whose error kind is the recorded kind, with no output
/// cut and no exit code.
pub open spec fn recorded_as(result: ToolExecutionResult, call: RecoveredToolCall) -> bool {
    &&& result.call_id@ == call.call_id@
    &&& result.name@ == call.name@
    &&& !result.ok
    &&& result.content@ == call.message@
    &&& !result.truncated
    &&& result.exit_code is None
    &&& result.error_kind matches Some(k) && k@ == call.error_kind@
}

/// The results that close the unfinished calls of `plan`, in the plan's order: each records
/// that the call's outcome is unknown or that it never ran; none runs anything.
pub fn recovery_results(plan: &RecoveryPlan) -> (r: Vec<ToolExecutionResult>)
    ensures
        r@.len() == plan.unresolved_tools@.len(),
        forall|i: int|
            0 <= i < r@.len() ==> recorded_as(#[trigger] r@[i], plan.unresolved_tools@[i]),
{
    let mut out: Vec<ToolExecutionResult> = Vec::new();
    let mut i: usize = 0;
    while i < plan.unresolved_tools.len()
        invariant
            i <= plan.unresolved_tools@.len(),
            out@.len() == i,
            forall|j: int|
                0 <= j < i ==> recorded_as(#[trigger] out@[j], plan.unresolved_tools@[j]),
        decreases plan.unresolved_tools@.len() - i,
    {
        let call = &plan.unresolved_tools[i];
        out.push(
            ToolExecutionResult {
                call_id: call.call_id.as_str().to_owned(),
                name: call.name.as_str().to_owned(),
                ok: false,
                content: call.message.to_owned(),
                truncated: false,
                exit_code: None,
                error_kind: Some(call.error_kind.to_owned()),
            },
        );
        i = i + 1;
    }
    out
}

/// The failure text when the recovery facts could not be read.
pub open spec fn read_failure_text(reason: Seq<char>) -> Seq<char> {
    "读取重启恢复状态失败："@ + reason
}

/// The failure text when a recovered result could not be written.
pub open spec fn write_failure_text(error: Seq<char>) -> Seq<char> {
    "写入重启恢复结果失败："@ + error
}

/// The failure text when the turn's failed end could not be written.
pub open spec fn close_failure_text(error: Seq<char>) -> Seq<char> {
    "写入重启终态失败："@ + error
}

/// Where the closing of a turn left over by a restart stands.
#[derive(Debug, Clone, Copy, PartialEq, Eq, Structural)]
pub enum RecoveryStage {
    /// A recovered result is being written.
    Writing,
    /// The turn's failed end is being written.
    Closing,
    /// Recovery is over.
    Over,
}

/// What the actor does next while closing a turn left over by a restart.
#[derive(Debug, PartialEq, Eq)]
pub enum RecoveryAction {
    /// Write this result for an unfinished call, then report how that went.
    WriteResult(ToolExecutionResult),
    /// Write the turn's failed end, then report how that went.
    CloseTurn { turn_id: TurnId, category: &'static str, reason: String },
    /// Publish that the turn failed; recovery is over.
    Publish { turn_id: Option<TurnId>, reason: String },
    /// Nothing (more) to do.
    Done,
}

/// The closing of a turn left over by a restart: the results still to write, in order, and
/// the stage. Nothing is ever run again; the first failure to write ends recovery.
pub struct StartupRecovery {
    turn_id: TurnId,
    remaining: Vec<ToolExecutionResult>,
    stage: RecoveryStage,
}

/// What a startup recovery holds: its turn, the results still to write, and its stage.
pub struct StartupRecoveryView {
    pub turn_id: TurnId,
    pub remaining: Seq<ToolExecutionResult>,
    pub stage: RecoveryStage,
}

impl View for StartupRecovery {
    type V = StartupRecoveryView;

    closed spec fn view(&self) -> StartupRecoveryView {
        StartupRecoveryView { turn_id: self.turn_id, remaining: self.remaining@, stage: self.stage }
    }
}

/// Whether `a` is the action that writes the turn's failed end.
pub open spec fn is_close_action(a: RecoveryAction, turn_id: TurnId) -> bool {
    a matches RecoveryAction::CloseTurn { turn_id: t, category, reason } && t == turn_id
        && category@ == "runtime_restarted"@ && reason@ == restart_failure_text()
}

/// Whether `a` publishes the failure `text` of turn `turn_id`.
pub open spec fn is_publish_action(a: RecoveryAction, turn_id: Option<TurnId>, text: Seq<char>) -> bool {
    a matches RecoveryAction::Publish { turn_id: t, reason } && t == turn_id && reason@ == text
}

impl StartupRecovery {
    /// The next step while results remain to write, or the closing of the turn.
    fn next_step(&mut self) -> (r: RecoveryAction)
        ensures
            final(self)@.turn_id == old(self)@.turn_id,
            old(self)@.remaining.len() > 0 ==> {
                &&& r == RecoveryAction::WriteResult(old(self)@.remaining[0])
                &&& final(self)@.remaining == old(self)@.remaining.drop_first()
                &&& final(self)@.stage == RecoveryStage::Writing
            },
            old(self)@.remaining.len() == 0 ==> {
                &&& is_close_action(r, old(self)@.turn_id)
                &&& final(self)@.remaining.len() == 0
                &&& final(self)@.stage == RecoveryStage::Closing
            },
    {
        if self.remaining.len() > 0 {
            let next = self.remaining.remove(0);
            self.stage = RecoveryStage::Writing;
            RecoveryAction::WriteResult(next)
        } else {
            self.stage = RecoveryStage::Closing;
            proof { reveal_strlit("runtime_restarted"); }
            RecoveryAction::CloseTurn {
                turn_id: self.turn_id,
                category: "runtime_restarted",
                reason: restart_failure_reason(),
            }
        }
    }

    /// Starts closing the turn that `plan_recovery` gave, or reports why there is nothing to
    /// close: a failure to read the facts is published, and no running turn means nothing to
    /// do. Otherwise the results of the plan are written one by one, then the turn's end.
    pub fn begin(plan: Result<Option<RecoveryPlan>, String>) -> (r: (Option<StartupRecovery>, RecoveryAction))
        ensures
            match plan {
                Err(reason) => r.0 is None && is_publish_action(r.1, None, read_failure_text(reason@)),
                Ok(None) => r.0 is None && r.1 == RecoveryAction::Done,
                Ok(Some(p)) => r.0 matches Some(run) && run@.turn_id == p.turn_id && ({
                    let n = p.unresolved_tools@.len();
                    &&& n > 0 ==> {
                        &&& run@.stage == RecoveryStage::Writing
                        &&& run@.remaining.len() == n - 1
                        &&& r.1 matches RecoveryAction::WriteResult(first) && recorded_as(
                            first,
                            p.unresolved_tools@[0],
                        )
                        &&& forall|i: int|
                            0 <= i < n - 1 ==> recorded_as(
                                #[trigger] run@.remaining[i],
                                p.unresolved_tools@[i + 1],
                            )
                    }
                    &&& n == 0 ==> run@.stage == RecoveryStage::Closing && is_close_action(
                        r.1,
                        p.turn_id,
                    )
                }),
            },
    {
        match plan {
            Err(reason) => {
                let mut text = "读取重启恢复状态失败：".to_owned();
                text.append(reason.as_str());
                (None, RecoveryAction::Publish { turn_id: None, reason: text })
            },
            Ok(None) => (None, RecoveryAction::Done),
            Ok(Some(p)) => {
                let results = recovery_results(&p);
                let mut run = StartupRecovery {
                    turn_id: p.turn_id,
                    remaining: results,
                    stage: RecoveryStage::Writing,
                };
                let action = run.next_step();
                (Some(run), action)
            },
        }
    }

    /// Goes on after the last write reported `outcome`: a failed write publishes the failure
    /// and ends recovery; a written result is followed by the next one or by the turn's end; a
    /// written end publishes the restart failure of the turn and ends recovery.
    pub fn advance(&mut self, outcome: Result<(), String>) -> (r: RecoveryAction)
        ensures
            final(self)@.turn_id == old(self)@.turn_id,
            match old(self)@.stage {
                RecoveryStage::Over => r == RecoveryAction::Done && final(self)@ == old(self)@,
                RecoveryStage::Writing => match outcome {
                    Err(e) => final(self)@.stage == RecoveryStage::Over && is_publish_action(
                        r,
                        Some(old(self)@.turn_id),
                        write_failure_text(e@),
                    ),
                    Ok(()) => {
                        &&& old(self)@.remaining.len() > 0 ==> {
                            &&& r == RecoveryAction::WriteResult(old(self)@.remaining[0])
                            &&& final(self)@.remaining == old(self)@.remaining.drop_first()
                            &&& final(self)@.stage == RecoveryStage::Writing
                        }
                        &&& old(self)@.remaining.len() == 0 ==> final(self)@.stage
                            == RecoveryStage::Closing && is_close_action(r, old(self)@.turn_id)
                    },
                },
                RecoveryStage::Closing => final(self)@.stage == RecoveryStage::Over && match outcome {
                    Err(e) => is_publish_action(
                        r,
                        Some(old(self)@.turn_id),
                        close_failure_text(e@),
                    ),
                    Ok(()) => is_publish_action(r, Some(old(self)@.turn_id), restart_failure_text()),
                },
            },
    {
        match self.stage {
            RecoveryStage::Over => RecoveryAction::Done,
            RecoveryStage::Writing => match outcome {
                Err(e) => {
                    self.stage = RecoveryStage::Over;
                    let mut text = "写入重启恢复结果失败：".to_owned();
                    text.append(e.as_str());
                    RecoveryAction::Publish { turn_id: Some(self.turn_id), reason: text }
                },
                Ok(()) => self.next_step(),
            },
            RecoveryStage::Closing => {
                self.stage = RecoveryStage::Over;
                match outcome {
                    Err(e) => {
                        let mut text = "写入重启终态失败：".to_owned();
                        text.append(e.as_str());
                        RecoveryAction::Publish { turn_id: Some(self.turn_id), reason: text }
                    },
                    Ok(()) => RecoveryAction::Publish {
                        turn_id: Some(self.turn_id),
                        reason: restart_failure_reason(),
                    },
                }
            },
        }
    }
}

} // verus!
