use sagent::approval::{ApprovalDecision, ApprovalManager, ApprovalOutcome, ApprovalRequest};
use sagent::dispatch::{ToolDispatchPlan, ToolPermission};
use sagent::ids::{ApprovalId, SessionId, ToolCallId, TurnId};
use sagent::json::JsonValue;
use sagent::dispatch::{ToolDefinition, ToolDispatcher, ToolRegistry};
use sagent::recovery::{
    plan_recovery, recovery_results, restart_failure_reason, RecoveryEventKind, StoredEvent,
};
use sagent::runtime_error::RuntimeError;
use sagent::tool_call::ToolCall;
use sagent::tool_loop::{
    apply_approval_outcome, check_tool_results, decide_approval_required, decide_generation,
    decide_tool_step, GenerationStep,
    plan_tool_round, validate_prompt_submission, ApprovalFollowUp, ApprovalPolicyDecision,
    ApprovalRequiredStep, PendingToolBatch, ToolStep, TurnFailure,
};
use sagent::tool_worker::{ToolExecutionResult, ToolWorkerError};

fn text(value: &str) -> JsonValue {
    JsonValue::Str(value.to_owned())
}

fn object(entries: Vec<(&str, JsonValue)>) -> JsonValue {
    JsonValue::Object(
        entries
            .into_iter()
            .map(|(key, value)| (key.to_owned(), value))
            .collect(),
    )
}

fn event(kind: RecoveryEventKind, payload: JsonValue) -> StoredEvent {
    StoredEvent {
        kind,
        payload,
        tool_calls: None,
    }
}

fn assistant_calls(calls: Vec<(&str, &str)>) -> StoredEvent {
    let pairs = calls.clone();
    let items = calls
        .into_iter()
        .map(|(id, name)| {
            object(vec![
                ("call_id", text(id)),
                ("name", text(name)),
                ("arguments", object(vec![("command", text("rm -rf x"))])),
            ])
        })
        .collect();
    let decoded = pairs
        .into_iter()
        .map(|(id, name)| (id.to_owned(), name.to_owned()))
        .collect();
    StoredEvent {
        kind: RecoveryEventKind::MessageCommitted,
        payload: object(vec![
            ("role", text("assistant")),
            ("tool_calls", JsonValue::Array(items)),
        ]),
        tool_calls: Some(Ok(decoded)),
    }
}

#[test]
fn busy_error_contains_session_context() {
    let session_id = SessionId::new("session-1");
    let error = RuntimeError::Busy {
        session_id: session_id.clone(),
    };

    let message = error.message();

    assert!(message.contains("busy"));
    assert!(message.contains("session-1"));
}

#[test]
fn persistence_error_keeps_a_readable_cause() {
    let error = RuntimeError::Persistence("transaction rolled back".into());

    assert_eq!(
        error.message(),
        "persistence failed: transaction rolled back"
    );
}

#[test]
fn lifecycle_errors_have_distinct_messages() {
    assert_ne!(
        RuntimeError::NoActiveTurn.message(),
        RuntimeError::ActorStopped.message()
    );
}

#[test]
fn pending_approval_is_classified_as_not_executed_after_restart() {
    let turn_id = TurnId::new();
    let events = vec![
        event(
            RecoveryEventKind::MessageCommitted,
            object(vec![("role", text("user")), ("content", text("继续"))]),
        ),
        assistant_calls(vec![("call-terminal", "terminal")]),
        event(
            RecoveryEventKind::ApprovalRequested,
            object(vec![
                ("approval_id", text("0d9e5a66-8f6b-4d35-9f6c-7b2a6b0c9a11")),
                ("provider_call_id", text("call-terminal")),
            ]),
        ),
    ];

    let plan = plan_recovery(turn_id, &events).expect("恢复计划应可读取");
    assert_eq!(plan.turn_id, turn_id);
    assert_eq!(plan.unresolved_tools.len(), 1);
    assert_eq!(
        plan.unresolved_tools[0].error_kind,
        "approval_interrupted_by_restart"
    );
}

#[test]
fn recovery_classifies_started_completed_and_unstarted_calls() {
    let events = vec![
        assistant_calls(vec![("a", "terminal"), ("b", "read_file"), ("c", "write_file")]),
        event(
            RecoveryEventKind::ToolStarted,
            object(vec![("provider_call_id", text("a"))]),
        ),
        event(
            RecoveryEventKind::ToolStarted,
            object(vec![("provider_call_id", text("b"))]),
        ),
        event(
            RecoveryEventKind::ToolCompleted,
            object(vec![("tool_call_id", text("b"))]),
        ),
        event(RecoveryEventKind::Other, JsonValue::Null),
    ];
    let plan = plan_recovery(TurnId::new(), &events).unwrap();
    assert_eq!(plan.unresolved_tools.len(), 2);
    assert_eq!(plan.unresolved_tools[0].call_id, "a");
    assert_eq!(plan.unresolved_tools[0].error_kind, "runtime_restarted_unknown");
    assert_eq!(
        plan.unresolved_tools[0].message,
        "Runtime 重启时工具执行结果未知，未自动重试"
    );
    assert_eq!(plan.unresolved_tools[1].call_id, "c");
    assert_eq!(plan.unresolved_tools[1].name, "write_file");
    assert_eq!(
        plan.unresolved_tools[1].error_kind,
        "runtime_restarted_not_executed"
    );
}

#[test]
fn resolved_approval_is_no_longer_pending_after_restart() {
    let events = vec![
        assistant_calls(vec![("call-1", "terminal")]),
        event(
            RecoveryEventKind::ApprovalRequested,
            object(vec![
                ("approval_id", text("ap-1")),
                ("provider_call_id", text("call-1")),
            ]),
        ),
        event(
            RecoveryEventKind::ApprovalTimedOut,
            object(vec![("approval_id", text("ap-1"))]),
        ),
    ];
    let plan = plan_recovery(TurnId::new(), &events).unwrap();
    assert_eq!(
        plan.unresolved_tools[0].error_kind,
        "runtime_restarted_not_executed"
    );
}

#[test]
fn unreadable_tool_calls_fail_recovery() {
    let events = vec![StoredEvent {
        kind: RecoveryEventKind::MessageCommitted,
        payload: object(vec![
            ("role", text("assistant")),
            (
                "tool_calls",
                JsonValue::Array(vec![object(vec![("call_id", text("a"))])]),
            ),
        ]),
        tool_calls: Some(Err("missing field `name`".to_owned())),
    }];
    assert_eq!(
        plan_recovery(TurnId::new(), &events),
        Err("解析恢复中的 assistant tool_calls 失败：missing field `name`".to_owned())
    );
    let user_message = vec![StoredEvent {
        kind: RecoveryEventKind::MessageCommitted,
        payload: object(vec![("role", text("user")), ("tool_calls", JsonValue::Null)]),
        tool_calls: Some(Err("invalid type: null, expected a sequence".to_owned())),
    }];
    assert!(plan_recovery(TurnId::new(), &user_message)
        .unwrap()
        .unresolved_tools
        .is_empty());
    let no_calls = vec![event(
        RecoveryEventKind::MessageCommitted,
        object(vec![("role", text("assistant")), ("content", text("好的"))]),
    )];
    assert!(plan_recovery(TurnId::new(), &no_calls)
        .unwrap()
        .unresolved_tools
        .is_empty());
}

#[test]
fn tool_worker_error_messages() {
    assert_eq!(
        ToolWorkerError::InvalidArguments {
            tool_name: "read_file".into(),
            reason: "missing path".into()
        }
        .message(),
        "工具参数无效：read_file: missing path"
    );
    assert_eq!(
        ToolWorkerError::Unavailable {
            tool_name: "session_search".into()
        }
        .message(),
        "工具未配置：session_search"
    );
    assert_eq!(ToolWorkerError::Cancelled.message(), "工具执行已取消");
}

fn plan(id: &str) -> ToolDispatchPlan {
    ToolDispatchPlan {
        call: ToolCall {
            call_id: id.into(),
            name: "terminal".into(),
            arguments: JsonValue::Object(Vec::new()),
        },
        permission: ToolPermission::ApprovalRequired,
        timeout_ms: 1000,
        output_limit: 100,
    }
}

fn approval_request(session: &str, turn: TurnId, policy: &str) -> ApprovalRequest {
    ApprovalRequest::new(
        SessionId::new(session),
        turn,
        ToolCallId::new(),
        "terminal",
        "运行命令",
        policy,
        "later",
    )
    .unwrap()
}

#[test]
fn tool_batch_steps_through_calls_and_approvals() {
    let session = SessionId::new("session-1");
    let turn = TurnId::new();
    let mut approvals = ApprovalManager::default();
    let mut batch = PendingToolBatch::new(vec![plan("a"), plan("b")]);
    assert_eq!(batch.current().unwrap().call.call_id, "a");
    assert_eq!(
        decide_tool_step(&batch, ApprovalPolicyDecision::Allow, &approvals, &session),
        ToolStep::Start
    );
    let require = || ApprovalPolicyDecision::RequireApproval {
        policy_key: "terminal:rm".into(),
        summary: "删除文件".into(),
    };
    assert_eq!(
        decide_tool_step(&batch, require(), &approvals, &session),
        ToolStep::RequestApproval {
            policy_key: "terminal:rm".into(),
            summary: "删除文件".into()
        }
    );
    let id = ApprovalId::new();
    let mut awaited = Some(id);
    assert_eq!(
        apply_approval_outcome(
            &mut approvals,
            &mut batch,
            &mut awaited,
            id,
            ApprovalOutcome::Approved(ApprovalDecision::Once)
        ),
        ApprovalFollowUp::Continue(ApprovalDecision::Once)
    );
    assert_eq!(
        decide_tool_step(&batch, require(), &approvals, &session),
        ToolStep::Start
    );
    batch.complete_current();
    assert_eq!(batch.current().unwrap().call.call_id, "b");
    assert_eq!(
        decide_tool_step(&batch, require(), &approvals, &session),
        ToolStep::RequestApproval {
            policy_key: "terminal:rm".into(),
            summary: "删除文件".into()
        }
    );
    assert_eq!(
        decide_tool_step(
            &batch,
            ApprovalPolicyDecision::Deny {
                reason: "禁止".into()
            },
            &approvals,
            &session
        ),
        ToolStep::Deny {
            reason: "禁止".into()
        }
    );
    batch.complete_current();
    assert!(batch.current().is_none());
    assert_eq!(
        decide_tool_step(&batch, require(), &approvals, &session),
        ToolStep::FinishBatch
    );

    let rule = approval_request("session-1", turn, "terminal:rm");
    let rule_id = rule.approval_id;
    approvals.register(rule).unwrap();
    approvals
        .resolve(&session, &turn, rule_id, ApprovalDecision::Session)
        .unwrap();
    let fresh = PendingToolBatch::new(vec![plan("c")]);
    assert_eq!(
        decide_tool_step(&fresh, require(), &approvals, &session),
        ToolStep::Start
    );
}

#[test]
fn approval_outcomes_decide_what_follows() {
    let turn = TurnId::new();
    let mut approvals = ApprovalManager::default();
    let mut batch = PendingToolBatch::new(vec![plan("a")]);
    let request = approval_request("session-1", turn, "p");
    let id = request.approval_id;
    approvals.register(request).unwrap();
    let mut awaited = Some(id);
    assert_eq!(
        apply_approval_outcome(&mut approvals, &mut batch, &mut awaited, id, ApprovalOutcome::Denied),
        ApprovalFollowUp::FailTool {
            error_kind: "approval_denied",
            message: "用户拒绝了工具执行"
        }
    );
    assert_eq!(awaited, None);
    assert_eq!(approvals.pending().len(), 1);
    let mut awaited = Some(id);
    assert_eq!(
        apply_approval_outcome(&mut approvals, &mut batch, &mut awaited, id, ApprovalOutcome::TimedOut),
        ApprovalFollowUp::FailTool {
            error_kind: "approval_timeout",
            message: "审批等待超时"
        }
    );
    assert!(approvals.pending().is_empty());
    assert!(!batch.current_approved);
    let mut awaited = Some(id);
    assert_eq!(
        apply_approval_outcome(&mut approvals, &mut batch, &mut awaited, id, ApprovalOutcome::Cancelled),
        ApprovalFollowUp::Nothing
    );
}

#[test]
fn stale_approval_outcomes_are_ignored() {
    let turn = TurnId::new();
    let mut approvals = ApprovalManager::default();
    let mut batch = PendingToolBatch::new(vec![plan("a")]);
    let request = approval_request("session-1", turn, "p");
    let id = request.approval_id;
    approvals.register(request).unwrap();
    let other = ApprovalId::new();
    let mut awaited = Some(other);
    assert_eq!(
        apply_approval_outcome(&mut approvals, &mut batch, &mut awaited, id, ApprovalOutcome::TimedOut),
        ApprovalFollowUp::Stale
    );
    assert_eq!(awaited, Some(other));
    assert_eq!(approvals.pending().len(), 1);
    let mut none = None;
    assert_eq!(
        apply_approval_outcome(
            &mut approvals,
            &mut batch,
            &mut none,
            id,
            ApprovalOutcome::Approved(ApprovalDecision::Once)
        ),
        ApprovalFollowUp::Stale
    );
    assert!(!batch.current_approved);
}

#[test]
fn approval_requests_are_checked_before_registration() {
    let session = SessionId::new("session-1");
    let turn = TurnId::new();
    let mut approvals = ApprovalManager::default();
    let request = approval_request("session-1", turn, "p");
    assert_eq!(
        decide_approval_required(&request, &session, turn, true, &approvals),
        ApprovalRequiredStep::Register
    );
    assert_eq!(
        decide_approval_required(&request, &session, TurnId::new(), true, &approvals),
        ApprovalRequiredStep::ContextMismatch
    );
    assert_eq!(
        decide_approval_required(&request, &SessionId::new("x"), turn, true, &approvals),
        ApprovalRequiredStep::ContextMismatch
    );
    assert_eq!(
        decide_approval_required(&request, &session, turn, false, &approvals),
        ApprovalRequiredStep::Unavailable
    );
    let grant = approval_request("session-1", turn, "p");
    let grant_id = grant.approval_id;
    approvals.register(grant).unwrap();
    approvals
        .resolve(&session, &turn, grant_id, ApprovalDecision::Always)
        .unwrap();
    assert_eq!(
        decide_approval_required(&request, &session, turn, true, &approvals),
        ApprovalRequiredStep::AlreadyAllowed
    );
}

#[test]
fn recovered_calls_become_failed_results() {
    let events = vec![
        assistant_calls(vec![("a", "terminal"), ("b", "read_file")]),
        event(
            RecoveryEventKind::ToolStarted,
            object(vec![("provider_call_id", text("a"))]),
        ),
    ];
    let plan = plan_recovery(TurnId::new(), &events).unwrap();
    let results = recovery_results(&plan);
    assert_eq!(results.len(), 2);
    assert_eq!(
        results[0],
        ToolExecutionResult {
            call_id: "a".into(),
            name: "terminal".into(),
            ok: false,
            content: "Runtime 重启时工具执行结果未知，未自动重试".into(),
            truncated: false,
            exit_code: None,
            error_kind: Some("runtime_restarted_unknown".into()),
        }
    );
    assert_eq!(
        results[1].error_kind,
        Some("runtime_restarted_not_executed".into())
    );
    assert_eq!(
        restart_failure_reason(),
        "Runtime 重启导致未完成 Turn 安全终止"
    );
}

fn dispatcher() -> ToolDispatcher {
    let mut registry = ToolRegistry::new();
    registry.register(ToolDefinition::new(
        "terminal",
        ToolPermission::ApprovalRequired,
        1000,
        100,
    ));
    ToolDispatcher::new(registry)
}

fn terminal_call(id: &str) -> ToolCall {
    ToolCall {
        call_id: id.into(),
        name: "terminal".into(),
        arguments: JsonValue::Object(Vec::new()),
    }
}

#[test]
fn tool_rounds_are_limited_and_planned() {
    let d = dispatcher();
    assert_eq!(
        plan_tool_round(3, 3, vec![terminal_call("a")], Some(&d)).unwrap_err(),
        TurnFailure {
            stage: "tool_loop_limit",
            reason: "工具调用超过最大回环次数".into()
        }
    );
    assert_eq!(
        plan_tool_round(0, 3, Vec::new(), Some(&d)).unwrap_err(),
        TurnFailure {
            stage: "tool_dispatch",
            reason: "Provider 返回了空工具调用列表".into()
        }
    );
    assert_eq!(
        plan_tool_round(0, 3, vec![terminal_call("a")], None).unwrap_err(),
        TurnFailure {
            stage: "tool_dispatch",
            reason: "ToolRegistry 未配置".into()
        }
    );
    assert_eq!(
        plan_tool_round(0, 3, vec![terminal_call("a"), terminal_call("a")], Some(&d)).unwrap_err(),
        TurnFailure {
            stage: "tool_dispatch",
            reason: "重复的 tool call id：a".into()
        }
    );
    let plans = plan_tool_round(2, 3, vec![terminal_call("a")], Some(&d)).unwrap();
    assert_eq!(plans[0].permission, ToolPermission::ApprovalRequired);
}

#[test]
fn prompts_are_admitted_only_when_idle() {
    let session = SessionId::new("session-1");
    assert_eq!(validate_prompt_submission(false, &session), Ok(()));
    assert_eq!(
        validate_prompt_submission(true, &session),
        Err(RuntimeError::Busy {
            session_id: SessionId::new("session-1")
        })
    );
}

fn result_for(id: &str) -> ToolExecutionResult {
    ToolExecutionResult {
        call_id: id.into(),
        name: "terminal".into(),
        ok: true,
        content: "ok".into(),
        truncated: false,
        exit_code: Some(0),
        error_kind: None,
    }
}

#[test]
fn tool_results_must_answer_the_waiting_call() {
    let batch = PendingToolBatch::new(vec![plan("a")]);
    assert_eq!(check_tool_results(Some(&batch), &vec![result_for("a")]), Ok(()));
    assert_eq!(
        check_tool_results(Some(&batch), &vec![result_for("b")]),
        Err(TurnFailure {
            stage: "tool_protocol",
            reason: "工具结果与当前等待的调用不匹配".into()
        })
    );
    assert_eq!(
        check_tool_results(Some(&batch), &vec![result_for("a"), result_for("a")]),
        Err(TurnFailure {
            stage: "tool_protocol",
            reason: "工具 worker 必须一次返回当前调用的一个结果".into()
        })
    );
    assert!(check_tool_results(None, &vec![result_for("a")]).is_err());
}


#[test]
fn fresh_ids_are_version_four_uuids() {
    let values = [
        TurnId::new().value,
        ToolCallId::new().value,
        ApprovalId::new().value,
    ];
    for value in values {
        assert_eq!((value >> 76) & 0xF, 4);
        assert_eq!((value >> 62) & 0x3, 2);
    }
    assert_ne!(TurnId::new(), TurnId::new());
}

#[test]
fn generation_is_created_reused_or_refused() {
    assert_eq!(decide_generation(None, "s", "t"), Ok(GenerationStep::Create));
    assert_eq!(
        decide_generation(Some(("s", "t")), "s", "t"),
        Ok(GenerationStep::Reuse)
    );
    assert!(matches!(
        decide_generation(Some(("s", "old")), "s", "t"),
        Err(RuntimeError::RequiresTransition)
    ));
    assert!(matches!(
        decide_generation(Some(("old", "t")), "s", "t"),
        Err(RuntimeError::RequiresTransition)
    ));
}
