use sagent::dispatch::{
    ToolDefinition, ToolDispatchError, ToolDispatcher, ToolPermission, ToolRegistry,
};
use sagent::error::ProviderError;
use sagent::ids::TurnId;
use sagent::json::JsonValue;
use sagent::provider_worker::{provider_outcome_event, RuntimeProviderSink, WorkerEvent};
use sagent::tool_call::{arguments_from_parsed, ToolCall, ToolCallAccumulator, ToolCallError};
use sagent::types::{ProviderEvent, ProviderFinish, StopReason, TokenUsage};

fn text(value: &str) -> JsonValue {
    JsonValue::Str(value.to_owned())
}

fn object(entries: Vec<(&str, JsonValue)>) -> JsonValue {
    JsonValue::Object(
        entries
            .into_iter()
            .map(|(key, value)| (key.to_owned(), value))
            .collect(),
    )
}

#[test]
fn aggregates_arguments_in_provider_order() {
    let mut accumulator = ToolCallAccumulator::new();
    accumulator
        .push("call-a", Some("terminal".into()), "{\"command\":")
        .unwrap();
    accumulator.push("call-a", None, "\"pwd\"}").unwrap();
    accumulator
        .push("call-b", Some("read_file".into()), "{\"path\":\"a\"}")
        .unwrap();
    let calls = accumulator.finish().unwrap();
    assert_eq!(calls[0].call_id, "call-a");
    assert_eq!(calls[0].arguments, object(vec![("command", text("pwd"))]));
    assert_eq!(calls[1].name, "read_file");
}

#[test]
fn rejects_missing_name_invalid_json_and_oversized_arguments() {
    let mut missing_name = ToolCallAccumulator::new();
    missing_name.push("call-a", None, "{}").unwrap();
    assert_eq!(missing_name.finish(), Err(ToolCallError::MissingName));

    let mut invalid = ToolCallAccumulator::new();
    invalid
        .push("call-a", Some("terminal".into()), "not-json")
        .unwrap();
    assert!(matches!(
        invalid.finish(),
        Err(ToolCallError::InvalidArguments(_))
    ));

    let mut oversized = ToolCallAccumulator::new();
    assert_eq!(
        oversized.push(
            "call-a",
            Some("terminal".into()),
            &"x".repeat(256 * 1024 + 1)
        ),
        Err(ToolCallError::ArgumentsTooLarge)
    );
}

#[test]
fn rejects_empty_id_and_conflicting_names() {
    let mut accumulator = ToolCallAccumulator::new();
    assert_eq!(
        accumulator.push(" ", Some("terminal".into()), "{}"),
        Err(ToolCallError::EmptyId)
    );
    accumulator
        .push("call-a", Some("terminal".into()), "{}")
        .unwrap();
    assert_eq!(
        accumulator.push("call-a", Some("read_file".into()), ""),
        Err(ToolCallError::ConflictingName)
    );
}

#[test]
fn blank_arguments_become_an_empty_object_and_arrays_are_refused() {
    let mut blank = ToolCallAccumulator::new();
    assert!(blank.is_empty());
    blank.push("call-a", Some("terminal".into()), "  ").unwrap();
    assert!(!blank.is_empty());
    let calls = blank.finish().unwrap();
    assert_eq!(calls[0].arguments, JsonValue::Object(Vec::new()));

    let mut array = ToolCallAccumulator::new();
    array.push("call-a", Some("terminal".into()), "[1]").unwrap();
    assert_eq!(
        array.finish(),
        Err(ToolCallError::InvalidArguments(
            "工具参数必须是 JSON object".into()
        ))
    );
}

#[test]
fn blank_name_and_exact_limit_are_handled() {
    let mut accumulator = ToolCallAccumulator::new();
    assert_eq!(
        accumulator.push("call-a", Some(" ".into()), "{}"),
        Err(ToolCallError::MissingName)
    );
    let mut at_limit = ToolCallAccumulator::new();
    assert_eq!(
        at_limit.push("call-a", Some("terminal".into()), &"x".repeat(256 * 1024)),
        Ok(())
    );
    assert_eq!(
        at_limit.push("call-a", None, "y"),
        Err(ToolCallError::ArgumentsTooLarge)
    );
}

#[test]
fn tool_call_error_messages() {
    assert_eq!(ToolCallError::EmptyId.message(), "tool call id 不能为空");
    assert_eq!(
        ToolCallError::InvalidArguments("x".into()).message(),
        "tool call arguments 不是有效 JSON: x"
    );
    assert_eq!(ToolCallError::ArgumentsTooLarge.message(), "tool call 增量过大");
}

fn registry() -> ToolRegistry {
    let mut registry = ToolRegistry::new();
    assert!(registry.register(ToolDefinition::new(
        "read_file",
        ToolPermission::ReadOnly,
        1000,
        2000
    )));
    assert!(registry.register(ToolDefinition::new(
        "blocked",
        ToolPermission::Deny,
        1000,
        2000
    )));
    registry
}

fn call(id: &str, name: &str) -> ToolCall {
    ToolCall {
        call_id: id.into(),
        name: name.into(),
        arguments: object(vec![("path", text("notes.txt"))]),
    }
}

#[test]
fn plans_registered_calls_in_provider_order() {
    let plans = ToolDispatcher::new(registry())
        .plan(vec![call("a", "read_file")])
        .unwrap();
    assert_eq!(plans[0].call.call_id, "a");
    assert_eq!(plans[0].permission, ToolPermission::ReadOnly);
    assert_eq!(plans[0].output_limit, 2000);
}

#[test]
fn rejects_duplicate_unknown_denied_and_non_object_calls() {
    let dispatcher = ToolDispatcher::new(registry());
    assert_eq!(
        dispatcher.plan(vec![call("a", "read_file"), call("a", "read_file")]),
        Err(ToolDispatchError::DuplicateCallId("a".into()))
    );
    assert_eq!(
        dispatcher.plan(vec![call("a", "missing")]),
        Err(ToolDispatchError::UnknownTool("missing".into()))
    );
    assert_eq!(
        dispatcher.plan(vec![call("a", "blocked")]),
        Err(ToolDispatchError::DeniedTool("blocked".into()))
    );
    let mut invalid = call("a", "read_file");
    invalid.arguments = text("not-an-object");
    assert_eq!(
        dispatcher.plan(vec![invalid]),
        Err(ToolDispatchError::InvalidArguments("a".into()))
    );
}

#[test]
fn a_later_bad_call_fails_the_whole_batch() {
    let dispatcher = ToolDispatcher::new(registry());
    assert_eq!(
        dispatcher.plan(vec![call("a", "read_file"), call("b", "blocked")]),
        Err(ToolDispatchError::DeniedTool("blocked".into()))
    );
    let plans = dispatcher
        .plan(vec![call("a", "read_file"), call("b", "read_file")])
        .unwrap();
    assert_eq!(plans.len(), 2);
    assert_eq!(plans[1].call.call_id, "b");
    assert_eq!(plans[1].timeout_ms, 1000);
    assert!(dispatcher.plan(Vec::new()).unwrap().is_empty());
}

#[test]
fn registry_refuses_a_second_tool_of_the_same_name() {
    let mut registry = registry();
    assert!(!registry.register(ToolDefinition::new(
        "read_file",
        ToolPermission::Deny,
        1,
        1
    )));
    assert_eq!(
        registry.get("read_file").unwrap().permission,
        ToolPermission::ReadOnly
    );
    assert!(registry.get("missing").is_none());
}

#[test]
fn dispatch_error_messages() {
    assert_eq!(
        ToolDispatchError::DuplicateCallId("a".into()).message(),
        "重复的 tool call id：a"
    );
    assert_eq!(
        ToolDispatchError::UnknownTool("x".into()).message(),
        "未知工具：x"
    );
}

#[test]
fn aggregates_tool_call_deltas_until_provider_finish() {
    let mut sink = RuntimeProviderSink::new(TurnId::new());
    assert_eq!(
        sink.emit(ProviderEvent::ToolCallDelta {
            call_id: "call-1".into(),
            name: Some("terminal".into()),
            arguments_delta: "{\"command\":".into(),
        })
        .unwrap(),
        None
    );
    sink.emit(ProviderEvent::ToolCallDelta {
        call_id: "call-1".into(),
        name: None,
        arguments_delta: "\"pwd\"}".into(),
    })
    .unwrap();
    let (text_out, calls) = sink
        .into_completion(StopReason::ToolCalls)
        .expect("工具调用应能完成");
    let calls = calls.expect("应返回工具调用");
    assert!(text_out.is_empty());
    assert_eq!(calls[0].name, "terminal");
    assert_eq!(calls[0].arguments, object(vec![("command", text("pwd"))]));
}

#[test]
fn invalid_tool_json_becomes_a_protocol_error() {
    let mut sink = RuntimeProviderSink::new(TurnId::new());
    sink.emit(ProviderEvent::ToolCallDelta {
        call_id: "call-1".into(),
        name: Some("terminal".into()),
        arguments_delta: "not-json".into(),
    })
    .unwrap();
    assert!(sink.into_completion(StopReason::ToolCalls).is_err());
}

#[test]
fn sink_forwards_text_and_usage_and_collects_text() {
    let turn = TurnId::new();
    let mut sink = RuntimeProviderSink::new(turn);
    assert_eq!(
        sink.emit(ProviderEvent::TextDelta { text: "你".into() })
            .unwrap(),
        Some(WorkerEvent::TextDelta {
            turn_id: turn,
            text: "你".into()
        })
    );
    let usage = TokenUsage {
        prompt_tokens: 1,
        completion_tokens: 1,
        total_tokens: 2,
    };
    assert_eq!(
        sink.emit(ProviderEvent::Usage { usage }).unwrap(),
        Some(WorkerEvent::Usage {
            turn_id: turn,
            usage
        })
    );
    sink.emit(ProviderEvent::TextDelta { text: "好".into() })
        .unwrap();
    assert_eq!(
        sink.emit(ProviderEvent::Finished {
            reason: StopReason::Stop
        })
        .unwrap(),
        None
    );
    assert_eq!(
        sink.into_completion(StopReason::Stop).unwrap(),
        ("你好".to_owned(), None)
    );
}

#[test]
fn refused_tool_piece_is_a_protocol_error() {
    let mut sink = RuntimeProviderSink::new(TurnId::new());
    assert_eq!(
        sink.emit(ProviderEvent::ToolCallDelta {
            call_id: " ".into(),
            name: None,
            arguments_delta: "{}".into(),
        }),
        Err(ProviderError::Protocol("tool call id 不能为空".into()))
    );
}

#[test]
fn tool_calls_announced_but_missing_fail() {
    let sink = RuntimeProviderSink::new(TurnId::new());
    assert_eq!(
        sink.into_completion(StopReason::ToolCalls),
        Err("Provider 声明了 tool_calls，但没有完整工具调用".to_owned())
    );
}

#[test]
fn provider_outcomes_become_worker_events() {
    let turn = TurnId::new();
    let finish = ProviderFinish {
        reason: StopReason::Stop,
        usage: None,
        provider_request_id: None,
    };
    let mut sink = RuntimeProviderSink::new(turn);
    sink.emit(ProviderEvent::TextDelta { text: "答".into() })
        .unwrap();
    assert_eq!(
        provider_outcome_event(turn, Ok(finish.clone()), sink),
        WorkerEvent::FinalText {
            turn_id: turn,
            text: "答".into()
        }
    );
    assert_eq!(
        provider_outcome_event(
            turn,
            Err(ProviderError::Cancelled),
            RuntimeProviderSink::new(turn)
        ),
        WorkerEvent::Cancelled { turn_id: turn }
    );
    assert_eq!(
        provider_outcome_event(
            turn,
            Err(ProviderError::IncompleteStream),
            RuntimeProviderSink::new(turn)
        ),
        WorkerEvent::Failed {
            turn_id: turn,
            reason: "provider 流未正常结束".into()
        }
    );
    let mut tools = RuntimeProviderSink::new(turn);
    tools
        .emit(ProviderEvent::ToolCallDelta {
            call_id: "call-1".into(),
            name: Some("read_file".into()),
            arguments_delta: "{}".into(),
        })
        .unwrap();
    match provider_outcome_event(turn, Ok(finish), tools) {
        WorkerEvent::ToolCalls { calls, .. } => assert_eq!(calls[0].call_id, "call-1"),
        other => panic!("应为工具调用：{other:?}"),
    }
}

#[test]
fn an_accumulator_stays_empty_only_while_ids_are_blank() {
    let mut acc = ToolCallAccumulator::new();
    assert_eq!(acc.push(" ", None, "{}"), Err(ToolCallError::EmptyId));
    assert!(acc.is_empty());
    assert_eq!(
        acc.push("call_1", Some(" ".to_owned()), "{}"),
        Err(ToolCallError::MissingName)
    );
    assert!(!acc.is_empty());
    let mut ok = ToolCallAccumulator::new();
    assert_eq!(ok.push("call_2", Some("read_file".to_owned()), ""), Ok(()));
    assert!(!ok.is_empty());
}

#[test]
fn a_sink_collects_text_and_calls_of_a_response() {
    let mut sink = RuntimeProviderSink::new(TurnId::new());
    let events = vec![
        ProviderEvent::TextDelta { text: "读".to_owned() },
        ProviderEvent::ToolCallDelta {
            call_id: "b".to_owned(),
            name: Some("read_file".to_owned()),
            arguments_delta: "{\"path\":".to_owned(),
        },
        ProviderEvent::TextDelta { text: "取".to_owned() },
        ProviderEvent::ToolCallDelta {
            call_id: "a".to_owned(),
            name: Some("terminal".to_owned()),
            arguments_delta: " ".to_owned(),
        },
        ProviderEvent::ToolCallDelta {
            call_id: "b".to_owned(),
            name: None,
            arguments_delta: "\"x\"}".to_owned(),
        },
    ];
    for event in events {
        assert!(sink.emit(event).is_ok());
    }
    let (text_out, calls) = sink.into_completion(StopReason::ToolCalls).unwrap();
    assert_eq!(text_out, "读取");
    assert_eq!(
        calls.unwrap(),
        vec![
            ToolCall {
                call_id: "b".to_owned(),
                name: "read_file".to_owned(),
                arguments: object(vec![("path", text("x"))]),
            },
            ToolCall {
                call_id: "a".to_owned(),
                name: "terminal".to_owned(),
                arguments: object(vec![]),
            },
        ]
    );
}

#[test]
fn a_refused_push_appends_nothing() {
    let mut acc = ToolCallAccumulator::new();
    assert_eq!(acc.push("a", Some("read_file".to_owned()), "{\"path\":"), Ok(()));
    assert_eq!(
        acc.push("a", Some("terminal".to_owned()), "\"x\"}"),
        Err(ToolCallError::ConflictingName)
    );
    assert_eq!(acc.push("a", None, "\"y\"}"), Ok(()));
    assert_eq!(
        acc.finish().unwrap(),
        vec![ToolCall {
            call_id: "a".to_owned(),
            name: "read_file".to_owned(),
            arguments: object(vec![("path", text("y"))]),
        }]
    );
}

#[test]
fn parsed_arguments_must_be_an_object() {
    assert_eq!(arguments_from_parsed(Ok(object(vec![]))), Ok(object(vec![])));
    assert_eq!(
        arguments_from_parsed(Ok(JsonValue::Null)),
        Err(ToolCallError::InvalidArguments("工具参数必须是 JSON object".to_owned()))
    );
    assert_eq!(
        arguments_from_parsed(Err("EOF".to_owned())),
        Err(ToolCallError::InvalidArguments("EOF".to_owned()))
    );
}
