use sagent::error::ProviderError;
use sagent::openai_event::{parse_openai_frame, stop_reason, OpenAiStreamParser};
use sagent::sse::SseFrame;
use sagent::types::{ProviderEvent, StopReason, TokenUsage};

fn data_frame(data: &str) -> SseFrame {
    SseFrame {
        event: None,
        id: None,
        data: data.into(),
    }
}

#[test]
fn parses_text_finish_and_usage() {
    let text = parse_openai_frame(&SseFrame {
        event: None,
        id: Some("chat-1".into()),
        data: r#"{"choices":[{"delta":{"content":"你好"},"finish_reason":null}]}"#.into(),
    })
    .expect("文本 delta 应能解析");
    assert_eq!(
        text,
        vec![ProviderEvent::TextDelta {
            text: "你好".into()
        }]
    );

    let finish = parse_openai_frame(&data_frame(
        r#"{"choices":[{"finish_reason":"stop"}],"usage":{"prompt_tokens":10,"completion_tokens":2,"total_tokens":12}}"#,
    ))
    .expect("finish 应能解析");
    assert_eq!(
        finish,
        vec![
            ProviderEvent::Finished {
                reason: StopReason::Stop
            },
            ProviderEvent::Usage {
                usage: TokenUsage {
                    prompt_tokens: 10,
                    completion_tokens: 2,
                    total_tokens: 12
                }
            }
        ]
    );
}

#[test]
fn parses_tool_call_and_unknown_finish_reason() {
    let events = parse_openai_frame(&data_frame(
        r#"{"choices":[{"delta":{"tool_calls":[{"index":0,"id":"call-1","function":{"name":"read_file","arguments":"{\"path\":"}}]},"finish_reason":"future_reason"}]}"#,
    ))
    .expect("tool call 应能解析");
    assert!(matches!(events[0], ProviderEvent::ToolCallDelta { .. }));
    assert_eq!(
        events[1],
        ProviderEvent::Finished {
            reason: StopReason::Unknown
        }
    );
}

#[test]
fn malformed_json_is_protocol_error() {
    let error = parse_openai_frame(&data_frame("not-json")).expect_err("非法 JSON 必须失败");
    assert!(matches!(error, ProviderError::Protocol(_)));
}

#[test]
fn ignores_null_usage_in_streaming_chunk() {
    let events = parse_openai_frame(&data_frame(
        r#"{"choices":[{"delta":{"content":"继续"}}],"usage":null}"#,
    ))
    .expect("usage=null 不是协议错误");
    assert_eq!(
        events,
        vec![ProviderEvent::TextDelta {
            text: "继续".into()
        }]
    );
}

#[test]
fn keeps_tool_call_id_across_split_argument_deltas() {
    let first = "data: {\"choices\":[{\"delta\":{\"tool_calls\":[{\"index\":0,\"id\":\"call-1\",\"function\":{\"name\":\"read_file\",\"arguments\":\"{\\\"path\\\":\\\"notes\"}}]}}]}\n\n";
    let second = "data: {\"choices\":[{\"delta\":{\"tool_calls\":[{\"index\":0,\"function\":{\"arguments\":\".txt\\\"}\"}}]}}]}\n\n";
    let mut parser = OpenAiStreamParser::new();

    let first_events = parser.push(first.as_bytes()).expect("首个半包应可解析");
    let second_events = parser.push(second.as_bytes()).expect("后续半包应可解析");

    let first_id = match &first_events[0] {
        ProviderEvent::ToolCallDelta { call_id, .. } => call_id,
        other => panic!("首事件应为 tool-call delta：{other:?}"),
    };
    let second_id = match &second_events[0] {
        ProviderEvent::ToolCallDelta { call_id, .. } => call_id,
        other => panic!("次事件应为 tool-call delta：{other:?}"),
    };
    assert_eq!(first_id, "call-1");
    assert_eq!(second_id, first_id);
}

#[test]
fn stop_reasons_are_mapped() {
    assert_eq!(stop_reason("stop"), StopReason::Stop);
    assert_eq!(stop_reason("length"), StopReason::Length);
    assert_eq!(stop_reason("tool_calls"), StopReason::ToolCalls);
    assert_eq!(stop_reason("content_filter"), StopReason::ContentFilter);
    assert_eq!(stop_reason("something_else"), StopReason::Unknown);
}

#[test]
fn tool_call_pieces_carry_name_and_arguments() {
    let events = parse_openai_frame(&data_frame(
        r#"{"choices":[{"delta":{"tool_calls":[{"index":0,"id":"call-9","function":{"name":"terminal","arguments":"{}"}}]}}]}"#,
    ))
    .unwrap();
    assert_eq!(
        events,
        vec![ProviderEvent::ToolCallDelta {
            call_id: "call-9".into(),
            name: Some("terminal".into()),
            arguments_delta: "{}".into(),
        }]
    );
}

#[test]
fn stream_with_finish_and_done_completes() {
    let mut parser = OpenAiStreamParser::new();
    let mut events = parser
        .push(b"data: {\"choices\":[{\"delta\":{},\"finish_reason\":\"length\"}]}\n\ndata: [DONE]\n\n")
        .unwrap();
    events.extend(parser.finish().unwrap());
    assert_eq!(
        events,
        vec![ProviderEvent::Finished {
            reason: StopReason::Length
        }]
    );
}

#[test]
fn finish_without_done_is_incomplete_stream() {
    let mut parser = OpenAiStreamParser::new();
    parser
        .push(b"data: {\"choices\":[{\"delta\":{},\"finish_reason\":\"stop\"}]}\n\n")
        .unwrap();
    assert_eq!(parser.finish(), Err(ProviderError::IncompleteStream));
}
