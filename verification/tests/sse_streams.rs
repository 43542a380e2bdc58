use sagent::error::ProviderError;
use sagent::json::JsonValue;
use sagent::openai_event::{frame_value_events, OpenAiStreamParser};
use std::collections::HashMap;
use sagent::sse::{SseDecoder, SseEvent, SseFrame, MAX_SSE_FRAME_SIZE};
use sagent::types::{ProviderEvent, StopReason, TokenUsage};

const NORMAL_TEXT: &str = "data: {\"id\":\"chat-1\",\"choices\":[{\"delta\":{\"role\":\"assistant\",\"content\":\"你\"},\"finish_reason\":null}]}\n\n\
data: {\"id\":\"chat-1\",\"choices\":[{\"delta\":{\"content\":\"好\"},\"finish_reason\":null}]}\n\n\
data: {\"id\":\"chat-1\",\"choices\":[{\"delta\":{},\"finish_reason\":\"stop\"}]}\n\n\
data: [DONE]\n\n";

const SPLIT_JSON: &str = "data: {\"choices\":[{\"delta\":{\"content\":\"分片的 JSON 文本\"},\"finish_reason\":null}]}\n\n\
data: {\"choices\":[{\"delta\":{},\"finish_reason\":\"stop\"}]}\n\n\
data: [DONE]\n\n";

const USAGE: &str = "data: {\"choices\":[{\"delta\":{\"content\":\"完成\"},\"finish_reason\":null}]}\n\n\
data: {\"choices\":[{\"delta\":{},\"finish_reason\":\"stop\"}]}\n\n\
data: {\"choices\":[],\"usage\":{\"prompt_tokens\":10,\"completion_tokens\":2,\"total_tokens\":12}}\n\n\
data: [DONE]\n\n";

const EOF_WITHOUT_FINISH: &str =
    "data: {\"choices\":[{\"delta\":{\"content\":\"部分回答\"},\"finish_reason\":null}]}\n\n";

fn frame(data: &str) -> SseEvent {
    SseEvent::Frame(SseFrame {
        event: None,
        id: None,
        data: data.into(),
    })
}

#[test]
fn parses_lf_and_crlf_frames() {
    let mut decoder = SseDecoder::new();
    let events = decoder
        .push(b"event: message\r\nid: 1\r\ndata: hello\r\n\r\n")
        .expect("CRLF 应能解析");
    assert_eq!(
        events,
        vec![SseEvent::Frame(SseFrame {
            event: Some("message".into()),
            id: Some("1".into()),
            data: "hello".into(),
        })]
    );
}

#[test]
fn joins_multiple_data_lines_and_ignores_comments() {
    let mut decoder = SseDecoder::new();
    let events = decoder
        .push(b": keep-alive\nretry: 1000\ndata: first\ndata: second\n\n")
        .expect("data 行应能合并");
    assert_eq!(events[0], frame("first\nsecond"));
}

#[test]
fn handles_split_utf8_and_final_line_without_newline() {
    let payload = "data: 你好\n\n";
    let bytes = payload.as_bytes();
    let split = bytes.iter().position(|byte| *byte == 0xe4).unwrap() + 1;
    let mut decoder = SseDecoder::new();
    assert!(decoder.push(&bytes[..split]).unwrap().is_empty());
    let events = decoder.push(&bytes[split..]).expect("UTF-8 分片应能合并");
    assert_eq!(events[0].clone(), frame("你好"));

    let mut eof_decoder = SseDecoder::new();
    eof_decoder.push(b"data: eof").unwrap();
    assert_eq!(eof_decoder.finish().unwrap(), vec![frame("eof")]);
}

#[test]
fn parses_done_marker() {
    let mut decoder = SseDecoder::new();
    assert_eq!(
        decoder.push(b"data: [DONE]\n\n").unwrap(),
        vec![SseEvent::Done]
    );
}

#[test]
fn rejects_invalid_utf8_and_oversized_frame() {
    let mut invalid = SseDecoder::new();
    assert!(matches!(
        invalid.push(b"data: \xff\n\n"),
        Err(ProviderError::Protocol(_))
    ));

    let mut oversized = SseDecoder::new();
    let bytes = vec![b'a'; MAX_SSE_FRAME_SIZE + 1];
    assert!(matches!(
        oversized.push(&bytes),
        Err(ProviderError::Protocol(_))
    ));
}

#[test]
fn parses_normal_fixture_and_done_marker() {
    let fixture = NORMAL_TEXT.as_bytes();
    let mut decoder = SseDecoder::new();
    let mut events = decoder.push(fixture).expect("fixture 应能解析");
    events.extend(decoder.finish().expect("fixture EOF 应能冲刷"));

    assert_eq!(events.len(), 4);
    assert!(matches!(events[0], SseEvent::Frame(_)));
    assert!(matches!(events[1], SseEvent::Frame(_)));
    assert!(matches!(events[2], SseEvent::Frame(_)));
    assert_eq!(events[3], SseEvent::Done);
}

#[test]
fn parses_split_json_fixture_across_arbitrary_chunks() {
    let fixture = SPLIT_JSON.as_bytes();
    let mut decoder = SseDecoder::new();
    let mut events = Vec::new();
    for chunk in fixture.chunks(3) {
        events.extend(decoder.push(chunk).expect("任意字节分片都应能解析"));
    }
    events.extend(decoder.finish().expect("fixture 应能完成冲刷"));

    assert_eq!(events.len(), 3);
    assert_eq!(events[2], SseEvent::Done);
}

#[test]
fn parser_preserves_utf8_split_inside_character() {
    let bytes = "data: 你\n\ndata: 好\n\n".as_bytes();
    let split = bytes.iter().position(|byte| *byte == 0xe4).unwrap() + 1;
    let mut decoder = SseDecoder::new();
    assert!(decoder.push(&bytes[..split]).unwrap().is_empty());
    let mut events = decoder.push(&bytes[split..]).unwrap();
    events.extend(decoder.finish().unwrap());

    assert_eq!(events, vec![frame("你"), frame("好")]);
}

#[test]
fn openai_stream_parser_maps_delta_finish_usage_and_done() {
    let fixture = USAGE.as_bytes();
    let mut parser = OpenAiStreamParser::new();
    let mut events = Vec::new();
    for chunk in fixture.chunks(5) {
        events.extend(parser.push(chunk).expect("usage fixture 应能解析"));
    }
    events.extend(parser.finish().expect("finish 和 done 都存在"));

    assert_eq!(
        events,
        vec![
            ProviderEvent::TextDelta {
                text: "完成".into()
            },
            ProviderEvent::Finished {
                reason: StopReason::Stop
            },
            ProviderEvent::Usage {
                usage: TokenUsage {
                    prompt_tokens: 10,
                    completion_tokens: 2,
                    total_tokens: 12
                }
            }
        ]
    );
}

#[test]
fn eof_without_finish_is_incomplete_stream() {
    let fixture = EOF_WITHOUT_FINISH.as_bytes();
    let mut parser = OpenAiStreamParser::new();
    for chunk in fixture.chunks(2) {
        parser.push(chunk).expect("部分文本本身是合法 JSON");
    }
    assert_eq!(
        parser.finish().expect_err("没有 finish 必须失败"),
        ProviderError::IncompleteStream
    );
}

#[test]
fn decoding_does_not_depend_on_how_bytes_are_split() {
    let whole = {
        let mut decoder = SseDecoder::new();
        let mut events = decoder.push(NORMAL_TEXT.as_bytes()).unwrap();
        events.extend(decoder.finish().unwrap());
        events
    };
    for size in [1, 2, 7, 64] {
        let mut decoder = SseDecoder::new();
        let mut events = Vec::new();
        for chunk in NORMAL_TEXT.as_bytes().chunks(size) {
            events.extend(decoder.push(chunk).unwrap());
        }
        events.extend(decoder.finish().unwrap());
        assert_eq!(events, whole);
    }
}

#[test]
fn parsing_does_not_depend_on_how_bytes_are_split() {
    let whole = {
        let mut parser = OpenAiStreamParser::new();
        let mut events = parser.push(NORMAL_TEXT.as_bytes()).unwrap();
        events.extend(parser.finish().unwrap());
        events
    };
    assert_eq!(
        whole,
        vec![
            ProviderEvent::TextDelta { text: "你".into() },
            ProviderEvent::TextDelta { text: "好".into() },
            ProviderEvent::Finished {
                reason: StopReason::Stop
            },
        ]
    );
    for size in [1, 3, 11] {
        let mut parser = OpenAiStreamParser::new();
        let mut events = Vec::new();
        for chunk in NORMAL_TEXT.as_bytes().chunks(size) {
            events.extend(parser.push(chunk).unwrap());
        }
        events.extend(parser.finish().unwrap());
        assert_eq!(events, whole);
    }
}

fn push_then_finish(input: &[u8]) -> Vec<SseEvent> {
    let mut decoder = SseDecoder::new();
    let mut events = decoder.push(input).unwrap();
    events.extend(decoder.finish().unwrap());
    events
}

#[test]
fn finishing_flushes_as_if_a_blank_line_followed() {
    let inputs: [&[u8]; 4] = [
        b"event: delta\ndata: first\ndata: second",
        b"data: [DONE]",
        b"id: 7\r\ndata: x\r\n",
        b"",
    ];
    for input in inputs {
        let mut closed = input.to_vec();
        closed.extend_from_slice(b"\n\n");
        assert_eq!(push_then_finish(input), push_then_finish(&closed));
    }
}

#[test]
fn ending_requires_both_a_finish_and_done() {
    let finish_only = "data: {\"choices\":[{\"delta\":{},\"finish_reason\":\"stop\"}]}\n\n";
    let mut parser = OpenAiStreamParser::new();
    parser.push(finish_only.as_bytes()).unwrap();
    assert_eq!(parser.finish(), Err(ProviderError::IncompleteStream));

    let mut parser = OpenAiStreamParser::new();
    parser.push(b"data: [DONE]\n\n").unwrap();
    assert_eq!(parser.finish(), Err(ProviderError::IncompleteStream));

    let mut parser = OpenAiStreamParser::new();
    parser.push(finish_only.as_bytes()).unwrap();
    parser.push(b"data: [DONE]").unwrap();
    assert_eq!(parser.finish(), Ok(Vec::new()));
}

#[test]
fn ending_after_several_pushes_sees_the_whole_stream() {
    let mut parser = OpenAiStreamParser::new();
    parser.push(b"data: {\"choices\":[{\"delta\":{},\"fin").unwrap();
    parser.push(b"ish_reason\":\"stop\"}]}\n").unwrap();
    parser.push(b"\ndata: [DO").unwrap();
    parser.push(b"NE]\n\n").unwrap();
    assert_eq!(parser.finish(), Ok(Vec::new()));
}

#[test]
fn a_parsed_frame_document_gives_its_events() {
    let mut ids = HashMap::new();
    let document = JsonValue::Object(vec![(
        "choices".to_owned(),
        JsonValue::Array(vec![JsonValue::Object(vec![(
            "delta".to_owned(),
            JsonValue::Object(vec![("content".to_owned(), JsonValue::Str("好".to_owned()))]),
        )])]),
    )]);
    assert_eq!(
        frame_value_events(&document, &mut ids),
        Ok(vec![ProviderEvent::TextDelta { text: "好".to_owned() }])
    );
}

#[test]
fn a_failed_push_uses_up_the_lines_up_to_the_failing_one() {
    let mut decoder = SseDecoder::new();
    assert_eq!(
        decoder.push(b"data: one\n\xff: x\ndata: two\n"),
        Err(ProviderError::Protocol("SSE 字段不是 UTF-8".into()))
    );
    assert_eq!(
        decoder.push(b"\n").unwrap(),
        vec![SseEvent::Frame(SseFrame {
            event: None,
            id: None,
            data: "one\ntwo".into(),
        })]
    );
}
