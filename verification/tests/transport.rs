use std::time::{Duration, SystemTime, SystemTimeError, UNIX_EPOCH};

use sagent::error::ProviderError;
use sagent::mock::{MockAction, MockProvider, MockSseChunk, MockStep};
use sagent::rpc_service::{validate_title, ProtocolError};
use sagent::stdio::{
    join_result, oversized_message, trim_line_ending, FrameAssembler, ReadFrame, MAX_FRAME_BYTES,
};
use sagent::timestamps::{
    approval_expires_at, rfc3339_from_unix, rfc3339_now, seconds_timestamp, utc_date_from_days,
    utc_now,
};
use sagent::types::{ProviderEvent, StopReason, TokenUsage};

#[test]
fn frame_limit_is_one_megabyte() {
    assert_eq!(MAX_FRAME_BYTES, 1024 * 1024);
}

fn frames_of(input: &[u8], chunk: usize) -> Vec<ReadFrame> {
    let mut assembler = FrameAssembler::new();
    let mut frames = Vec::new();
    for piece in input.chunks(chunk) {
        let mut rest = piece;
        while !rest.is_empty() {
            let (consumed, frame) = assembler.on_buffer(rest);
            if let Some(frame) = frame {
                frames.push(frame);
            }
            rest = &rest[consumed..];
        }
    }
    if let Some(frame) = assembler.on_eof() {
        frames.push(frame);
    }
    frames
}

#[test]
fn lines_become_frames_and_a_final_line_without_newline_counts() {
    let frames = frames_of(b"{\"a\":1}\n\r\n{\"b\":2}", 4);
    assert_eq!(
        frames,
        vec![
            ReadFrame::Data(b"{\"a\":1}\n".to_vec()),
            ReadFrame::Data(b"\r\n".to_vec()),
            ReadFrame::Data(b"{\"b\":2}".to_vec()),
        ]
    );
    assert!(frames_of(b"", 3).is_empty());
}

#[test]
fn oversized_line_is_skipped_and_next_line_is_read() {
    let mut input = vec![b'x'; MAX_FRAME_BYTES];
    input.push(b'\n');
    input.extend_from_slice(b"{\"id\":9}\n");
    for chunk in [MAX_FRAME_BYTES / 3, 4096] {
        let frames = frames_of(&input, chunk);
        assert_eq!(
            frames,
            vec![
                ReadFrame::Oversized,
                ReadFrame::Data(b"{\"id\":9}\n".to_vec())
            ]
        );
    }
    let mut exact = vec![b'y'; MAX_FRAME_BYTES - 1];
    exact.push(b'\n');
    assert_eq!(frames_of(&exact, 65536), vec![ReadFrame::Data(exact.clone())]);
}

#[test]
fn line_endings_are_trimmed() {
    assert_eq!(trim_line_ending(b"abc\r\n"), b"abc");
    assert_eq!(trim_line_ending(b"abc\n"), b"abc");
    assert_eq!(trim_line_ending(b"abc\r"), b"abc");
    assert_eq!(trim_line_ending(b"abc\n\n"), b"abc\n");
    assert_eq!(trim_line_ending(b""), b"");
}

#[test]
fn oversized_message_names_the_limit() {
    assert_eq!(oversized_message(), "request frame exceeds 1048576 bytes");
}

#[test]
fn task_outcomes_pass_through() {
    assert!(join_result(Ok(Ok(()))).is_ok());
    let error = join_result(Ok(Err(std::io::Error::other("boom")))).unwrap_err();
    assert_eq!(error.to_string(), "boom");
}

#[test]
fn titles_are_trimmed_and_must_not_be_blank() {
    assert_eq!(validate_title(None), Ok(None));
    assert_eq!(validate_title(Some("  计划  ")), Ok(Some("计划".to_owned())));
    assert_eq!(
        validate_title(Some(" \t ")),
        Err(ProtocolError::InvalidParams("title must not be blank".to_owned()))
    );
}

#[test]
fn days_map_to_calendar_dates() {
    assert_eq!(utc_date_from_days(0), (1970, 1, 1));
    assert_eq!(utc_date_from_days(-1), (1969, 12, 31));
    assert_eq!(utc_date_from_days(59), (1970, 3, 1));
    assert_eq!(utc_date_from_days(11016), (2000, 2, 29));
    assert_eq!(utc_date_from_days(11017), (2000, 3, 1));
    assert_eq!(utc_date_from_days(20697), (2026, 9, 1));
    assert_eq!(utc_date_from_days(-719468), (0, 3, 1));
    assert_eq!(utc_date_from_days(2932896), (9999, 12, 31));
}

fn since_epoch(now: SystemTime) -> Result<(u64, u32), SystemTimeError> {
    now.duration_since(UNIX_EPOCH)
        .map(|duration| (duration.as_secs(), duration.subsec_millis()))
}

#[test]
fn rfc3339_texts_are_zero_padded() {
    assert_eq!(rfc3339_from_unix(0, 0), "1970-01-01T00:00:00.000Z");
    assert_eq!(
        rfc3339_from_unix(1_788_256_860, 7),
        "2026-09-01T10:01:00.007Z"
    );
    assert_eq!(
        rfc3339_now(since_epoch(UNIX_EPOCH + Duration::from_millis(86_400_123))).unwrap(),
        "1970-01-02T00:00:00.123Z"
    );
    assert_eq!(
        rfc3339_now(since_epoch(UNIX_EPOCH)).unwrap(),
        "1970-01-01T00:00:00.000Z"
    );
    assert_eq!(
        rfc3339_now(since_epoch(UNIX_EPOCH + Duration::from_millis(951_782_400_500))).unwrap(),
        "2000-02-29T00:00:00.500Z"
    );
    assert!(rfc3339_now(since_epoch(UNIX_EPOCH - Duration::from_secs(1))).is_err());
}

#[test]
fn second_timestamps_have_twenty_digits() {
    assert_eq!(seconds_timestamp(42), "00000000000000000042");
    assert_eq!(utc_now().len(), 20);
    assert_eq!(
        approval_expires_at("00000000000000000100", 300),
        "00000000000000000400"
    );
    assert_eq!(
        approval_expires_at("18446744073709551615", 1),
        "18446744073709551615"
    );
    assert_eq!(approval_expires_at("not-a-number", 300), "not-a-number");
}

#[test]
fn mock_script_plays_step_by_step() {
    let usage = TokenUsage {
        prompt_tokens: 10,
        completion_tokens: 2,
        total_tokens: 12,
    };
    let provider = MockProvider::new(vec![
        MockAction::Delta("你好".into()),
        MockAction::Usage(usage),
        MockAction::Delay(Duration::from_millis(5)),
        MockAction::Finish(StopReason::Stop),
    ]);
    assert_eq!(provider.actions().len(), 4);
    match provider.step(0, None, "request-1") {
        (MockStep::Emit(event), None) => {
            assert_eq!(event, ProviderEvent::TextDelta { text: "你好".into() })
        }
        other => panic!("unexpected step {other:?}"),
    }
    let (step, seen) = provider.step(1, None, "request-1");
    assert!(matches!(step, MockStep::Emit(ProviderEvent::Usage { .. })));
    assert_eq!(seen, Some(usage));
    assert!(matches!(
        provider.step(2, seen, "request-1"),
        (MockStep::Sleep(d), _) if d == Duration::from_millis(5)
    ));
    match provider.step(3, seen, "request-1") {
        (MockStep::Finish(event, finish), _) => {
            assert_eq!(
                event,
                ProviderEvent::Finished {
                    reason: StopReason::Stop
                }
            );
            assert_eq!(finish.reason, StopReason::Stop);
            assert_eq!(finish.usage, Some(usage));
            assert_eq!(finish.provider_request_id, Some("mock-request-1".into()));
        }
        other => panic!("unexpected step {other:?}"),
    }
    assert!(matches!(
        provider.step(4, seen, "request-1"),
        (MockStep::Exhausted(ProviderError::IncompleteStream), _)
    ));
}

#[test]
fn mock_script_can_fail_or_wait() {
    let provider = MockProvider::new(vec![
        MockAction::WaitForCancel,
        MockAction::Fail(ProviderError::Authentication),
        MockAction::ToolCallDelta {
            call_id: "call-1".into(),
            name: None,
            arguments_delta: "{}".into(),
        },
    ]);
    assert!(matches!(provider.step(0, None, "r"), (MockStep::WaitForCancel, _)));
    assert!(matches!(
        provider.step(1, None, "r"),
        (MockStep::Fail(ProviderError::Authentication), _)
    ));
    assert!(matches!(
        provider.step(2, None, "r"),
        (MockStep::Emit(ProviderEvent::ToolCallDelta { .. }), _)
    ));
}

#[test]
fn mock_chunks_hold_utf8_bytes_and_delays() {
    assert_eq!(MockSseChunk::text("你").bytes, "你".as_bytes().to_vec());
    assert_eq!(MockSseChunk::text("a").delay_before, None);
    let delayed = MockSseChunk::delayed("b", Duration::from_millis(1));
    assert_eq!(delayed.bytes, b"b".to_vec());
    assert_eq!(delayed.delay_before, Some(Duration::from_millis(1)));
    assert_eq!(MockSseChunk::bytes(vec![0xff, 0]).bytes, vec![0xff, 0]);
}

#[test]
fn a_failed_task_is_reported_with_its_text() {
    assert_eq!(
        sagent::stdio::join_failure_message("task 7 panicked"),
        "stdio task failed: task 7 panicked"
    );
}
