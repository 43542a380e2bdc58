use sagent::error::ProviderError;
use sagent::openai::{
    check_response,
    equal_ignoring_ascii_case, is_event_stream, observe_event, parse_provider_endpoint, parse_u64, role_name,
    status_error, stream_finish, transport_error, validate_provider_config,
};
use sagent::types::{ProviderEvent, ProviderRole, StopReason, TokenUsage};

#[test]
fn errors_do_not_include_secret_fields() {
    let key = "secret-api-key";
    let errors = [
        ProviderError::Configuration("endpoint missing".into()),
        ProviderError::Authentication,
        ProviderError::RateLimited {
            retry_after_seconds: Some(3),
        },
        ProviderError::RemoteServer { status: 503 },
        ProviderError::Transport("timeout".into()),
        ProviderError::Protocol("invalid JSON".into()),
        ProviderError::IncompleteStream,
        ProviderError::Cancelled,
        ProviderError::EventSinkClosed,
    ];

    for error in errors {
        assert!(!error.message().contains(key));
    }
}

#[test]
fn rate_limit_keeps_only_retry_metadata() {
    let error = ProviderError::RateLimited {
        retry_after_seconds: Some(7),
    };

    assert_eq!(
        error,
        ProviderError::RateLimited {
            retry_after_seconds: Some(7)
        }
    );
    assert_eq!(error.message(), "provider 请求被限流");
}

#[test]
fn validates_endpoint_and_key() {
    assert!(parse_provider_endpoint("not-a-url", "key").is_err());
    assert!(parse_provider_endpoint("http://localhost", " ").is_err());
    assert!(validate_provider_config("http", " ").is_err());
    assert_eq!(role_name(ProviderRole::Assistant), "assistant");
}

#[test]
fn error_messages_name_their_class() {
    assert_eq!(
        ProviderError::Configuration("endpoint missing".into()).message(),
        "provider 配置错误：endpoint missing"
    );
    assert_eq!(
        ProviderError::RemoteServer { status: 503 }.message(),
        "provider 远端服务错误：HTTP 503"
    );
    assert_eq!(
        ProviderError::Protocol("invalid JSON".into()).message(),
        "provider 响应解析失败：invalid JSON"
    );
    assert_eq!(ProviderError::IncompleteStream.message(), "provider 流未正常结束");
    assert_eq!(ProviderError::EventSinkClosed.message(), "Actor 事件接收器已关闭");
}

#[test]
fn role_names_follow_the_chat_completions_api() {
    assert_eq!(role_name(ProviderRole::System), "system");
    assert_eq!(role_name(ProviderRole::User), "user");
    assert_eq!(role_name(ProviderRole::Tool), "tool");
}

#[test]
fn status_codes_are_classified() {
    assert_eq!(status_error(401, None), ProviderError::Authentication);
    assert_eq!(status_error(403, Some("5")), ProviderError::Authentication);
    assert_eq!(
        status_error(429, Some(" 17 ")),
        ProviderError::RateLimited {
            retry_after_seconds: Some(17)
        }
    );
    assert_eq!(
        status_error(429, Some("Wed, 21 Oct 2015 07:28:00 GMT")),
        ProviderError::RateLimited {
            retry_after_seconds: None
        }
    );
    assert_eq!(
        status_error(429, None),
        ProviderError::RateLimited {
            retry_after_seconds: None
        }
    );
    assert_eq!(status_error(502, None), ProviderError::RemoteServer { status: 502 });
    assert_eq!(
        status_error(404, None),
        ProviderError::Configuration("Provider 返回 HTTP 404".into())
    );
}

#[test]
fn transport_failures_are_classified() {
    assert_eq!(
        transport_error(true, true),
        ProviderError::Transport("请求超时".into())
    );
    assert_eq!(
        transport_error(false, true),
        ProviderError::Transport("无法连接 Provider".into())
    );
    assert_eq!(
        transport_error(false, false),
        ProviderError::Transport("HTTP 请求失败".into())
    );
}

#[test]
fn unsigned_numbers_parse_as_std_does() {
    assert_eq!(parse_u64("0"), Some(0));
    assert_eq!(parse_u64("+42"), Some(42));
    assert_eq!(parse_u64("18446744073709551615"), Some(u64::MAX));
    assert_eq!(parse_u64("18446744073709551616"), None);
    assert_eq!(parse_u64(""), None);
    assert_eq!(parse_u64("+"), None);
    assert_eq!(parse_u64("-1"), None);
    assert_eq!(parse_u64("1 "), None);
    for text in ["7", "123456789", "+0", "x", "99999999999999999999"] {
        assert_eq!(parse_u64(text), text.parse::<u64>().ok());
    }
}

#[test]
fn event_stream_content_type_is_recognized() {
    assert!(is_event_stream("text/event-stream"));
    assert!(is_event_stream(" Text/Event-Stream ; charset=utf-8"));
    assert!(!is_event_stream("application/json"));
    assert!(!is_event_stream(""));
    assert!(!is_event_stream("text/event-stream-x"));
    assert!(equal_ignoring_ascii_case("ABC", "abc"));
    assert!(!equal_ignoring_ascii_case("abc", "abd"));
}

#[test]
fn provider_configuration_is_checked() {
    assert_eq!(
        validate_provider_config("ftp", "key"),
        Err(ProviderError::Configuration(
            "Provider endpoint 必须使用 http 或 https".into()
        ))
    );
    assert_eq!(
        validate_provider_config("https", "\t"),
        Err(ProviderError::Configuration("Provider API key 不能为空".into()))
    );
    assert_eq!(validate_provider_config("https", "key"), Ok(()));
}

#[test]
fn finished_stream_reports_reason_usage_and_request_id() {
    let mut reason = None;
    let mut usage = None;
    let tokens = TokenUsage {
        prompt_tokens: 1,
        completion_tokens: 2,
        total_tokens: 3,
    };
    observe_event(
        &ProviderEvent::TextDelta { text: "a".into() },
        &mut reason,
        &mut usage,
    );
    assert_eq!((reason, usage), (None, None));
    observe_event(&ProviderEvent::Usage { usage: tokens }, &mut reason, &mut usage);
    observe_event(
        &ProviderEvent::Finished {
            reason: StopReason::Length,
        },
        &mut reason,
        &mut usage,
    );
    let finish = stream_finish(reason, usage, Some("req-1".into()));
    assert_eq!(finish.reason, StopReason::Length);
    assert_eq!(finish.usage, Some(tokens));
    assert_eq!(finish.provider_request_id, Some("req-1".into()));
    assert_eq!(stream_finish(None, None, None).reason, StopReason::Unknown);
}

#[test]
fn provider_endpoints_are_checked_in_order() {
    assert_eq!(
        parse_provider_endpoint("not-a-url", " ").unwrap_err(),
        ProviderError::Configuration("Provider endpoint 不是有效 URL".into())
    );
    assert_eq!(
        parse_provider_endpoint("ftp://example.com", "key").unwrap_err(),
        ProviderError::Configuration("Provider endpoint 必须使用 http 或 https".into())
    );
    assert_eq!(
        parse_provider_endpoint("https://example.com/v1", "  ").unwrap_err(),
        ProviderError::Configuration("Provider API key 不能为空".into())
    );
    let url = parse_provider_endpoint("HTTPS://example.com/v1/chat", "key").unwrap();
    assert_eq!(url.scheme(), "https");
    assert_eq!(url.as_str(), "https://example.com/v1/chat");
}

#[test]
fn response_heads_are_checked_before_streaming() {
    assert_eq!(check_response(200, None, "text/event-stream"), Ok(()));
    assert_eq!(
        check_response(204, None, "Text/Event-Stream; charset=utf-8"),
        Ok(())
    );
    assert_eq!(
        check_response(200, None, "application/json"),
        Err(ProviderError::Protocol(
            "Provider 响应不是 text/event-stream".to_owned()
        ))
    );
    assert_eq!(
        check_response(200, None, ""),
        Err(ProviderError::Protocol(
            "Provider 响应不是 text/event-stream".to_owned()
        ))
    );
    assert_eq!(
        check_response(429, Some("3"), "text/event-stream"),
        Err(ProviderError::RateLimited {
            retry_after_seconds: Some(3)
        })
    );
    assert_eq!(
        check_response(404, None, "text/event-stream"),
        Err(ProviderError::Configuration("Provider 返回 HTTP 404".to_owned()))
    );
}
