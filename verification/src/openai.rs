//! The decisions of the OpenAI-compatible Chat Completions adapter.
//!
//! The adapter turns provider requests into HTTP requests and hands the upstream SSE bytes to
//! `OpenAiStreamParser`. What it decides — role names, how an HTTP status or a transport
//! failure is classified, whether a response is an event stream, whether a configuration is
//! usable, and what a finished stream reports — is here; the HTTP exchange itself is not.

use vstd::prelude::*;

use crate::error::{ProviderError, ProviderErrorView};
use crate::text::{chars_of, decimal, is_blank, push_decimal, str_is_blank, trim, trimmed};
use crate::types::{ProviderEvent, ProviderFinish, ProviderRole, StopReason, TokenUsage};

verus! {

/// The role name the Chat Completions API uses for `role`.
pub open spec fn role_text(role: ProviderRole) -> Seq<char> {
    match role {
        ProviderRole::System => "system"@,
        ProviderRole::User => "user"@,
        ProviderRole::Assistant => "assistant"@,
        ProviderRole::Tool => "tool"@,
    }
}

/// The role name the Chat Completions API uses for `role`.
pub fn role_name(role: ProviderRole) -> (r: &'static str)
    ensures
        r@ == role_text(role),
{
    match role {
        ProviderRole::System => "system",
        ProviderRole::User => "user",
        ProviderRole::Assistant => "assistant",
        ProviderRole::Tool => "tool",
    }
}

/// Notes what a forwarded event tells of the finished stream: a finish signal sets the stop
/// reason, a usage report sets the usage; other events change nothing.
pub fn observe_event(
    event: &ProviderEvent,
    reason: &mut Option<StopReason>,
    usage: &mut Option<TokenUsage>,
)
    ensures
        match *event {
            ProviderEvent::Finished { reason: value } => *final(reason) == Some(value)
                && *final(usage) == *old(usage),
            ProviderEvent::Usage { usage: value } => *final(usage) == Some(value) && *final(reason)
                == *old(reason),
            _ => *final(reason) == *old(reason) && *final(usage) == *old(usage),
        },
{
    match event {
        ProviderEvent::Finished { reason: value } => *reason = Some(*value),
        ProviderEvent::Usage { usage: value } => *usage = Some(*value),
        ProviderEvent::TextDelta { .. } | ProviderEvent::ToolCallDelta { .. } => {},
    }
}

/// What a stream that ended reports: the announced stop reason (`Unknown` when none came),
/// the usage, and the upstream request id.
pub fn stream_finish(
    reason: Option<StopReason>,
    usage: Option<TokenUsage>,
    provider_request_id: Option<String>,
) -> (r: ProviderFinish)
    ensures
        r.reason == (match reason {
            Some(x) => x,
            None => StopReason::Unknown,
        }),
        r.usage == usage,
        r.provider_request_id == provider_request_id,
{
    let reason = match reason {
        Some(x) => x,
        None => StopReason::Unknown,
    };
    ProviderFinish { reason, usage, provider_request_id }
}

/// Whether `c` is an ASCII decimal digit.
pub open spec fn is_decimal_digit(c: char) -> bool {
    '0' <= c && c <= '9'
}

/// The number that the decimal digits `s` write.
pub open spec fn digits_value(s: Seq<char>) -> nat
    decreases s.len(),
{
    if s.len() == 0 {
        0
    } else {
        digits_value(s.drop_last()) * 10 + ((s.last() as nat) - ('0' as nat)) as nat
    }
}

/// Whether every character of `s` is a decimal digit.
pub open spec fn all_digits(s: Seq<char>) -> bool {
    forall|i: int| 0 <= i < s.len() ==> is_decimal_digit(#[trigger] s[i])
}

/// `s` without one leading `+`.
pub open spec fn unsigned_digits(s: Seq<char>) -> Seq<char> {
    if s.len() > 0 && s[0] == '+' {
        s.drop_first()
    } else {
        s
    }
}

/// What `str::parse::<u64>` gives for `s`: an optional `+` and then one or more decimal
/// digits whose value fits in a `u64`; `None` for anything else.
pub open spec fn parse_u64_spec(s: Seq<char>) -> Option<u64> {
    let digits = unsigned_digits(s);
    if digits.len() > 0 && all_digits(digits) && digits_value(digits) <= u64::MAX {
        Some(digits_value(digits) as u64)
    } else {
        None
    }
}

/// More digits never make a smaller number.
proof fn lemma_digits_value_grows(s: Seq<char>, k: int)
    requires
        0 <= k <= s.len(),
        all_digits(s),
    ensures
        digits_value(s.take(k)) <= digits_value(s),
    decreases s.len() - k,
{
    if k < s.len() {
        let t = s.take(k + 1);
        assert(t.drop_last() =~= s.take(k));
        assert(is_decimal_digit(t.last()));
        lemma_digits_value_grows(s, k + 1);
    } else {
        assert(s.take(k) =~= s);
    }
}

/// Parses `s` as `str::parse::<u64>` does.
pub fn parse_u64(s: &str) -> (r: Option<u64>)
    ensures
        r == parse_u64_spec(s@),
{
    let chars = chars_of(s);
    let n = chars.len();
    let start: usize = if n > 0 && chars[0] == '+' {
        1
    } else {
        0
    };
    let ghost digits = unsigned_digits(s@);
    assert(digits =~= s@.skip(start as int));
    if start >= n {
        return None;
    }
    let mut value: u64 = 0;
    let mut i: usize = start;
    assert(digits.take(0) =~= Seq::<char>::empty());
    while i < n
        invariant
            chars@ == s@,
            n == s@.len(),
            start <= i <= n,
            digits == s@.skip(start as int),
            digits == unsigned_digits(s@),
            forall|j: int| 0 <= j < i - start ==> is_decimal_digit(#[trigger] digits[j]),
            value == digits_value(digits.take(i - start)),
        decreases n - i,
    {
        let c = chars[i];
        assert(digits[i - start] == c);
        if !('0' <= c && c <= '9') {
            assert(!is_decimal_digit(digits[i - start]));
            return None;
        }
        let d = (c as u32 - '0' as u32) as u64;
        let ghost t = digits.take(i - start + 1);
        assert(t.drop_last() =~= digits.take(i - start));
        assert(t.last() == c);
        match value.checked_mul(10) {
            Some(m) => match m.checked_add(d) {
                Some(v) => {
                    value = v;
                },
                None => {
                    assert(digits_value(t) == m + d);
                    proof { lemma_overflow_is_final(digits, i - start + 1); }
                    assert(parse_u64_spec(s@) is None);
                    return None;
                },
            },
            None => {
                assert(digits_value(t) == value * 10 + d);
                proof { lemma_overflow_is_final(digits, i - start + 1); }
                assert(parse_u64_spec(s@) is None);
                return None;
            },
        }
        i = i + 1;
    }
    assert(digits.take(n - start) =~= digits);
    Some(value)
}

/// Once a prefix of the digits is too large for a `u64`, the parse fails.
proof fn lemma_overflow_is_final(digits: Seq<char>, k: int)
    requires
        0 < k <= digits.len(),
        forall|j: int| 0 <= j < k - 1 ==> is_decimal_digit(#[trigger] digits[j]),
        is_decimal_digit(digits[k - 1]),
        digits_value(digits.take(k)) > u64::MAX,
    ensures
        !(all_digits(digits) && digits_value(digits) <= u64::MAX),
{
    if all_digits(digits) {
        lemma_digits_value_grows(digits, k);
    }
}

/// How a transport failure is reported: a timeout, a failed connection, or any other failed
/// request.
pub fn transport_error(timed_out: bool, connect_failed: bool) -> (r: ProviderError)
    ensures
        r@ == ProviderErrorView::Transport(
            if timed_out {
                "请求超时"@
            } else if connect_failed {
                "无法连接 Provider"@
            } else {
                "HTTP 请求失败"@
            },
        ),
{
    if timed_out {
        ProviderError::Transport("请求超时".to_owned())
    } else if connect_failed {
        ProviderError::Transport("无法连接 Provider".to_owned())
    } else {
        ProviderError::Transport("HTTP 请求失败".to_owned())
    }
}

/// How an unsuccessful HTTP status is reported. 401 and 403 are authentication failures; 429
/// is rate limiting, with the delay of a `Retry-After` header that holds a whole number of
/// seconds; 5xx is a server error; anything else is a configuration problem.
pub open spec fn status_error_view(status: u16, retry_after: Option<&str>) -> ProviderErrorView {
    if status == 401 || status == 403 {
        ProviderErrorView::Authentication
    } else if status == 429 {
        ProviderErrorView::RateLimited {
            retry_after_seconds: match retry_after {
                Some(v) => parse_u64_spec(trimmed(v@)),
                None => None,
            },
        }
    } else if 500 <= status <= 599 {
        ProviderErrorView::RemoteServer { status }
    } else {
        ProviderErrorView::Configuration("Provider 返回 HTTP "@ + decimal(status as nat))
    }
}

/// The error for an unsuccessful HTTP status `status`, as `status_error_view` gives it.
pub fn status_error(status: u16, retry_after: Option<&str>) -> (r: ProviderError)
    ensures
        r@ == status_error_view(status, retry_after),
{
    if status == 401 || status == 403 {
        ProviderError::Authentication
    } else if status == 429 {
        let retry_after_seconds = match retry_after {
            Some(v) => parse_u64(trim(v)),
            None => None,
        };
        ProviderError::RateLimited { retry_after_seconds }
    } else if 500 <= status && status <= 599 {
        ProviderError::RemoteServer { status }
    } else {
        let mut text = "Provider 返回 HTTP ".to_owned();
        push_decimal(&mut text, status as u64);
        ProviderError::Configuration(text)
    }
}

/// `c` with an ASCII capital letter made small.
pub open spec fn ascii_lower(c: char) -> char {
    if 'A' <= c && c <= 'Z' {
        ((c as u32) + 32) as char
    } else {
        c
    }
}

/// Whether `a` and `b` are equal when ASCII letters are compared without case, as
/// `str::eq_ignore_ascii_case` decides.
pub open spec fn eq_ignore_ascii_case(a: Seq<char>, b: Seq<char>) -> bool {
    a.len() == b.len() && forall|i: int| 0 <= i < a.len() ==> ascii_lower(#[trigger] a[i])
        == ascii_lower(b[i])
}

/// The part of `s` before its first `;`, or all of `s` when it has none.
pub open spec fn before_semicolon(s: Seq<char>) -> Seq<char> {
    if exists|i: int| 0 <= i < s.len() && s[i] == ';' {
        s.take(choose|i: int| 0 <= i < s.len() && s[i] == ';' && forall|j: int| 0 <= j < i ==> s[j] != ';')
    } else {
        s
    }
}

/// Whether a `Content-Type` value names `text/event-stream`: its media type, before any
/// parameter, is that name once trimmed, in any ASCII case.
pub open spec fn is_event_stream_spec(content_type: Seq<char>) -> bool {
    eq_ignore_ascii_case(trimmed(before_semicolon(content_type)), "text/event-stream"@)
}

/// `c` with an ASCII capital letter made small.
fn lower_char(c: char) -> (r: char)
    ensures
        r == ascii_lower(c),
{
    if 'A' <= c && c <= 'Z' {
        ((c as u32) + 32) as u8 as char
    } else {
        c
    }
}

/// Whether `a` and `b` are equal when ASCII letters are compared without case.
pub fn equal_ignoring_ascii_case(a: &str, b: &str) -> (r: bool)
    ensures
        r == eq_ignore_ascii_case(a@, b@),
{
    let x = chars_of(a);
    let y = chars_of(b);
    if x.len() != y.len() {
        return false;
    }
    let mut i: usize = 0;
    while i < x.len()
        invariant
            x@ == a@,
            y@ == b@,
            x@.len() == y@.len(),
            i <= x@.len(),
            forall|j: int| 0 <= j < i ==> ascii_lower(#[trigger] a@[j]) == ascii_lower(b@[j]),
        decreases x@.len() - i,
    {
        if lower_char(x[i]) != lower_char(y[i]) {
            return false;
        }
        i = i + 1;
    }
    true
}

/// Whether a `Content-Type` value names `text/event-stream`.
pub fn is_event_stream(content_type: &str) -> (r: bool)
    ensures
        r == is_event_stream_spec(content_type@),
{
    let chars = chars_of(content_type);
    let mut i: usize = 0;
    while i < chars.len() && chars[i] != ';'
        invariant
            chars@ == content_type@,
            i <= chars@.len(),
            forall|j: int| 0 <= j < i ==> content_type@[j] != ';',
        decreases chars@.len() - i,
    {
        i = i + 1;
    }
    let ghost s = content_type@;
    proof {
        if i < chars.len() {
            assert(s[i as int] == ';');
            let k = choose|k: int| 0 <= k < s.len() && s[k] == ';' && forall|j: int| 0 <= j < k ==> s[j] != ';';
            if k < i {
                assert(s[k] != ';');
            }
            if k > i {
                assert(s[i as int] != ';');
            }
            assert(before_semicolon(s) =~= s.subrange(0, i as int));
        } else {
            assert(before_semicolon(s) =~= s.subrange(0, i as int));
        }
    }
    let media = content_type.substring_char(0, i);
    proof { reveal_strlit("text/event-stream"); }
    equal_ignoring_ascii_case(trim(media), "text/event-stream")
}

/// Checks the head of a provider's HTTP response before its body is read as an event stream:
/// a status outside 200..=299 is reported by `status_error`; a successful response whose
/// `Content-Type` (empty when absent) does not name `text/event-stream` is a protocol error.
pub fn check_response(status: u16, retry_after: Option<&str>, content_type: &str) -> (r: Result<
    (),
    ProviderError,
>)
    ensures
        !(200 <= status <= 299) ==> (r matches Err(e) && e@ == status_error_view(
            status,
            retry_after,
        )),
        200 <= status <= 299 && is_event_stream_spec(content_type@) ==> r is Ok,
        200 <= status <= 299 && !is_event_stream_spec(content_type@) ==> (r matches Err(e) && e@
            == ProviderErrorView::Protocol("Provider 响应不是 text/event-stream"@)),
{
    if status < 200 || status > 299 {
        return Err(status_error(status, retry_after));
    }
    if !is_event_stream(content_type) {
        return Err(ProviderError::Protocol("Provider 响应不是 text/event-stream".to_owned()));
    }
    Ok(())
}

/// Checks the parts of a provider configuration the adapter decides on: the endpoint's scheme
/// must be `http` or `https`, and the API key must not be blank.
pub fn validate_provider_config(scheme: &str, api_key: &str) -> (r: Result<(), ProviderError>)
    ensures
        scheme@ != "http"@ && scheme@ != "https"@ ==> (r matches Err(e) && e@
            == ProviderErrorView::Configuration("Provider endpoint 必须使用 http 或 https"@)),
        (scheme@ == "http"@ || scheme@ == "https"@) && is_blank(api_key@) ==> (r matches Err(e)
            && e@ == ProviderErrorView::Configuration("Provider API key 不能为空"@)),
        (scheme@ == "http"@ || scheme@ == "https"@) && !is_blank(api_key@) ==> r is Ok,
{
    if !crate::json::str_equal(scheme, "http") && !crate::json::str_equal(scheme, "https") {
        return Err(ProviderError::Configuration("Provider endpoint 必须使用 http 或 https".to_owned()));
    }
    if str_is_blank(api_key) {
        return Err(ProviderError::Configuration("Provider API key 不能为空".to_owned()));
    }
    Ok(())
}

/// `url::Url`, as `reqwest` re-exports it, held opaque.
#[verifier::external_type_specification]
#[verifier::external_body]
pub struct ExUrl(reqwest::Url);

/// The scheme that `url::Url::parse` finds in `endpoint`, by `Url::scheme` of the parsed URL;
/// `None` when the text is no valid URL. It depends on the text alone.
pub uninterp spec fn url_scheme(endpoint: Seq<char>) -> Option<Seq<char>>;

/// The URL that `url::Url::parse` makes of `endpoint`; `None` when the text is no valid URL.
/// It depends on the text alone.
pub uninterp spec fn parsed_url(endpoint: Seq<char>) -> Option<reqwest::Url>;

/// Parses `endpoint` with `url::Url::parse`: the URL and its scheme (`Url::scheme`), or
/// `None` when the text is no valid URL; they are what `parsed_url` and `url_scheme` name for
/// this text.
#[verifier::external_body]
fn parse_url(endpoint: &str) -> (r: Option<(reqwest::Url, String)>)
    ensures
        r is Some <==> url_scheme(endpoint@) is Some,
        r is Some <==> parsed_url(endpoint@) is Some,
        r matches Some((url, scheme)) ==> url_scheme(endpoint@) == Some(scheme@) && parsed_url(
            endpoint@,
        ) == Some(url),
{
    let url = reqwest::Url::parse(endpoint).ok()?;
    let scheme = url.scheme().to_owned();
    Some((url, scheme))
}

/// Parses a provider endpoint given as text, as the profile configuration holds it, and checks
/// the configuration in the adapter's order: the text must be a valid URL, its scheme `http`
/// or `https`, and the API key must not be blank. The URL parsed from `endpoint` is returned.
pub fn parse_provider_endpoint(endpoint: &str, api_key: &str) -> (r: Result<
    reqwest::Url,
    ProviderError,
>)
    ensures
        url_scheme(endpoint@) is None ==> (r matches Err(e) && e@
            == ProviderErrorView::Configuration("Provider endpoint 不是有效 URL"@)),
        url_scheme(endpoint@) matches Some(scheme) ==> {
            &&& scheme != "http"@ && scheme != "https"@ ==> (r matches Err(e) && e@
                == ProviderErrorView::Configuration("Provider endpoint 必须使用 http 或 https"@))
            &&& (scheme == "http"@ || scheme == "https"@) && is_blank(api_key@) ==> (r matches Err(
                e,
            ) && e@ == ProviderErrorView::Configuration("Provider API key 不能为空"@))
            &&& (scheme == "http"@ || scheme == "https"@) && !is_blank(api_key@) ==> r is Ok
        },
        r matches Ok(url) ==> parsed_url(endpoint@) == Some(url),
{
    match parse_url(endpoint) {
        None => Err(ProviderError::Configuration("Provider endpoint 不是有效 URL".to_owned())),
        Some((url, scheme)) => {
            match validate_provider_config(scheme.as_str(), api_key) {
                Ok(()) => Ok(url),
                Err(error) => Err(error),
            }
        },
    }
}

/// The classes of unsuccessful HTTP statuses: every server error status (500 through 599) is a
/// remote server error carrying that status, 401 and 403 are authentication failures, 429 is
/// rate limiting, and only the remaining statuses are configuration problems, whose message
/// names the status.
pub proof fn law_http_status_classes(status: u16, retry_after: Option<&str>)
    ensures
        500 <= status <= 599 ==> status_error_view(status, retry_after)
            == (ProviderErrorView::RemoteServer { status }),
        status == 401 || status == 403 ==> status_error_view(status, retry_after)
            == ProviderErrorView::Authentication,
        status == 429 ==> status_error_view(status, retry_after) is RateLimited,
        status_error_view(status, retry_after) is Configuration <==> !(status == 401 || status
            == 403 || status == 429 || (500 <= status <= 599)),
        status_error_view(status, retry_after) is RemoteServer <==> 500 <= status <= 599,
        status_error_view(status, retry_after) matches ProviderErrorView::RemoteServer { status: s }
            ==> s == status,
{
}

} // verus!
