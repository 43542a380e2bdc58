//! The stable errors of the provider layer.

use vstd::prelude::*;

use crate::text::{decimal, push_decimal};

verus! {

/// The stable error classes that the provider layer hands to the runtime.
///
/// No variant carries an API key, an authorization header, a full prompt or a full response
/// body, so that none of them reaches logs, events or RPC error replies.
#[derive(Debug, Clone, PartialEq, Eq)]
pub enum ProviderError {
    /// The provider configuration of the current profile is invalid or incomplete.
    Configuration(String),
    /// The provider refused the credentials.
    Authentication,
    /// The provider rate-limited the request; only the retry delay in seconds is kept.
    RateLimited { retry_after_seconds: Option<u64> },
    /// The provider answered with a server error such as HTTP 5xx.
    RemoteServer { status: u16 },
    /// DNS, connection or read timeout failures.
    Transport(String),
    /// SSE framing or JSON decoding failures.
    Protocol(String),
    /// The connection ended before a finish signal; no final answer may be invented.
    IncompleteStream,
    /// The runtime cancelled the request.
    Cancelled,
    /// The actor stopped, so the provider must not send further events to the sink.
    EventSinkClosed,
}

/// A `ProviderError` with its texts taken as character sequences.
pub enum ProviderErrorView {
    Configuration(Seq<char>),
    Authentication,
    RateLimited { retry_after_seconds: Option<u64> },
    RemoteServer { status: u16 },
    Transport(Seq<char>),
    Protocol(Seq<char>),
    IncompleteStream,
    Cancelled,
    EventSinkClosed,
}

impl View for ProviderError {
    type V = ProviderErrorView;

    open spec fn view(&self) -> ProviderErrorView {
        match self {
            ProviderError::Configuration(m) => ProviderErrorView::Configuration(m@),
            ProviderError::Authentication => ProviderErrorView::Authentication,
            ProviderError::RateLimited { retry_after_seconds } => ProviderErrorView::RateLimited {
                retry_after_seconds: *retry_after_seconds,
            },
            ProviderError::RemoteServer { status } => ProviderErrorView::RemoteServer {
                status: *status,
            },
            ProviderError::Transport(m) => ProviderErrorView::Transport(m@),
            ProviderError::Protocol(m) => ProviderErrorView::Protocol(m@),
            ProviderError::IncompleteStream => ProviderErrorView::IncompleteStream,
            ProviderError::Cancelled => ProviderErrorView::Cancelled,
            ProviderError::EventSinkClosed => ProviderErrorView::EventSinkClosed,
        }
    }
}

/// The human-readable text of a provider error.
pub open spec fn provider_error_text(e: ProviderErrorView) -> Seq<char> {
    match e {
        ProviderErrorView::Configuration(m) => "provider 配置错误："@ + m,
        ProviderErrorView::Authentication => "provider 鉴权失败"@,
        ProviderErrorView::RateLimited { .. } => "provider 请求被限流"@,
        ProviderErrorView::RemoteServer { status } => "provider 远端服务错误：HTTP "@ + decimal(
            status as nat,
        ),
        ProviderErrorView::Transport(m) => "provider 网络错误："@ + m,
        ProviderErrorView::Protocol(m) => "provider 响应解析失败："@ + m,
        ProviderErrorView::IncompleteStream => "provider 流未正常结束"@,
        ProviderErrorView::Cancelled => "provider 请求已取消"@,
        ProviderErrorView::EventSinkClosed => "Actor 事件接收器已关闭"@,
    }
}

/// Builds a `ProviderError::Protocol` carrying `message`.
pub fn protocol_error(message: &str) -> (r: ProviderError)
    ensures
        r@ == ProviderErrorView::Protocol(message@),
{
    ProviderError::Protocol(message.to_owned())
}

impl ProviderError {
    /// The human-readable text of this error; it never holds a secret the error does not hold.
    pub fn message(&self) -> (r: String)
        ensures
            r@ == provider_error_text(self@),
    {
        match self {
            ProviderError::Configuration(m) => {
                let mut s = "provider 配置错误：".to_owned();
                s.append(m.as_str());
                s
            },
            ProviderError::Authentication => "provider 鉴权失败".to_owned(),
            ProviderError::RateLimited { .. } => "provider 请求被限流".to_owned(),
            ProviderError::RemoteServer { status } => {
                let mut s = "provider 远端服务错误：HTTP ".to_owned();
                push_decimal(&mut s, *status as u64);
                s
            },
            ProviderError::Transport(m) => {
                let mut s = "provider 网络错误：".to_owned();
                s.append(m.as_str());
                s
            },
            ProviderError::Protocol(m) => {
                let mut s = "provider 响应解析失败：".to_owned();
                s.append(m.as_str());
                s
            },
            ProviderError::IncompleteStream => "provider 流未正常结束".to_owned(),
            ProviderError::Cancelled => "provider 请求已取消".to_owned(),
            ProviderError::EventSinkClosed => "Actor 事件接收器已关闭".to_owned(),
        }
    }

    /// A copy of this error with the same view.
    pub fn duplicate(&self) -> (r: ProviderError)
        ensures
            r@ == self@,
    {
        match self {
            ProviderError::Configuration(m) => ProviderError::Configuration(m.clone()),
            ProviderError::Authentication => ProviderError::Authentication,
            ProviderError::RateLimited { retry_after_seconds } => ProviderError::RateLimited {
                retry_after_seconds: *retry_after_seconds,
            },
            ProviderError::RemoteServer { status } => ProviderError::RemoteServer { status: *status },
            ProviderError::Transport(m) => ProviderError::Transport(m.clone()),
            ProviderError::Protocol(m) => ProviderError::Protocol(m.clone()),
            ProviderError::IncompleteStream => ProviderError::IncompleteStream,
            ProviderError::Cancelled => ProviderError::Cancelled,
            ProviderError::EventSinkClosed => ProviderError::EventSinkClosed,
        }
    }
}

} // verus!
