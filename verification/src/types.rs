//! Provider requests' parts, streaming events and completion results.

use vstd::prelude::*;

use crate::json::JsonValue;
use crate::text::opt_string_view;

verus! {

/// The message roles a provider understands.
#[derive(Debug, Clone, Copy, PartialEq, Eq, Structural)]
pub enum ProviderRole {
    System,
    User,
    Assistant,
    Tool,
}

/// A function call of an assistant message that is replayed to the provider as it was made.
#[derive(Debug, PartialEq)]
pub struct ProviderToolCall {
    /// The call ID the provider assigned.
    pub id: String,
    /// The function name the provider knows.
    pub name: String,
    /// The parsed JSON arguments.
    pub arguments: JsonValue,
}

/// One message sent to the provider.
#[derive(Debug, PartialEq)]
pub struct ProviderMessage {
    /// The role of the message.
    pub role: ProviderRole,
    /// The text of the message.
    pub content: String,
    /// The call ID a tool message answers; `None` for other messages.
    pub tool_call_id: Option<String>,
    /// The complete function calls an assistant message made; empty for tool messages.
    pub tool_calls: Vec<ProviderToolCall>,
}

/// A provider-neutral streaming event.
#[derive(Debug, Clone, PartialEq)]
pub enum ProviderEvent {
    /// A piece of model text; the runtime shows it as a transient delta.
    TextDelta { text: String },
    /// A piece of a streamed tool call; the runtime aggregates and checks the call first.
    ToolCallDelta { call_id: String, name: Option<String>, arguments_delta: String },
    /// Structured token counts, never joined into the assistant text.
    Usage { usage: TokenUsage },
    /// The provider sent an explicit finish signal.
    Finished { reason: StopReason },
}

/// Why the provider stopped.
#[derive(Debug, Clone, Copy, PartialEq, Eq, Structural)]
pub enum StopReason {
    Stop,
    Length,
    ToolCalls,
    ContentFilter,
    Unknown,
}

/// The structured result of a finished provider call.
#[derive(Debug, Clone, PartialEq)]
pub struct ProviderFinish {
    /// The stop reason the provider announced.
    pub reason: StopReason,
    /// The token counts the provider returned.
    pub usage: Option<TokenUsage>,
    /// The upstream request id, kept for diagnostics only.
    pub provider_request_id: Option<String>,
}

/// Token counts of a model call.
#[derive(Debug, Clone, Copy, PartialEq, Eq, Structural)]
pub struct TokenUsage {
    /// Input tokens.
    pub prompt_tokens: u64,
    /// Output tokens.
    pub completion_tokens: u64,
    /// Input and output together.
    pub total_tokens: u64,
}

/// A `ProviderEvent` with its texts taken as character sequences.
pub enum ProviderEventView {
    TextDelta { text: Seq<char> },
    ToolCallDelta { call_id: Seq<char>, name: Option<Seq<char>>, arguments_delta: Seq<char> },
    Usage { usage: TokenUsage },
    Finished { reason: StopReason },
}

impl View for ProviderEvent {
    type V = ProviderEventView;

    open spec fn view(&self) -> ProviderEventView {
        match self {
            ProviderEvent::TextDelta { text } => ProviderEventView::TextDelta { text: text@ },
            ProviderEvent::ToolCallDelta { call_id, name, arguments_delta } =>
                ProviderEventView::ToolCallDelta {
                    call_id: call_id@,
                    name: opt_string_view(*name),
                    arguments_delta: arguments_delta@,
                },
            ProviderEvent::Usage { usage } => ProviderEventView::Usage { usage: *usage },
            ProviderEvent::Finished { reason } => ProviderEventView::Finished { reason: *reason },
        }
    }
}

/// The views of a sequence of provider events.
pub open spec fn provider_events_view(v: Seq<ProviderEvent>) -> Seq<ProviderEventView> {
    v.map_values(|e: ProviderEvent| e@)
}

/// A `ProviderFinish` with its texts taken as character sequences.
pub struct ProviderFinishView {
    pub reason: StopReason,
    pub usage: Option<TokenUsage>,
    pub provider_request_id: Option<Seq<char>>,
}

impl View for ProviderFinish {
    type V = ProviderFinishView;

    open spec fn view(&self) -> ProviderFinishView {
        ProviderFinishView {
            reason: self.reason,
            usage: self.usage,
            provider_request_id: opt_string_view(self.provider_request_id),
        }
    }
}

impl ProviderEvent {
    /// A copy of this event with the same view.
    pub fn duplicate(&self) -> (r: ProviderEvent)
        ensures
            r@ == self@,
    {
        match self {
            ProviderEvent::TextDelta { text } => ProviderEvent::TextDelta { text: text.clone() },
            ProviderEvent::ToolCallDelta { call_id, name, arguments_delta } => {
                let name = match name {
                    Some(n) => Some(n.clone()),
                    None => None,
                };
                ProviderEvent::ToolCallDelta {
                    call_id: call_id.clone(),
                    name,
                    arguments_delta: arguments_delta.clone(),
                }
            },
            ProviderEvent::Usage { usage } => ProviderEvent::Usage { usage: *usage },
            ProviderEvent::Finished { reason } => ProviderEvent::Finished { reason: *reason },
        }
    }
}

} // verus!
