//! A scripted provider and the byte chunks of a local SSE test server.
//!
//! These types serve deterministic tests only: `MockProvider` plays a script of
//! provider-neutral events, and `MockSseChunk` is one piece of the raw HTTP/SSE bytes a local
//! test server writes.

use vstd::prelude::*;

use std::time::Duration;

use crate::error::{ProviderError, ProviderErrorView};
use crate::text::opt_string_view;
use crate::types::{ProviderEvent, ProviderEventView, ProviderFinish, StopReason, TokenUsage};
use vstd::string::StrSliceExecFns;

verus! {

/// `Clone::clone` of `std::time::Duration`. `Duration` is `Copy`, and std derives its `Clone`,
/// so a clone is the same value.
pub assume_specification[ <std::time::Duration as std::clone::Clone>::clone ](
    d: &std::time::Duration,
) -> (r: std::time::Duration)
    ensures
        r == *d,
;

/// One step of a `MockProvider` script.
#[derive(Debug, Clone, PartialEq)]
pub enum MockAction {
    /// Send a piece of text.
    Delta(String),
    /// Send a neutral tool-call piece; the runtime collects and runs the call after the stream.
    ToolCallDelta { call_id: String, name: Option<String>, arguments_delta: String },
    /// Send token counts.
    Usage(TokenUsage),
    /// Wait for the given time, while still answering cancellation.
    Delay(Duration),
    /// Wait for cancellation; no finish follows.
    WaitForCancel,
    /// Send an explicit finish and end the provider call.
    Finish(StopReason),
    /// Fail at once with the given error.
    Fail(ProviderError),
}

/// A test provider that produces provider events from a fixed script.
#[derive(Debug, Clone, Default)]
pub struct MockProvider {
    actions: Vec<MockAction>,
}

/// What the provider does at one point of its script.
#[derive(Debug)]
pub enum MockStep {
    /// Hand this event to the sink, then go on.
    Emit(ProviderEvent),
    /// Wait this long, unless cancelled, then go on.
    Sleep(Duration),
    /// Wait for cancellation.
    WaitForCancel,
    /// Hand the finish event to the sink and end with this result.
    Finish(ProviderEvent, ProviderFinish),
    /// End with this error.
    Fail(ProviderError),
    /// The script ended without a finish: the call ends with this error, an incomplete
    /// stream.
    Exhausted(ProviderError),
}

impl MockProvider {
    /// The script, step by step.
    pub closed spec fn script(&self) -> Seq<MockAction> {
        self.actions@
    }

    /// A provider that plays `actions`.
    pub fn new(actions: Vec<MockAction>) -> (r: MockProvider)
        ensures
            r.script() == actions@,
    {
        MockProvider { actions }
    }

    /// The script, for test diagnostics.
    pub fn actions(&self) -> (r: &[MockAction])
        ensures
            r@ == self.script(),
    {
        self.actions.as_slice()
    }

    /// What the provider does at step `index` of its script, given the usage reported so far
    /// and the id of the request; also the usage reported once the step is done. Text,
    /// tool-call pieces and usage are sent; a finish is sent and ends the call with the last
    /// usage and the request id `mock-` followed by the id of the request; past the end of
    /// the script the call ends without a finish, with `IncompleteStream`.
    pub fn step(&self, index: usize, usage: Option<TokenUsage>, request_id: &str) -> (r: (
        MockStep,
        Option<TokenUsage>,
    ))
        ensures
            index >= self.script().len() ==> r.1 == usage && (r.0 matches MockStep::Exhausted(e)
                && e@ == ProviderErrorView::IncompleteStream),
            index < self.script().len() ==> match self.script()[index as int] {
                MockAction::Delta(text) => r.1 == usage && (r.0 matches MockStep::Emit(e) && e@
                    == (ProviderEventView::TextDelta { text: text@ })),
                MockAction::ToolCallDelta { call_id, name, arguments_delta } => r.1 == usage && (
                r.0 matches MockStep::Emit(e) && e@ == (ProviderEventView::ToolCallDelta {
                    call_id: call_id@,
                    name: opt_string_view(name),
                    arguments_delta: arguments_delta@,
                })),
                MockAction::Usage(u) => r.1 == Some(u) && (r.0 matches MockStep::Emit(e) && e@
                    == (ProviderEventView::Usage { usage: u })),
                MockAction::Delay(d) => r.1 == usage && r.0 == MockStep::Sleep(d),
                MockAction::WaitForCancel => r.1 == usage && r.0 is WaitForCancel,
                MockAction::Finish(reason) => r.1 == usage && (r.0 matches MockStep::Finish(e, f)
                    && e@ == (ProviderEventView::Finished { reason }) && f.reason == reason
                    && f.usage == usage && f@.provider_request_id == Some("mock-"@ + request_id@)),
                MockAction::Fail(error) => r.1 == usage && (r.0 matches MockStep::Fail(e) && e@
                    == error@),
            },
    {
        if index >= self.actions.len() {
            return (MockStep::Exhausted(ProviderError::IncompleteStream), usage);
        }
        match &self.actions[index] {
            MockAction::Delta(text) => (
                MockStep::Emit(ProviderEvent::TextDelta { text: text.clone() }),
                usage,
            ),
            MockAction::ToolCallDelta { call_id, name, arguments_delta } => {
                let name = match name {
                    Some(n) => Some(n.clone()),
                    None => None,
                };
                (
                    MockStep::Emit(
                        ProviderEvent::ToolCallDelta {
                            call_id: call_id.clone(),
                            name,
                            arguments_delta: arguments_delta.clone(),
                        },
                    ),
                    usage,
                )
            },
            MockAction::Usage(value) => (
                MockStep::Emit(ProviderEvent::Usage { usage: *value }),
                Some(*value),
            ),
            MockAction::Delay(duration) => (MockStep::Sleep(*duration), usage),
            MockAction::WaitForCancel => (MockStep::WaitForCancel, usage),
            MockAction::Finish(reason) => {
                let mut id = "mock-".to_owned();
                id.append(request_id);
                (
                    MockStep::Finish(
                        ProviderEvent::Finished { reason: *reason },
                        ProviderFinish {
                            reason: *reason,
                            usage,
                            provider_request_id: Some(id),
                        },
                    ),
                    usage,
                )
            },
            MockAction::Fail(error) => (MockStep::Fail(error.duplicate()), usage),
        }
    }
}

/// One piece of bytes a mock SSE server writes, and the pause before it.
#[derive(Debug, Clone, PartialEq, Eq)]
pub struct MockSseChunk {
    pub bytes: Vec<u8>,
    pub delay_before: Option<Duration>,
}

impl MockSseChunk {
    /// A UTF-8 piece written at once.
    pub fn text(value: &str) -> (r: MockSseChunk)
        ensures
            r.bytes@ == vstd::utf8::encode_utf8(value@),
            r.delay_before is None,
    {
        MockSseChunk { bytes: value.as_bytes_vec(), delay_before: None }
    }

    /// A UTF-8 piece written after a pause.
    pub fn delayed(value: &str, delay: Duration) -> (r: MockSseChunk)
        ensures
            r.bytes@ == vstd::utf8::encode_utf8(value@),
            r.delay_before == Some(delay),
    {
        MockSseChunk { bytes: value.as_bytes_vec(), delay_before: Some(delay) }
    }

    /// A raw piece of bytes, to imitate any split of the stream.
    pub fn bytes(value: Vec<u8>) -> (r: MockSseChunk)
        ensures
            r.bytes@ == value@,
            r.delay_before is None,
    {
        MockSseChunk { bytes: value, delay_before: None }
    }
}

} // verus!
