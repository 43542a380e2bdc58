//! What a provider worker decides while it bridges provider events to the session actor.
//!
//! The worker forwards text and usage to the actor as they arrive, collects tool-call pieces
//! until the provider finishes, and then reports one completion. Sending into the actor's
//! mailbox is left to the caller; this module decides what is sent.

use vstd::prelude::*;

use crate::error::{ProviderError, ProviderErrorView, provider_error_text};
use crate::ids::TurnId;
use crate::text::opt_string_view;
use crate::tool_call::{
    ToolCall, ToolCallAccumulator, PartialCall, call_built, first_call_error, push_step,
    tool_call_error_text, ToolCallErrorView, push_all, law_accumulator_empty_iff_only_blank_ids,
    lemma_accepted_pieces_have_ids, first_appearances, names_of, pieces_of, law_names_follow_pieces,
    law_pieces_aggregate_in_provider_order, law_finish_builds_calls_in_provider_order,
};
use crate::json::{serde_json_parse, JsonValue};
use crate::text::is_blank;
use crate::types::ProviderEventView;
use crate::tool_worker::ToolExecutionResult;
use crate::types::{ProviderEvent, ProviderFinish, StopReason, TokenUsage};

verus! {

/// An event a provider or tool worker hands to the session actor.
#[derive(Debug, PartialEq)]
pub enum WorkerEvent {
    /// A streamed piece of text, only for display.
    TextDelta { turn_id: TurnId, text: String },
    /// The provider's token counts, a passing event that is not added to the message.
    Usage { turn_id: TurnId, usage: TokenUsage },
    /// The model produced its final text.
    FinalText { turn_id: TurnId, text: String },
    /// The worker failed in a controlled way.
    Failed { turn_id: TurnId, reason: String },
    /// The worker stopped after its cancellation token fired.
    Cancelled { turn_id: TurnId },
    /// The provider finished a response with tool calls; the actor dispatches them.
    ToolCalls { turn_id: TurnId, text: String, calls: Vec<ToolCall> },
    /// A tool worker finished its call.
    ToolResults { turn_id: TurnId, results: Vec<ToolExecutionResult> },
}

/// The text of the failure when the provider announced tool calls but sent none.
pub open spec fn missing_tool_calls_text() -> Seq<char> {
    "Provider 声明了 tool_calls，但没有完整工具调用"@
}

/// What a provider worker has collected of one response: the text so far and the tool-call
/// pieces so far.
pub struct RuntimeProviderSink {
    turn_id: TurnId,
    text: String,
    tool_calls: ToolCallAccumulator,
}

/// What a sink holds: its turn, its text, and its collected calls.
pub struct SinkView {
    pub turn_id: TurnId,
    pub text: Seq<char>,
    pub calls: Seq<PartialCall>,
}

impl View for RuntimeProviderSink {
    type V = SinkView;

    closed spec fn view(&self) -> SinkView {
        SinkView { turn_id: self.turn_id, text: self.text@, calls: self.tool_calls@ }
    }
}

/// The sink after taking the event `e`, and whether the sink accepted it: text is appended,
/// usage and a finish change nothing, and a tool-call piece is pushed onto the calls.
pub open spec fn emit_step(s: SinkView, e: ProviderEventView) -> (SinkView, bool) {
    match e {
        ProviderEventView::TextDelta { text } => (SinkView { text: s.text + text, ..s }, true),
        ProviderEventView::ToolCallDelta { call_id, name, arguments_delta } => {
            let (calls, outcome) = push_step(s.calls, call_id, name, arguments_delta);
            (SinkView { calls, ..s }, outcome is Ok)
        },
        _ => (s, true),
    }
}

/// The sink after taking the events `events` in order, and whether it accepted every one.
pub open spec fn emit_all(s: SinkView, events: Seq<ProviderEventView>) -> (SinkView, bool)
    decreases events.len(),
{
    if events.len() == 0 {
        (s, true)
    } else {
        let (before, ok) = emit_all(s, events.drop_last());
        let (after, accepted) = emit_step(before, events.last());
        (after, ok && accepted)
    }
}

/// The texts of the text deltas among `events`, joined in order.
pub open spec fn texts_of(events: Seq<ProviderEventView>) -> Seq<char>
    decreases events.len(),
{
    if events.len() == 0 {
        Seq::empty()
    } else {
        match events.last() {
            ProviderEventView::TextDelta { text } => texts_of(events.drop_last()) + text,
            _ => texts_of(events.drop_last()),
        }
    }
}

/// The tool-call pieces (id, name, arguments piece) among `events`, in order.
pub open spec fn pieces_of_events(events: Seq<ProviderEventView>) -> Seq<
    (Seq<char>, Option<Seq<char>>, Seq<char>),
>
    decreases events.len(),
{
    if events.len() == 0 {
        Seq::empty()
    } else {
        match events.last() {
            ProviderEventView::ToolCallDelta { call_id, name, arguments_delta } => pieces_of_events(
                events.drop_last(),
            ).push((call_id, name, arguments_delta)),
            _ => pieces_of_events(events.drop_last()),
        }
    }
}

/// A new sink that accepted every event of a response holds the response's text deltas joined
/// in order, and the calls that the response's tool-call pieces aggregate to, all of them
/// accepted; it holds no call exactly when the response had no tool-call piece. With the
/// contract of `into_completion` this fixes the completion: the text alone (or the failure
/// for announced but missing calls) without pieces, the completed calls otherwise.
pub proof fn law_sink_collects_the_response(turn_id: TurnId, events: Seq<ProviderEventView>)
    ensures
        ({
            let start = SinkView { turn_id, text: Seq::empty(), calls: Seq::empty() };
            let (sink, ok) = emit_all(start, events);
            ok ==> {
                &&& sink.turn_id == turn_id
                &&& sink.text == texts_of(events)
                &&& sink.calls == push_all(Seq::empty(), pieces_of_events(events)).0
                &&& push_all(Seq::empty(), pieces_of_events(events)).1
                &&& (sink.calls.len() == 0 <==> pieces_of_events(events).len() == 0)
            }
        }),
    decreases events.len(),
{
    let start = SinkView { turn_id, text: Seq::empty(), calls: Seq::empty() };
    if events.len() > 0 {
        let prev = events.drop_last();
        law_sink_collects_the_response(turn_id, prev);
        match events.last() {
            ProviderEventView::TextDelta { text } => {},
            ProviderEventView::ToolCallDelta { call_id, name, arguments_delta } => {
                let pp = pieces_of_events(prev);
                assert(pieces_of_events(events).drop_last() =~= pp);
            },
            _ => {},
        }
    }
    let (sink, ok) = emit_all(start, events);
    if ok {
        let pieces = pieces_of_events(events);
        law_accumulator_empty_iff_only_blank_ids(pieces);
        lemma_accepted_pieces_have_ids(pieces);
        if sink.calls.len() == 0 && pieces.len() > 0 {
            assert(!crate::text::is_blank(pieces[0].0));
        }
    }
}

/// Whether `r` is the completion of a sink holding `s` once the provider finished with
/// `reason`: the text alone when no tool call was collected (a response that announced tool
/// calls without sending any fails), otherwise the text and the calls built from the collected
/// ones, or the first error among them.
pub open spec fn completion_matches(
    s: SinkView,
    reason: StopReason,
    r: Result<(String, Option<Vec<ToolCall>>), String>,
) -> bool {
    &&& s.calls.len() == 0 && reason == StopReason::ToolCalls ==> (r matches Err(m) && m@
        == missing_tool_calls_text())
    &&& s.calls.len() == 0 && reason != StopReason::ToolCalls ==> (r matches Ok((text, None))
        && text@ == s.text)
    &&& s.calls.len() > 0 ==> match first_call_error(s.calls) {
        Some(e) => r matches Err(m) && m@ == tool_call_error_text(e),
        None => r matches Ok((text, Some(calls))) && text@ == s.text && calls@.len()
            == s.calls.len() && forall|i: int|
            0 <= i < calls@.len() ==> call_built(#[trigger] calls@[i], s.calls[i]),
    }
}

/// What a new sink completes to after taking the events of a response, every one accepted:
/// with no tool-call piece, the response's text deltas joined in order (or the failure for
/// announced but missing calls); otherwise the first error among the aggregated calls, or the
/// text with one call per call id in the order of first appearance, each with its pieces
/// parsed as arguments.
pub proof fn law_completion_of_a_response(
    turn_id: TurnId,
    events: Seq<ProviderEventView>,
    reason: StopReason,
    r: Result<(String, Option<Vec<ToolCall>>), String>,
)
    requires
        emit_all(SinkView { turn_id, text: Seq::empty(), calls: Seq::empty() }, events).1,
        completion_matches(
            emit_all(SinkView { turn_id, text: Seq::empty(), calls: Seq::empty() }, events).0,
            reason,
            r,
        ),
    ensures
        ({
            let pieces = pieces_of_events(events);
            let calls = push_all(Seq::empty(), pieces).0;
            let ids = first_appearances(pieces);
            &&& pieces.len() == 0 && reason == StopReason::ToolCalls ==> (r matches Err(m) && m@
                == missing_tool_calls_text())
            &&& pieces.len() == 0 && reason != StopReason::ToolCalls ==> (r matches Ok(
                (text, None),
            ) && text@ == texts_of(events))
            &&& pieces.len() > 0 ==> match first_call_error(calls) {
                Some(e) => r matches Err(m) && m@ == tool_call_error_text(e),
                None => r matches Ok((text, Some(built))) && text@ == texts_of(events)
                    && built@.len() == ids.len() && forall|i: int|
                    0 <= i < built@.len() ==> {
                        &&& (#[trigger] built@[i]).call_id@ == ids[i]
                        &&& Some(built@[i].name@) == names_of(pieces, ids[i])
                        &&& if is_blank(pieces_of(pieces, ids[i])) {
                            built@[i].arguments is Object && built@[i].arguments->Object_0@.len()
                                == 0
                        } else {
                            serde_json_parse(pieces_of(pieces, ids[i])) == Ok::<
                                JsonValue,
                                Seq<char>,
                            >(built@[i].arguments)
                        }
                    },
            }
        }),
{
    let pieces = pieces_of_events(events);
    law_sink_collects_the_response(turn_id, events);
    law_names_follow_pieces(pieces);
    law_pieces_aggregate_in_provider_order(pieces);
    let calls = push_all(Seq::empty(), pieces).0;
    if pieces.len() > 0 && first_call_error(calls) is None {
        let built = r->Ok_0.1->Some_0@;
        law_finish_builds_calls_in_provider_order(pieces, built);
        assert forall|i: int| 0 <= i < built.len() implies Some((#[trigger] built[i]).name@)
            == names_of(pieces, first_appearances(pieces)[i]) by {
            assert(call_built(built[i], calls[i]));
        }
    }
}

impl RuntimeProviderSink {
    /// A sink for turn `turn_id` that has collected nothing.
    pub fn new(turn_id: TurnId) -> (r: RuntimeProviderSink)
        ensures
            r@.turn_id == turn_id,
            r@.text.len() == 0,
            r@.calls.len() == 0,
    {
        RuntimeProviderSink { turn_id, text: String::new(), tool_calls: ToolCallAccumulator::new() }
    }

    /// Takes one provider event: text is added to the response and forwarded, usage is
    /// forwarded, a finish signal is absorbed, and a tool-call piece is collected; a piece the
    /// collector refuses becomes a protocol error.
    pub fn emit(&mut self, event: ProviderEvent) -> (r: Result<Option<WorkerEvent>, ProviderError>)
        ensures
            final(self)@ == emit_step(old(self)@, event@).0,
            r is Ok <==> emit_step(old(self)@, event@).1,
            final(self)@.turn_id == old(self)@.turn_id,
            match event@ {
                crate::types::ProviderEventView::TextDelta { text } => {
                    &&& final(self)@.text == old(self)@.text + text
                    &&& final(self)@.calls == old(self)@.calls
                    &&& r matches Ok(Some(WorkerEvent::TextDelta { turn_id, text: t }))
                    &&& turn_id == old(self)@.turn_id && t@ == text
                },
                crate::types::ProviderEventView::Usage { usage } => {
                    &&& final(self)@ == old(self)@
                    &&& r matches Ok(Some(WorkerEvent::Usage { turn_id, usage: u }))
                    &&& turn_id == old(self)@.turn_id && u == usage
                },
                crate::types::ProviderEventView::Finished { .. } => final(self)@ == old(self)@
                    && r matches Ok(None),
                crate::types::ProviderEventView::ToolCallDelta { call_id, name, arguments_delta } => {
                    let (calls, outcome) = push_step(
                        old(self)@.calls,
                        call_id,
                        name,
                        arguments_delta,
                    );
                    &&& final(self)@.text == old(self)@.text
                    &&& final(self)@.calls == calls
                    &&& match outcome {
                        Ok(()) => r matches Ok(None),
                        Err(e) => r matches Err(x) && x@ == ProviderErrorView::Protocol(
                            tool_call_error_text(e),
                        ),
                    }
                },
            },
    {
        match event {
            ProviderEvent::TextDelta { text } => {
                self.text.append(text.as_str());
                Ok(Some(WorkerEvent::TextDelta { turn_id: self.turn_id, text }))
            },
            ProviderEvent::Usage { usage } => {
                Ok(Some(WorkerEvent::Usage { turn_id: self.turn_id, usage }))
            },
            ProviderEvent::Finished { .. } => Ok(None),
            ProviderEvent::ToolCallDelta { call_id, name, arguments_delta } => {
                match self.tool_calls.push(call_id.as_str(), name, arguments_delta.as_str()) {
                    Ok(()) => Ok(None),
                    Err(e) => Err(ProviderError::Protocol(e.message())),
                }
            },
        }
    }

    /// Completes the response once the provider finished with `reason`: the text alone when
    /// no tool call was collected (a response that announced tool calls without sending any
    /// fails), otherwise the text and the completed calls, checked only now, since a single
    /// piece is often half of the arguments.
    pub fn into_completion(self, reason: StopReason) -> (r: Result<
        (String, Option<Vec<ToolCall>>),
        String,
    >)
        ensures
            completion_matches(self@, reason, r),
    {
        let RuntimeProviderSink { turn_id, text, tool_calls } = self;
        if tool_calls.is_empty() {
            if reason == StopReason::ToolCalls {
                return Err("Provider 声明了 tool_calls，但没有完整工具调用".to_owned());
            }
            return Ok((text, None));
        }
        match tool_calls.finish() {
            Ok(calls) => Ok((text, Some(calls))),
            Err(e) => Err(e.message()),
        }
    }
}

/// The event a provider worker reports to the actor once the provider call of turn `turn_id`
/// ended with `result`, given what `sink` collected: tool calls, final text, a failure, or
/// the cancellation.
pub fn provider_outcome_event(
    turn_id: TurnId,
    result: Result<ProviderFinish, ProviderError>,
    sink: RuntimeProviderSink,
) -> (r: WorkerEvent)
    ensures
        match result {
            Ok(finish) => {
                let calls = sink@.calls;
                if calls.len() == 0 {
                    if finish.reason == StopReason::ToolCalls {
                        r matches WorkerEvent::Failed { turn_id: t, reason } && t == turn_id
                            && reason@ == missing_tool_calls_text()
                    } else {
                        r matches WorkerEvent::FinalText { turn_id: t, text } && t == turn_id
                            && text@ == sink@.text
                    }
                } else {
                    match first_call_error(calls) {
                        Some(e) => r matches WorkerEvent::Failed { turn_id: t, reason } && t
                            == turn_id && reason@ == tool_call_error_text(e),
                        None => r matches WorkerEvent::ToolCalls { turn_id: t, text, calls: cs }
                            && t == turn_id && text@ == sink@.text && cs@.len() == calls.len()
                            && forall|i: int|
                            0 <= i < cs@.len() ==> call_built(#[trigger] cs@[i], calls[i]),
                    }
                }
            },
            Err(e) => match e@ {
                ProviderErrorView::Cancelled => r matches WorkerEvent::Cancelled { turn_id: t }
                    && t == turn_id,
                other => r matches WorkerEvent::Failed { turn_id: t, reason } && t == turn_id
                    && reason@ == provider_error_text(other),
            },
        },
{
    match result {
        Ok(finish) => match sink.into_completion(finish.reason) {
            Ok((text, Some(calls))) => WorkerEvent::ToolCalls { turn_id, text, calls },
            Ok((text, None)) => WorkerEvent::FinalText { turn_id, text },
            Err(reason) => WorkerEvent::Failed { turn_id, reason },
        },
        Err(ProviderError::Cancelled) => WorkerEvent::Cancelled { turn_id },
        Err(e) => WorkerEvent::Failed { turn_id, reason: e.message() },
    }
}

} // verus!
