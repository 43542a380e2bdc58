//! From OpenAI-compatible SSE JSON to provider-neutral events.

use std::collections::HashMap;

use vstd::prelude::*;

use crate::error::{ProviderError, ProviderErrorView};
use crate::json::{
    array_or_empty, get_opt, get_spec, parse_json, serde_json_parse, str_equal, str_opt, u64_opt,
    JsonValue,
};
use crate::sse::{
    law_push_chunking, consume_line_state, push_state, events_view, failure_error, finish_result, initial_decoder, push_result, SseDecoder,
    SseDecoderView, SseEvent, SseEventView, SseFrame,
};
use crate::text::{decimal, lemma_decimal_injective, opt_string_view, push_decimal};
use crate::types::{provider_events_view, ProviderEvent, ProviderEventView, StopReason, TokenUsage};

verus! {

broadcast use vstd::std_specs::hash::group_hash_axioms;

/// The stop reason an OpenAI `finish_reason` text names; unknown texts give `Unknown`.
pub open spec fn stop_reason_of(s: Seq<char>) -> StopReason {
    if s == "stop"@ {
        StopReason::Stop
    } else if s == "length"@ {
        StopReason::Length
    } else if s == "tool_calls"@ {
        StopReason::ToolCalls
    } else if s == "content_filter"@ {
        StopReason::ContentFilter
    } else {
        StopReason::Unknown
    }
}

/// The stop reason of an OpenAI `finish_reason` text.
pub fn stop_reason(value: &str) -> (r: StopReason)
    ensures
        r == stop_reason_of(value@),
{
    if str_equal(value, "stop") {
        StopReason::Stop
    } else if str_equal(value, "length") {
        StopReason::Length
    } else if str_equal(value, "tool_calls") {
        StopReason::ToolCalls
    } else if str_equal(value, "content_filter") {
        StopReason::ContentFilter
    } else {
        StopReason::Unknown
    }
}

/// The map from tool-call index to call id, texts taken as character sequences.
pub open spec fn ids_view(m: Map<u64, String>) -> Map<u64, Seq<char>> {
    m.map_values(|s: String| s@)
}

/// A non-empty `id` member of a tool call delta.
pub open spec fn explicit_id(tc: JsonValue) -> Option<Seq<char>> {
    let id = str_opt(get_spec(tc, "id"@));
    if id is Some && id->0.len() > 0 {
        id
    } else {
        None
    }
}

/// The `index` member of a tool call delta, or the index of its choice.
pub open spec fn call_index_of(tc: JsonValue, choice_index: u64) -> u64 {
    match u64_opt(get_spec(tc, "index"@)) {
        Some(n) => n,
        None => choice_index,
    }
}

/// The call id of a delta: its own id, else the id its index already has in the stream,
/// else `index-N`.
pub open spec fn call_id_of(tc: JsonValue, choice_index: u64, ids: Map<u64, Seq<char>>) -> Seq<char> {
    let ci = call_index_of(tc, choice_index);
    match explicit_id(tc) {
        Some(id) => id,
        None => if ids.contains_key(ci) {
            ids[ci]
        } else {
            "index-"@ + decimal(ci as nat)
        },
    }
}

/// The event of one tool call delta, and the id map after it.
pub open spec fn tool_call_event(tc: JsonValue, choice_index: u64, ids: Map<u64, Seq<char>>) -> (
    ProviderEventView,
    Map<u64, Seq<char>>,
) {
    let ci = call_index_of(tc, choice_index);
    let id = call_id_of(tc, choice_index, ids);
    let function = get_spec(tc, "function"@);
    let args = str_opt(get_opt(function, "arguments"@));
    (
        ProviderEventView::ToolCallDelta {
            call_id: id,
            name: str_opt(get_opt(function, "name"@)),
            arguments_delta: if args is Some {
                args->0
            } else {
                Seq::empty()
            },
        },
        ids.insert(ci, id),
    )
}

/// The events of the tool call deltas of one choice, in order.
pub open spec fn tool_calls_events(tcs: Seq<JsonValue>, choice_index: u64, ids: Map<u64, Seq<char>>) -> (
    Seq<ProviderEventView>,
    Map<u64, Seq<char>>,
)
    decreases tcs.len(),
{
    if tcs.len() == 0 {
        (Seq::empty(), ids)
    } else {
        let (e, m) = tool_calls_events(tcs.drop_last(), choice_index, ids);
        let (ev, m2) = tool_call_event(tcs.last(), choice_index, m);
        (e.push(ev), m2)
    }
}

/// The events of one choice: its text delta, its tool call deltas, its finish.
pub open spec fn choice_events(choice: JsonValue, choice_index: u64, ids: Map<u64, Seq<char>>) -> (
    Seq<ProviderEventView>,
    Map<u64, Seq<char>>,
) {
    let delta = get_spec(choice, "delta"@);
    let content = str_opt(get_opt(delta, "content"@));
    let text = if content is Some && content->0.len() > 0 {
        seq![ProviderEventView::TextDelta { text: content->0 }]
    } else {
        Seq::empty()
    };
    let (calls, m) = tool_calls_events(
        array_or_empty(get_opt(delta, "tool_calls"@)),
        choice_index,
        ids,
    );
    let fin = str_opt(get_spec(choice, "finish_reason"@));
    let finished = if fin is Some {
        seq![ProviderEventView::Finished { reason: stop_reason_of(fin->0) }]
    } else {
        Seq::empty()
    };
    (text + calls + finished, m)
}

/// The events of all choices of a frame, in order.
pub open spec fn choices_events(choices: Seq<JsonValue>, ids: Map<u64, Seq<char>>) -> (
    Seq<ProviderEventView>,
    Map<u64, Seq<char>>,
)
    decreases choices.len(),
{
    if choices.len() == 0 {
        (Seq::empty(), ids)
    } else {
        let (e, m) = choices_events(choices.drop_last(), ids);
        let (e2, m2) = choice_events(choices.last(), (choices.len() - 1) as u64, m);
        (e + e2, m2)
    }
}

/// The error for a usage object without the numeric member `name`.
pub open spec fn usage_field_error(name: Seq<char>) -> ProviderErrorView {
    ProviderErrorView::Protocol("usage 缺少有效字段："@ + name)
}

/// The token counts of a usage object.
pub open spec fn usage_result(u: JsonValue) -> Result<TokenUsage, ProviderErrorView> {
    match u64_opt(get_spec(u, "prompt_tokens"@)) {
        None => Err(usage_field_error("prompt_tokens"@)),
        Some(p) => match u64_opt(get_spec(u, "completion_tokens"@)) {
            None => Err(usage_field_error("completion_tokens"@)),
            Some(c) => match u64_opt(get_spec(u, "total_tokens"@)) {
                None => Err(usage_field_error("total_tokens"@)),
                Some(t) => Ok(TokenUsage { prompt_tokens: p, completion_tokens: c, total_tokens: t }),
            },
        },
    }
}

/// The events of a parsed frame document and the id map after it.
pub open spec fn frame_value_result(value: JsonValue, ids: Map<u64, Seq<char>>) -> Result<
    (Seq<ProviderEventView>, Map<u64, Seq<char>>),
    ProviderErrorView,
> {
    let (evs, m) = choices_events(array_or_empty(get_spec(value, "choices"@)), ids);
    match get_spec(value, "usage"@) {
        Some(u) => if u is Null {
            Ok((evs, m))
        } else {
            match usage_result(u) {
                Ok(t) => Ok((evs.push(ProviderEventView::Usage { usage: t }), m)),
                Err(e) => Err(e),
            }
        },
        None => Ok((evs, m)),
    }
}

/// The events of an SSE data text and the id map after it.
pub open spec fn frame_result(data: Seq<char>, ids: Map<u64, Seq<char>>) -> Result<
    (Seq<ProviderEventView>, Map<u64, Seq<char>>),
    ProviderErrorView,
> {
    match serde_json_parse(data) {
        Err(msg) => Err(ProviderErrorView::Protocol("OpenAI JSON 解析失败："@ + msg)),
        Ok(v) => frame_value_result(v, ids),
    }
}

/// The event of one streamed tool-call item of choice `choice_index`.
fn tool_call_delta(tc: &JsonValue, choice_index: u64, ids: &mut HashMap<u64, String>) -> (r:
    ProviderEvent)
    ensures
        (r@, ids_view(final(ids)@)) == tool_call_event(*tc, choice_index, ids_view(old(ids)@)),
{
    let ghost before = ids_view(ids@);
    let call_index = match tc.get("index") {
        Some(v) => match v.as_u64() {
            Some(n) => n,
            None => choice_index,
        },
        None => choice_index,
    };
    let explicit = match tc.get("id") {
        Some(v) => match v.as_str() {
            Some(s) => if !s.is_empty() {
                Some(s.to_owned())
            } else {
                None
            },
            None => None,
        },
        None => None,
    };
    let ghost explicit_view = opt_string_view(explicit);
    let call_id = match explicit {
        Some(id) => id,
        None => match ids.get(&call_index) {
            Some(existing) => existing.clone(),
            None => {
                let mut s = "index-".to_owned();
                push_decimal(&mut s, call_index);
                s
            },
        },
    };
    assert(call_index == call_index_of(*tc, choice_index));
    assert(opt_string_view(explicit) == explicit_id(*tc));
    assert(call_id@ == call_id_of(*tc, choice_index, before));
    ids.insert(call_index, call_id.clone());
    assert(ids_view(ids@) =~= before.insert(call_index, call_id@));
    let function = tc.get("function");
    let name = match function {
        Some(f) => match f.get("name") {
            Some(v) => match v.as_str() {
                Some(s) => Some(s.to_owned()),
                None => None,
            },
            None => None,
        },
        None => None,
    };
    let arguments_delta = match function {
        Some(f) => match f.get("arguments") {
            Some(v) => match v.as_str() {
                Some(s) => s.to_owned(),
                None => String::new(),
            },
            None => String::new(),
        },
        None => String::new(),
    };
    ProviderEvent::ToolCallDelta { call_id, name, arguments_delta }
}

/// The events of one choice of a frame.
fn choice_deltas(choice: &JsonValue, choice_index: u64, ids: &mut HashMap<u64, String>) -> (r: Vec<
    ProviderEvent,
>)
    ensures
        (provider_events_view(r@), ids_view(final(ids)@)) == choice_events(
            *choice,
            choice_index,
            ids_view(old(ids)@),
        ),
{
    let ghost m0 = ids_view(ids@);
    let mut events: Vec<ProviderEvent> = Vec::new();
    let delta = choice.get("delta");
    let content = match delta {
        Some(d) => match d.get("content") {
            Some(v) => v.as_str(),
            None => None,
        },
        None => None,
    };
    match content {
        Some(text) => if !text.is_empty() {
            events.push(ProviderEvent::TextDelta { text: text.to_owned() });
        },
        None => {},
    }
    let ghost text_part = provider_events_view(events@);
    let ghost tcs = array_or_empty(get_opt(get_spec(*choice, "delta"@), "tool_calls"@));
    let empty: Vec<JsonValue> = Vec::new();
    let tool_calls = match delta {
        Some(d) => match d.get("tool_calls") {
            Some(v) => match v.as_array() {
                Some(items) => items,
                None => &empty,
            },
            None => &empty,
        },
        None => &empty,
    };
    assert(tool_calls@ == tcs);
    let mut k: usize = 0;
    assert(tcs.take(0) =~= Seq::<JsonValue>::empty());
    while k < tool_calls.len()
        invariant
            tool_calls@ == tcs,
            k <= tcs.len(),
            provider_events_view(events@) == text_part + tool_calls_events(tcs.take(k as int), choice_index, m0).0,
            ids_view(ids@) == tool_calls_events(tcs.take(k as int), choice_index, m0).1,
        decreases tcs.len() - k,
    {
        let ghost prev = provider_events_view(events@);
        let ev = tool_call_delta(&tool_calls[k], choice_index, ids);
        events.push(ev);
        proof {
            assert(tcs.take(k + 1).drop_last() =~= tcs.take(k as int));
            assert(tcs.take(k + 1).last() == tcs[k as int]);
            assert(provider_events_view(events@) =~= prev.push(ev@));
            let inner = tool_calls_events(tcs.take(k as int), choice_index, m0).0;
            assert(text_part + inner.push(ev@) =~= (text_part + inner).push(ev@));
        }
        k = k + 1;
    }
    assert(tcs.take(tcs.len() as int) =~= tcs);
    let ghost calls_part = provider_events_view(events@);
    match choice.get("finish_reason") {
        Some(v) => match v.as_str() {
            Some(reason) => {
                events.push(ProviderEvent::Finished { reason: stop_reason(reason) });
                assert(provider_events_view(events@) =~= calls_part + seq![
                    ProviderEventView::Finished { reason: stop_reason_of(reason@) },
                ]);
            },
            None => {
                assert(calls_part + Seq::<ProviderEventView>::empty() =~= calls_part);
            },
        },
        None => {
            assert(calls_part + Seq::<ProviderEventView>::empty() =~= calls_part);
        },
    }
    proof {
        let delta_v = get_spec(*choice, "delta"@);
        let c = str_opt(get_opt(delta_v, "content"@));
        if !(c is Some && c->0.len() > 0) {
            assert(text_part =~= Seq::<ProviderEventView>::empty());
            let calls = tool_calls_events(tcs, choice_index, m0).0;
            assert(Seq::<ProviderEventView>::empty() + calls =~= calls);
        }
    }
    events
}

/// The token count `name` of a usage object.
fn usage_number(value: &JsonValue, name: &str) -> (r: Result<u64, ProviderError>)
    ensures
        match u64_opt(get_spec(*value, name@)) {
            Some(n) => r == Ok::<u64, ProviderError>(n),
            None => r matches Err(e) && e@ == usage_field_error(name@),
        },
{
    match value.get(name) {
        Some(v) => match v.as_u64() {
            Some(n) => Ok(n),
            None => {
                let mut s = "usage 缺少有效字段：".to_owned();
                s.append(name);
                Err(ProviderError::Protocol(s))
            },
        },
        None => {
            let mut s = "usage 缺少有效字段：".to_owned();
            s.append(name);
            Err(ProviderError::Protocol(s))
        },
    }
}

/// Reads the three token counts of a usage object.
fn parse_usage(value: &JsonValue) -> (r: Result<TokenUsage, ProviderError>)
    ensures
        match usage_result(*value) {
            Ok(t) => r == Ok::<TokenUsage, ProviderError>(t),
            Err(e) => r matches Err(x) && x@ == e,
        },
{
    let prompt_tokens = usage_number(value, "prompt_tokens")?;
    let completion_tokens = usage_number(value, "completion_tokens")?;
    let total_tokens = usage_number(value, "total_tokens")?;
    Ok(TokenUsage { prompt_tokens, completion_tokens, total_tokens })
}

/// Parses one frame, using and updating the stream's map from tool-call index to call id.
fn parse_openai_frame_with_ids(frame: &SseFrame, ids: &mut HashMap<u64, String>) -> (r: Result<
    Vec<ProviderEvent>,
    ProviderError,
>)
    ensures
        match frame_result(frame.data@, ids_view(old(ids)@)) {
            Err(e) => r matches Err(x) && x@ == e,
            Ok((evs, m)) => r matches Ok(v) && provider_events_view(v@) == evs && ids_view(
                final(ids)@,
            ) == m,
        },
{
    let value = match parse_json(frame.data.as_str()) {
        Ok(v) => v,
        Err(error) => {
            let mut s = "OpenAI JSON 解析失败：".to_owned();
            s.append(error.as_str());
            return Err(ProviderError::Protocol(s));
        },
    };
    frame_value_events(&value, ids)
}

/// The provider events of one parsed frame document: the deltas of its choices in order, then
/// its usage when present and not null; the map from tool-call index to call id is used and
/// updated.
pub fn frame_value_events(value: &JsonValue, ids: &mut HashMap<u64, String>) -> (r: Result<
    Vec<ProviderEvent>,
    ProviderError,
>)
    ensures
        match frame_value_result(*value, ids_view(old(ids)@)) {
            Err(e) => r matches Err(x) && x@ == e,
            Ok((evs, m)) => r matches Ok(v) && provider_events_view(v@) == evs && ids_view(
                final(ids)@,
            ) == m,
        },
{
    let ghost m0 = ids_view(ids@);
    let ghost choices = array_or_empty(get_spec(*value, "choices"@));
    let empty: Vec<JsonValue> = Vec::new();
    let items = match value.get("choices") {
        Some(v) => match v.as_array() {
            Some(items) => items,
            None => &empty,
        },
        None => &empty,
    };
    assert(items@ == choices);
    let mut events: Vec<ProviderEvent> = Vec::new();
    let mut i: usize = 0;
    assert(choices.take(0) =~= Seq::<JsonValue>::empty());
    assert(provider_events_view(events@) =~= Seq::<ProviderEventView>::empty());
    while i < items.len()
        invariant
            items@ == choices,
            i <= choices.len(),
            provider_events_view(events@) == choices_events(choices.take(i as int), m0).0,
            ids_view(ids@) == choices_events(choices.take(i as int), m0).1,
        decreases choices.len() - i,
    {
        let ghost prev = provider_events_view(events@);
        let mut more = choice_deltas(&items[i], i as u64, ids);
        let ghost added = provider_events_view(more@);
        events.append(&mut more);
        proof {
            assert(choices.take(i + 1).drop_last() =~= choices.take(i as int));
            assert(choices.take(i + 1).last() == choices[i as int]);
            assert(provider_events_view(events@) =~= prev + added);
        }
        i = i + 1;
    }
    assert(choices.take(choices.len() as int) =~= choices);
    let ghost before_usage = provider_events_view(events@);
    match value.get("usage") {
        Some(u) => {
            if !u.is_null() {
                let usage = parse_usage(u)?;
                events.push(ProviderEvent::Usage { usage });
                assert(provider_events_view(events@) =~= before_usage.push(
                    ProviderEventView::Usage { usage },
                ));
            }
        },
        None => {},
    }
    Ok(events)
}

/// Turns one OpenAI-compatible SSE data frame into provider-neutral events; the frame is read
/// on its own, with no tool-call ids carried over from earlier frames.
pub fn parse_openai_frame(frame: &SseFrame) -> (r: Result<Vec<ProviderEvent>, ProviderError>)
    ensures
        match frame_result(frame.data@, Map::empty()) {
            Err(e) => r matches Err(x) && x@ == e,
            Ok((evs, m)) => r matches Ok(v) && provider_events_view(v@) == evs,
        },
{
    let mut ids: HashMap<u64, String> = HashMap::new();
    assert(ids_view(ids@) =~= Map::<u64, Seq<char>>::empty());
    parse_openai_frame_with_ids(frame, &mut ids)
}

/// Whether some event is a finish.
pub open spec fn has_finished(evs: Seq<ProviderEventView>) -> bool {
    exists|i: int| 0 <= i < evs.len() && (#[trigger] evs[i]) is Finished
}

/// Converts decoded SSE items into provider events, starting from the given finish and done
/// flags and id map; returns the events and the flags and map after the items.
pub open spec fn convert_result(
    finish: bool,
    done: bool,
    ids: Map<u64, Seq<char>>,
    items: Seq<SseEventView>,
) -> Result<(Seq<ProviderEventView>, bool, bool, Map<u64, Seq<char>>), ProviderErrorView>
    decreases items.len(),
{
    if items.len() == 0 {
        Ok((Seq::empty(), finish, done, ids))
    } else {
        match convert_result(finish, done, ids, items.drop_last()) {
            Err(e) => Err(e),
            Ok((out, f, d, m)) => match items.last() {
                SseEventView::Done => Ok((out, f, true, m)),
                SseEventView::Frame(fr) => match frame_result(fr.data, m) {
                    Err(e) => Err(e),
                    Ok((p, m2)) => Ok((out + p, f || has_finished(p), d, m2)),
                },
            },
        }
    }
}

/// Once converting a prefix of the items fails, converting all of them fails the same way.
proof fn lemma_convert_error_prefix(
    f: bool,
    d: bool,
    m: Map<u64, Seq<char>>,
    items: Seq<SseEventView>,
    j: int,
)
    requires
        0 <= j <= items.len(),
        convert_result(f, d, m, items.take(j)) is Err,
    ensures
        convert_result(f, d, m, items) == convert_result(f, d, m, items.take(j)),
    decreases items.len(),
{
    if j == items.len() {
        assert(items.take(j) =~= items);
    } else {
        assert(items.drop_last().take(j) =~= items.take(j));
        lemma_convert_error_prefix(f, d, m, items.drop_last(), j);
    }
}

/// Converting `a + b` converts `a`, then `b` from where `a` left the flags and the id map.
pub proof fn lemma_convert_append(
    f: bool,
    d: bool,
    m: Map<u64, Seq<char>>,
    a: Seq<SseEventView>,
    b: Seq<SseEventView>,
)
    ensures
        convert_result(f, d, m, a + b) == (match convert_result(f, d, m, a) {
            Err(e) => Err(e),
            Ok((o1, f1, d1, m1)) => match convert_result(f1, d1, m1, b) {
                Err(e) => Err(e),
                Ok((o2, f2, d2, m2)) => Ok((o1 + o2, f2, d2, m2)),
            },
        }),
    decreases b.len(),
{
    if b.len() == 0 {
        assert(a + b =~= a);
        match convert_result(f, d, m, a) {
            Err(e) => {},
            Ok((o1, f1, d1, m1)) => {
                assert(o1 + Seq::<ProviderEventView>::empty() =~= o1);
            },
        }
    } else {
        assert((a + b).drop_last() =~= a + b.drop_last());
        assert((a + b).last() == b.last());
        lemma_convert_append(f, d, m, a, b.drop_last());
        match convert_result(f, d, m, a) {
            Err(e) => {},
            Ok((o1, f1, d1, m1)) => {
                match convert_result(f1, d1, m1, b.drop_last()) {
                    Err(e) => {},
                    Ok((o2, f2, d2, m2)) => {
                        match b.last() {
                            SseEventView::Done => {},
                            SseEventView::Frame(fr) => {
                                match frame_result(fr.data, m2) {
                                    Err(e) => {},
                                    Ok((p, m3)) => {
                                        assert(o1 + o2 + p =~= o1 + (o2 + p));
                                    },
                                }
                            },
                        }
                    },
                }
            },
        }
    }
}

/// Pushing `x` and then `y` into a stream parser gives the same provider events, in the same
/// order, and the same parser state as pushing `x + y` at once, whenever both pushes succeed.
pub proof fn law_parser_push_chunking(st: StreamParserView, x: Seq<u8>, y: Seq<u8>)
    requires
        parser_push_result(st, x) is Ok,
        parser_push_result(parser_push_result(st, x)->Ok_0.0, y) is Ok,
    ensures
        parser_push_result(st, x + y) == Ok::<(StreamParserView, Seq<ProviderEventView>), ProviderErrorView>((
            parser_push_result(parser_push_result(st, x)->Ok_0.0, y)->Ok_0.0,
            parser_push_result(st, x)->Ok_0.1 + parser_push_result(parser_push_result(st, x)->Ok_0.0, y)->Ok_0.1,
        )),
{
    let d1 = push_result(st.decoder, x)->Ok_0;
    law_push_chunking(st.decoder, x, y);
    lemma_convert_append(st.saw_finish, st.saw_done, st.ids, d1.1, push_result(d1.0, y)->Ok_0.1);
}

/// The state of a stream parser.
pub struct StreamParserView {
    pub decoder: SseDecoderView,
    pub saw_finish: bool,
    pub saw_done: bool,
    pub ids: Map<u64, Seq<char>>,
}

/// The outcome of pushing `bytes` into a parser in state `st`.
pub open spec fn parser_push_result(st: StreamParserView, bytes: Seq<u8>) -> Result<
    (StreamParserView, Seq<ProviderEventView>),
    ProviderErrorView,
> {
    match push_result(st.decoder, bytes) {
        Err(f) => Err(failure_error(f)),
        Ok((d, items)) => match convert_result(st.saw_finish, st.saw_done, st.ids, items) {
            Err(e) => Err(e),
            Ok((out, f, dn, m)) => Ok(
                (StreamParserView { decoder: d, saw_finish: f, saw_done: dn, ids: m }, out),
            ),
        },
    }
}

/// The outcome of ending the input of a parser in state `st`: the remaining events, or
/// `IncompleteStream` unless both a finish and `[DONE]` were seen.
pub open spec fn parser_finish_result(st: StreamParserView) -> Result<
    (StreamParserView, Seq<ProviderEventView>),
    ProviderErrorView,
> {
    match finish_result(st.decoder) {
        Err(f) => Err(failure_error(f)),
        Ok((d, items)) => match convert_result(st.saw_finish, st.saw_done, st.ids, items) {
            Err(e) => Err(e),
            Ok((out, f, dn, m)) => if !f || !dn {
                Err(ProviderErrorView::IncompleteStream)
            } else {
                Ok((StreamParserView { decoder: d, saw_finish: f, saw_done: dn, ids: m }, out))
            },
        },
    }
}

/// The state of a parser that has seen nothing.
pub open spec fn initial_parser() -> StreamParserView {
    StreamParserView {
        decoder: initial_decoder(),
        saw_finish: false,
        saw_done: false,
        ids: Map::empty(),
    }
}

/// Whether the events hold a finish signal.
fn contains_finished(v: &Vec<ProviderEvent>) -> (r: bool)
    ensures
        r == has_finished(provider_events_view(v@)),
{
    let ghost views = provider_events_view(v@);
    let mut i: usize = 0;
    while i < v.len()
        invariant
            views == provider_events_view(v@),
            i <= v@.len(),
            forall|j: int| 0 <= j < i ==> !(views[j] is Finished),
        decreases v@.len() - i,
    {
        match &v[i] {
            ProviderEvent::Finished { .. } => {
                assert(views[i as int] is Finished);
                return true;
            },
            _ => {},
        }
        i = i + 1;
    }
    false
}

/// Parses OpenAI-compatible SSE incrementally and, at end of input, checks that both a finish
/// and `[DONE]` were seen.
#[derive(Debug)]
pub struct OpenAiStreamParser {
    decoder: SseDecoder,
    saw_finish: bool,
    saw_done: bool,
    /// Compatible services usually send a tool call's id only in its first delta; later pieces
    /// carry the index alone. The stream keeps index to id so that the pieces stay together.
    tool_call_ids: HashMap<u64, String>,
}

impl View for OpenAiStreamParser {
    type V = StreamParserView;

    closed spec fn view(&self) -> StreamParserView {
        StreamParserView {
            decoder: self.decoder@,
            saw_finish: self.saw_finish,
            saw_done: self.saw_done,
            ids: ids_view(self.tool_call_ids@),
        }
    }
}

impl OpenAiStreamParser {
    /// A parser that has received no frame.
    pub fn new() -> (r: OpenAiStreamParser)
        ensures
            r@ == initial_parser(),
    {
        let r = OpenAiStreamParser {
            decoder: SseDecoder::new(),
            saw_finish: false,
            saw_done: false,
            tool_call_ids: HashMap::new(),
        };
        assert(ids_view(r.tool_call_ids@) =~= Map::<u64, Seq<char>>::empty());
        r
    }

    /// Pushes a network chunk and returns the provider events parsed so far.
    pub fn push(&mut self, bytes: &[u8]) -> (r: Result<Vec<ProviderEvent>, ProviderError>)
        ensures
            final(self)@.decoder == push_state(old(self)@.decoder, bytes@),
            push_result(old(self)@.decoder, bytes@) is Err ==> final(self)@.saw_finish == old(
                self,
            )@.saw_finish && final(self)@.saw_done == old(self)@.saw_done && final(self)@.ids
                == old(self)@.ids,
            match parser_push_result(old(self)@, bytes@) {
                Err(e) => r matches Err(x) && x@ == e,
                Ok((st, evs)) => r matches Ok(v) && provider_events_view(v@) == evs && final(self)@
                    == st,
            },
    {
        let items = self.decoder.push(bytes)?;
        self.convert(&items)
    }

    /// Handles end of input; a stream without an explicit finish or without `[DONE]` is
    /// incomplete.
    pub fn finish(&mut self) -> (r: Result<Vec<ProviderEvent>, ProviderError>)
        ensures
            finish_result(old(self)@.decoder) is Err ==> final(self)@ == (StreamParserView {
                decoder: SseDecoderView {
                    buffer: Seq::empty(),
                    pending: consume_line_state(old(self)@.decoder.pending, old(self)@.decoder.buffer),
                },
                ..old(self)@
            }),
            finish_result(old(self)@.decoder) matches Ok((d, items)) ==> {
                &&& final(self)@.decoder == d
                &&& convert_result(
                    old(self)@.saw_finish,
                    old(self)@.saw_done,
                    old(self)@.ids,
                    items,
                ) matches Ok((_, f, dn, m)) ==> final(self)@ == (StreamParserView {
                    decoder: d,
                    saw_finish: f,
                    saw_done: dn,
                    ids: m,
                })
            },
            match parser_finish_result(old(self)@) {
                Err(e) => r matches Err(x) && x@ == e,
                Ok((st, evs)) => r matches Ok(v) && provider_events_view(v@) == evs && final(self)@
                    == st,
            },
    {
        let items = self.decoder.finish()?;
        let converted = self.convert(&items)?;
        if !self.saw_finish || !self.saw_done {
            return Err(ProviderError::IncompleteStream);
        }
        Ok(converted)
    }

    /// Turns decoded SSE items into provider events, noting finish and end markers.
    fn convert(&mut self, items: &Vec<SseEvent>) -> (r: Result<Vec<ProviderEvent>, ProviderError>)
        ensures
            final(self).decoder@ == old(self).decoder@,
            match convert_result(
                old(self).saw_finish,
                old(self).saw_done,
                ids_view(old(self).tool_call_ids@),
                events_view(items@),
            ) {
                Err(e) => r matches Err(x) && x@ == e,
                Ok((out, f, d, m)) => r matches Ok(v) && provider_events_view(v@) == out
                    && final(self).saw_finish == f && final(self).saw_done == d && ids_view(
                    final(self).tool_call_ids@,
                ) == m,
            },
    {
        let ghost all = events_view(items@);
        let ghost f0 = self.saw_finish;
        let ghost d0 = self.saw_done;
        let ghost m0 = ids_view(self.tool_call_ids@);
        let mut output: Vec<ProviderEvent> = Vec::new();
        let mut k: usize = 0;
        assert(all.take(0) =~= Seq::<SseEventView>::empty());
        assert(provider_events_view(output@) =~= Seq::<ProviderEventView>::empty());
        while k < items.len()
            invariant
                all == events_view(items@),
                self.decoder@ == old(self).decoder@,
                f0 == old(self).saw_finish,
                d0 == old(self).saw_done,
                m0 == ids_view(old(self).tool_call_ids@),
                k <= all.len(),
                convert_result(f0, d0, m0, all.take(k as int)) == Ok::<
                    (Seq<ProviderEventView>, bool, bool, Map<u64, Seq<char>>),
                    ProviderErrorView,
                >(
                    (
                        provider_events_view(output@),
                        self.saw_finish,
                        self.saw_done,
                        ids_view(self.tool_call_ids@),
                    ),
                ),
            decreases all.len() - k,
        {
            proof {
                assert(all.take(k + 1).drop_last() =~= all.take(k as int));
                assert(all.take(k + 1).last() == all[k as int]);
            }
            match &items[k] {
                SseEvent::Done => {
                    self.saw_done = true;
                },
                SseEvent::Frame(frame) => {
                    let ghost prev = provider_events_view(output@);
                    let outcome = parse_openai_frame_with_ids(frame, &mut self.tool_call_ids);
                    let mut parsed = match outcome {
                        Ok(p) => p,
                        Err(e) => {
                            proof {
                                lemma_convert_error_prefix(f0, d0, m0, all, k + 1);
                            }
                            return Err(e);
                        },
                    };
                    if contains_finished(&parsed) {
                        self.saw_finish = true;
                    }
                    let ghost added = provider_events_view(parsed@);
                    output.append(&mut parsed);
                    assert(provider_events_view(output@) =~= prev + added);
                },
            }
            k = k + 1;
        }
        assert(all.take(all.len() as int) =~= all);
        Ok(output)
    }
}

/// Whether some decoded SSE item is the `[DONE]` marker.
pub open spec fn has_done(items: Seq<SseEventView>) -> bool {
    exists|i: int| 0 <= i < items.len() && (#[trigger] items[i]) is Done
}

/// A finish among `a + b` is a finish among `a` or among `b`.
proof fn lemma_has_finished_append(a: Seq<ProviderEventView>, b: Seq<ProviderEventView>)
    ensures
        has_finished(a + b) == (has_finished(a) || has_finished(b)),
{
    if has_finished(a) {
        let i = choose|i: int| 0 <= i < a.len() && (#[trigger] a[i]) is Finished;
        assert((a + b)[i] == a[i]);
    }
    if has_finished(b) {
        let i = choose|i: int| 0 <= i < b.len() && (#[trigger] b[i]) is Finished;
        assert((a + b)[a.len() + i] == b[i]);
    }
    if has_finished(a + b) {
        let i = choose|i: int| 0 <= i < (a + b).len() && (#[trigger] (a + b)[i]) is Finished;
        if i < a.len() {
            assert(a[i] == (a + b)[i]);
        } else {
            assert(b[i - a.len()] == (a + b)[i]);
        }
    }
}

/// A `[DONE]` among `a + b` is one among `a` or among `b`.
proof fn lemma_has_done_append(a: Seq<SseEventView>, b: Seq<SseEventView>)
    ensures
        has_done(a + b) == (has_done(a) || has_done(b)),
{
    if has_done(a) {
        let i = choose|i: int| 0 <= i < a.len() && (#[trigger] a[i]) is Done;
        assert((a + b)[i] == a[i]);
    }
    if has_done(b) {
        let i = choose|i: int| 0 <= i < b.len() && (#[trigger] b[i]) is Done;
        assert((a + b)[a.len() + i] == b[i]);
    }
    if has_done(a + b) {
        let i = choose|i: int| 0 <= i < (a + b).len() && (#[trigger] (a + b)[i]) is Done;
        if i < a.len() {
            assert(a[i] == (a + b)[i]);
        } else {
            assert(b[i - a.len()] == (a + b)[i]);
        }
    }
}

/// Converting items raises the finish flag exactly for a finish among the events produced,
/// and the done flag exactly for a `[DONE]` among the items.
proof fn lemma_convert_flags(f: bool, d: bool, m: Map<u64, Seq<char>>, items: Seq<SseEventView>)
    ensures
        convert_result(f, d, m, items) matches Ok((out, f2, d2, _)) ==> f2 == (f || has_finished(
            out,
        )) && d2 == (d || has_done(items)),
    decreases items.len(),
{
    if items.len() > 0 {
        let prev = items.drop_last();
        lemma_convert_flags(f, d, m, prev);
        assert(prev + seq![items.last()] =~= items);
        lemma_has_done_append(prev, seq![items.last()]);
        assert(has_done(seq![items.last()]) == (items.last() is Done)) by {
            if items.last() is Done {
                assert(seq![items.last()][0] is Done);
            }
        }
        match convert_result(f, d, m, prev) {
            Err(_) => {},
            Ok((out, f1, d1, m1)) => {
                match items.last() {
                    SseEventView::Done => {},
                    SseEventView::Frame(fr) => {
                        match frame_result(fr.data, m1) {
                            Err(_) => {},
                            Ok((p, m2)) => {
                                lemma_has_finished_append(out, p);
                            },
                        }
                    },
                }
            },
        }
    }
}

/// A stream read from its start with the bytes `bytes` (pushed at once or, by
/// `law_parser_push_chunking`, in any chunks that succeed) and then ended: ending fails as an
/// incomplete stream exactly when no finish event came out of any frame, pushed or flushed at
/// the end, or no `[DONE]` frame was seen; otherwise it gives the events of the flushed tail.
pub proof fn law_parser_finish_incomplete_iff_finish_or_done_missing(bytes: Seq<u8>)
    requires
        parser_push_result(initial_parser(), bytes) is Ok,
        finish_result(parser_push_result(initial_parser(), bytes)->Ok_0.0.decoder) is Ok,
        ({
            let st = parser_push_result(initial_parser(), bytes)->Ok_0.0;
            convert_result(
                st.saw_finish,
                st.saw_done,
                st.ids,
                finish_result(st.decoder)->Ok_0.1,
            ) is Ok
        }),
    ensures
        ({
            let (st, pushed) = parser_push_result(initial_parser(), bytes)->Ok_0;
            let pushed_items = push_result(initial_decoder(), bytes)->Ok_0.1;
            let tail_items = finish_result(st.decoder)->Ok_0.1;
            let tail = convert_result(st.saw_finish, st.saw_done, st.ids, tail_items)->Ok_0.0;
            let complete = has_finished(pushed + tail) && has_done(pushed_items + tail_items);
            &&& !complete ==> parser_finish_result(st) == Err::<
                (StreamParserView, Seq<ProviderEventView>),
                ProviderErrorView,
            >(ProviderErrorView::IncompleteStream)
            &&& complete ==> (parser_finish_result(st) matches Ok((_, out)) && out == tail)
        }),
{
    let st0 = initial_parser();
    let (st, pushed) = parser_push_result(st0, bytes)->Ok_0;
    let pushed_items = push_result(st0.decoder, bytes)->Ok_0.1;
    let tail_items = finish_result(st.decoder)->Ok_0.1;
    lemma_convert_flags(false, false, Map::empty(), pushed_items);
    assert(!has_finished(Seq::<ProviderEventView>::empty()));
    lemma_convert_flags(st.saw_finish, st.saw_done, st.ids, tail_items);
    let tail = convert_result(st.saw_finish, st.saw_done, st.ids, tail_items)->Ok_0.0;
    lemma_has_finished_append(pushed, tail);
    lemma_has_done_append(pushed_items, tail_items);
}

/// The chunks `chunks` joined in order.
pub open spec fn joined_chunks(chunks: Seq<Seq<u8>>) -> Seq<u8>
    decreases chunks.len(),
{
    if chunks.len() == 0 {
        Seq::empty()
    } else {
        joined_chunks(chunks.drop_last()) + chunks.last()
    }
}

/// The parser after pushing the chunks `chunks` in order onto `st`, and the events of all the
/// pushes, or the error of the first push that fails.
pub open spec fn parser_push_all(st: StreamParserView, chunks: Seq<Seq<u8>>) -> Result<
    (StreamParserView, Seq<ProviderEventView>),
    ProviderErrorView,
>
    decreases chunks.len(),
{
    if chunks.len() == 0 {
        Ok((st, Seq::empty()))
    } else {
        match parser_push_all(st, chunks.drop_last()) {
            Err(e) => Err(e),
            Ok((st1, e1)) => match parser_push_result(st1, chunks.last()) {
                Err(e) => Err(e),
                Ok((st2, e2)) => Ok((st2, e1 + e2)),
            },
        }
    }
}

/// Pushing chunks one by one into a parser with nothing buffered, each push succeeding, is
/// pushing them joined at once.
pub proof fn lemma_parser_push_all_joined(st: StreamParserView, chunks: Seq<Seq<u8>>)
    requires
        st.decoder.buffer.len() == 0,
        parser_push_all(st, chunks) is Ok,
    ensures
        parser_push_result(st, joined_chunks(chunks)) == parser_push_all(st, chunks),
    decreases chunks.len(),
{
    if chunks.len() == 0 {
        assert(st.decoder.buffer + Seq::<u8>::empty() =~= Seq::<u8>::empty());
        assert(push_result(st.decoder, Seq::empty()) == Ok::<
            (SseDecoderView, Seq<SseEventView>),
            crate::sse::SseFailure,
        >((st.decoder, Seq::empty())));
        assert(convert_result(st.saw_finish, st.saw_done, st.ids, Seq::empty()) == Ok::<
            (Seq<ProviderEventView>, bool, bool, Map<u64, Seq<char>>),
            ProviderErrorView,
        >((Seq::empty(), st.saw_finish, st.saw_done, st.ids)));
    } else {
        let prev = chunks.drop_last();
        lemma_parser_push_all_joined(st, prev);
        law_parser_push_chunking(st, joined_chunks(prev), chunks.last());
    }
}

/// A stream read from its start in the chunks `chunks`, every push succeeding, and then ended:
/// ending fails as an incomplete stream exactly when no finish event came out of any frame,
/// pushed or flushed at the end, or no `[DONE]` frame was seen; otherwise it gives the events of
/// the flushed tail.
pub proof fn law_parser_finish_after_pushes(chunks: Seq<Seq<u8>>)
    requires
        parser_push_all(initial_parser(), chunks) is Ok,
        finish_result(parser_push_all(initial_parser(), chunks)->Ok_0.0.decoder) is Ok,
        ({
            let st = parser_push_all(initial_parser(), chunks)->Ok_0.0;
            convert_result(
                st.saw_finish,
                st.saw_done,
                st.ids,
                finish_result(st.decoder)->Ok_0.1,
            ) is Ok
        }),
    ensures
        ({
            let (st, pushed) = parser_push_all(initial_parser(), chunks)->Ok_0;
            let pushed_items = push_result(initial_decoder(), joined_chunks(chunks))->Ok_0.1;
            let tail_items = finish_result(st.decoder)->Ok_0.1;
            let tail = convert_result(st.saw_finish, st.saw_done, st.ids, tail_items)->Ok_0.0;
            let complete = has_finished(pushed + tail) && has_done(pushed_items + tail_items);
            &&& !complete ==> parser_finish_result(st) == Err::<
                (StreamParserView, Seq<ProviderEventView>),
                ProviderErrorView,
            >(ProviderErrorView::IncompleteStream)
            &&& complete ==> (parser_finish_result(st) matches Ok((_, out)) && out == tail)
        }),
{
    lemma_parser_push_all_joined(initial_parser(), chunks);
    law_parser_finish_incomplete_iff_finish_or_done_missing(joined_chunks(chunks));
}

/// The call id of a streamed tool-call piece without an id of its own, read from the piece
/// itself: when its index has no id yet in the stream, it is `index-` followed by the decimal
/// of its `index` member, or of its choice's position when it has no `index`; when its index
/// already has an id, it is that id. The id is then recorded under that index.
pub proof fn law_unnamed_call_takes_its_index(
    tc: JsonValue,
    choice_index: u64,
    ids: Map<u64, Seq<char>>,
)
    requires
        explicit_id(tc) is None,
    ensures
        ({
            let (ev, m) = tool_call_event(tc, choice_index, ids);
            let index = u64_opt(get_spec(tc, "index"@));
            let key = if index is Some {
                index->0
            } else {
                choice_index
            };
            &&& ev is ToolCallDelta
            &&& index is Some && !ids.contains_key(index->0) ==> ev->call_id == "index-"@
                + decimal(index->0 as nat)
            &&& index is None && !ids.contains_key(choice_index) ==> ev->call_id == "index-"@
                + decimal(choice_index as nat)
            &&& ids.contains_key(key) ==> ev->call_id == ids[key]
            &&& m == ids.insert(key, ev->call_id)
        }),
{
}

/// Two streamed tool-call pieces without ids of their own, whose `index` members differ and
/// have no id yet, are given different call ids: they stay separate calls.
pub proof fn law_unnamed_calls_stay_apart(
    a: JsonValue,
    b: JsonValue,
    choice_a: u64,
    choice_b: u64,
    ids_a: Map<u64, Seq<char>>,
    ids_b: Map<u64, Seq<char>>,
)
    requires
        explicit_id(a) is None,
        explicit_id(b) is None,
        u64_opt(get_spec(a, "index"@)) is Some,
        u64_opt(get_spec(b, "index"@)) is Some,
        u64_opt(get_spec(a, "index"@)) != u64_opt(get_spec(b, "index"@)),
        !ids_a.contains_key(u64_opt(get_spec(a, "index"@))->0),
        !ids_b.contains_key(u64_opt(get_spec(b, "index"@))->0),
    ensures
        tool_call_event(a, choice_a, ids_a).0->call_id != tool_call_event(b, choice_b, ids_b).0->call_id,
{
    let ka = u64_opt(get_spec(a, "index"@))->0;
    let kb = u64_opt(get_spec(b, "index"@))->0;
    let x = "index-"@ + decimal(ka as nat);
    let y = "index-"@ + decimal(kb as nat);
    if x == y {
        reveal_strlit("index-");
        assert(x.subrange(6, x.len() as int) =~= decimal(ka as nat));
        assert(y.subrange(6, y.len() as int) =~= decimal(kb as nat));
        lemma_decimal_injective(ka as nat, kb as nat);
    }
}

/// Within one choice, two streamed pieces without ids whose `index` members differ, arriving
/// while neither index has an id, become two calls with different ids, in order.
pub proof fn law_parallel_unnamed_calls_are_separate(
    a: JsonValue,
    b: JsonValue,
    choice_index: u64,
    ids: Map<u64, Seq<char>>,
)
    requires
        explicit_id(a) is None,
        explicit_id(b) is None,
        u64_opt(get_spec(a, "index"@)) is Some,
        u64_opt(get_spec(b, "index"@)) is Some,
        u64_opt(get_spec(a, "index"@)) != u64_opt(get_spec(b, "index"@)),
        !ids.contains_key(u64_opt(get_spec(a, "index"@))->0),
        !ids.contains_key(u64_opt(get_spec(b, "index"@))->0),
    ensures
        ({
            let evs = tool_calls_events(seq![a, b], choice_index, ids).0;
            &&& evs.len() == 2
            &&& evs[0]->call_id == "index-"@ + decimal(u64_opt(get_spec(a, "index"@))->0 as nat)
            &&& evs[1]->call_id == "index-"@ + decimal(u64_opt(get_spec(b, "index"@))->0 as nat)
            &&& evs[0]->call_id != evs[1]->call_id
        }),
{
    let s = seq![a, b];
    assert(s.drop_last() =~= seq![a]);
    assert(seq![a].drop_last() =~= Seq::<JsonValue>::empty());
    let (e1, m1) = tool_call_event(a, choice_index, ids);
    let (e2, m2) = tool_call_event(b, choice_index, m1);
    assert(tool_calls_events(Seq::<JsonValue>::empty(), choice_index, ids) == (
        Seq::<ProviderEventView>::empty(),
        ids,
    ));
    assert(seq![a].last() == a);
    assert(tool_calls_events(seq![a], choice_index, ids).0 =~= seq![e1]);
    assert(tool_calls_events(seq![a], choice_index, ids).1 == m1);
    assert(s.last() == b);
    assert(tool_calls_events(s, choice_index, ids).0 =~= seq![e1, e2]);
    law_unnamed_call_takes_its_index(a, choice_index, ids);
    law_unnamed_call_takes_its_index(b, choice_index, m1);
    law_unnamed_calls_stay_apart(a, b, choice_index, choice_index, ids, m1);
}

/// A streamed tool-call piece with a non-empty `id` of its own has that call id, whatever its
/// index already had, and the id is recorded under its index.
pub proof fn law_named_call_keeps_its_id(tc: JsonValue, choice_index: u64, ids: Map<u64, Seq<char>>)
    requires
        str_opt(get_spec(tc, "id"@)) is Some,
        str_opt(get_spec(tc, "id"@))->0.len() > 0,
    ensures
        ({
            let (ev, m) = tool_call_event(tc, choice_index, ids);
            let id = str_opt(get_spec(tc, "id"@))->0;
            let index = u64_opt(get_spec(tc, "index"@));
            let key = if index is Some {
                index->0
            } else {
                choice_index
            };
            &&& ev is ToolCallDelta
            &&& ev->call_id == id
            &&& m == ids.insert(key, id)
        }),
{
}

} // verus!
