//! Aggregation and checking of streamed tool-call pieces.

use vstd::prelude::*;

use crate::json::{is_object, parse_json, serde_json_parse, str_equal, JsonValue};
use crate::text::{is_blank, opt_string_view, str_is_blank};

verus! {

/// A complete tool call that can run once a provider round has finished.
///
/// `call_id` keeps the provider's own text (such as `call_abc`); it is never assumed to be a
/// local UUID.
#[derive(Debug, PartialEq)]
pub struct ToolCall {
    pub call_id: String,
    pub name: String,
    pub arguments: JsonValue,
}

/// Why a tool call cannot be aggregated.
#[derive(Debug, Clone, PartialEq, Eq)]
pub enum ToolCallError {
    EmptyId,
    MissingName,
    ConflictingName,
    InvalidArguments(String),
    ArgumentsTooLarge,
}

/// A `ToolCallError` with its text taken as a character sequence.
pub enum ToolCallErrorView {
    EmptyId,
    MissingName,
    ConflictingName,
    InvalidArguments(Seq<char>),
    ArgumentsTooLarge,
}

impl View for ToolCallError {
    type V = ToolCallErrorView;

    open spec fn view(&self) -> ToolCallErrorView {
        match self {
            ToolCallError::EmptyId => ToolCallErrorView::EmptyId,
            ToolCallError::MissingName => ToolCallErrorView::MissingName,
            ToolCallError::ConflictingName => ToolCallErrorView::ConflictingName,
            ToolCallError::InvalidArguments(m) => ToolCallErrorView::InvalidArguments(m@),
            ToolCallError::ArgumentsTooLarge => ToolCallErrorView::ArgumentsTooLarge,
        }
    }
}

/// The human-readable text of a tool call error.
pub open spec fn tool_call_error_text(e: ToolCallErrorView) -> Seq<char> {
    match e {
        ToolCallErrorView::EmptyId => "tool call id 不能为空"@,
        ToolCallErrorView::MissingName => "tool call name 不能为空"@,
        ToolCallErrorView::ConflictingName => "同一个 tool call 的 name 不一致"@,
        ToolCallErrorView::InvalidArguments(m) => "tool call arguments 不是有效 JSON: "@ + m,
        ToolCallErrorView::ArgumentsTooLarge => "tool call 增量过大"@,
    }
}

impl ToolCallError {
    /// The human-readable text of this error.
    pub fn message(&self) -> (r: String)
        ensures
            r@ == tool_call_error_text(self@),
    {
        match self {
            ToolCallError::EmptyId => "tool call id 不能为空".to_owned(),
            ToolCallError::MissingName => "tool call name 不能为空".to_owned(),
            ToolCallError::ConflictingName => "同一个 tool call 的 name 不一致".to_owned(),
            ToolCallError::InvalidArguments(m) => {
                let mut s = "tool call arguments 不是有效 JSON: ".to_owned();
                s.append(m.as_str());
                s
            },
            ToolCallError::ArgumentsTooLarge => "tool call 增量过大".to_owned(),
        }
    }
}

/// The largest number of argument bytes one call may collect.
pub const MAX_ARGUMENT_BYTES: usize = 256 * 1024;

/// A call whose pieces are still arriving.
pub struct PartialCall {
    pub call_id: Seq<char>,
    pub name: Option<Seq<char>>,
    pub arguments: Seq<char>,
}

/// The UTF-8 length of a text.
pub open spec fn byte_len(s: Seq<char>) -> nat {
    vstd::utf8::encode_utf8(s).len()
}

/// The position of the first call named `id` among the partial calls.
pub open spec fn position_of(calls: Seq<PartialCall>, id: Seq<char>) -> Option<int>
    decreases calls.len(),
{
    if calls.len() == 0 {
        None
    } else {
        match position_of(calls.drop_last(), id) {
            Some(i) => Some(i),
            None => if calls.last().call_id == id {
                Some(calls.len() - 1)
            } else {
                None
            },
        }
    }
}

/// `position_of` finds the first call with the id, and nothing when there is none.
pub proof fn lemma_position_of(calls: Seq<PartialCall>, id: Seq<char>)
    ensures
        match position_of(calls, id) {
            Some(i) => 0 <= i < calls.len() && calls[i].call_id == id && forall|j: int|
                0 <= j < i ==> (#[trigger] calls[j]).call_id != id,
            None => forall|j: int| 0 <= j < calls.len() ==> (#[trigger] calls[j]).call_id != id,
        },
    decreases calls.len(),
{
    if calls.len() > 0 {
        lemma_position_of(calls.drop_last(), id);
        assert forall|j: int| 0 <= j < calls.len() - 1 implies calls.drop_last()[j] == calls[j] by {}
    }
}

/// No call id occurs twice.
pub open spec fn ids_unique(calls: Seq<PartialCall>) -> bool {
    forall|i: int, j: int|
        0 <= i < calls.len() && 0 <= j < calls.len() && i != j ==> (#[trigger] calls[i]).call_id
            != (#[trigger] calls[j]).call_id
}

/// The calls with `id` added at the end when it is new.
pub open spec fn with_call(calls: Seq<PartialCall>, id: Seq<char>) -> Seq<PartialCall> {
    match position_of(calls, id) {
        Some(_) => calls,
        None => calls.push(PartialCall { call_id: id, name: None, arguments: Seq::empty() }),
    }
}

/// The state after one delta, and whether it was accepted. A blank id leaves the state as it
/// was; every other delta first registers its call, so that a later error still leaves the
/// call (and a name it set) in place, as the provider order requires.
pub open spec fn push_step(
    calls: Seq<PartialCall>,
    id: Seq<char>,
    name: Option<Seq<char>>,
    delta: Seq<char>,
) -> (Seq<PartialCall>, Result<(), ToolCallErrorView>) {
    if is_blank(id) {
        (calls, Err(ToolCallErrorView::EmptyId))
    } else {
        let c1 = with_call(calls, id);
        let idx = position_of(c1, id)->0;
        let entry = c1[idx];
        match name {
            Some(n) => if is_blank(n) {
                (c1, Err(ToolCallErrorView::MissingName))
            } else if entry.name is Some && entry.name->0 != n {
                (c1, Err(ToolCallErrorView::ConflictingName))
            } else {
                let named = PartialCall { name: Some(n), ..entry };
                if byte_len(entry.arguments) + byte_len(delta) > MAX_ARGUMENT_BYTES {
                    (c1.update(idx, named), Err(ToolCallErrorView::ArgumentsTooLarge))
                } else {
                    (
                        c1.update(idx, PartialCall { arguments: entry.arguments + delta, ..named }),
                        Ok(()),
                    )
                }
            },
            None => if byte_len(entry.arguments) + byte_len(delta) > MAX_ARGUMENT_BYTES {
                (c1, Err(ToolCallErrorView::ArgumentsTooLarge))
            } else {
                (c1.update(idx, PartialCall { arguments: entry.arguments + delta, ..entry }), Ok(()))
            },
        }
    }
}

/// The text of the error for arguments that are JSON but not an object.
pub open spec fn not_object_text() -> Seq<char> {
    "工具参数必须是 JSON object"@
}

/// Why a collected call cannot be completed, if it cannot.
pub open spec fn call_error(p: PartialCall) -> Option<ToolCallErrorView> {
    if p.name is None {
        Some(ToolCallErrorView::MissingName)
    } else if is_blank(p.arguments) {
        None
    } else {
        match serde_json_parse(p.arguments) {
            Err(msg) => Some(ToolCallErrorView::InvalidArguments(msg)),
            Ok(v) => if is_object(v) {
                None
            } else {
                Some(ToolCallErrorView::InvalidArguments(not_object_text()))
            },
        }
    }
}

/// The first error among the calls, in their order.
pub open spec fn first_call_error(calls: Seq<PartialCall>) -> Option<ToolCallErrorView>
    decreases calls.len(),
{
    if calls.len() == 0 {
        None
    } else {
        match first_call_error(calls.drop_last()) {
            Some(e) => Some(e),
            None => call_error(calls.last()),
        }
    }
}

/// Whether `tc` is the complete call built from the collected call `p`: blank arguments
/// become an empty object, other arguments are parsed as JSON.
pub open spec fn call_built(tc: ToolCall, p: PartialCall) -> bool {
    &&& tc.call_id@ == p.call_id
    &&& p.name == Some(tc.name@)
    &&& if is_blank(p.arguments) {
        tc.arguments is Object && tc.arguments->Object_0@.len() == 0
    } else {
        serde_json_parse(p.arguments) == Ok::<JsonValue, Seq<char>>(tc.arguments)
    }
}

/// The arguments of a call from what parsing its argument text gave: a JSON object is the
/// arguments; anything else, or a text that is no JSON, is invalid.
pub fn arguments_from_parsed(parsed: Result<JsonValue, String>) -> (r: Result<
    JsonValue,
    ToolCallError,
>)
    ensures
        match parsed {
            Ok(v) => if is_object(v) {
                r == Ok::<JsonValue, ToolCallError>(v)
            } else {
                r matches Err(e) && e@ == ToolCallErrorView::InvalidArguments(not_object_text())
            },
            Err(msg) => r matches Err(e) && e@ == ToolCallErrorView::InvalidArguments(msg@),
        },
{
    match parsed {
        Ok(v) => {
            if v.is_object() {
                Ok(v)
            } else {
                proof { reveal_strlit("工具参数必须是 JSON object"); }
                Err(ToolCallError::InvalidArguments("工具参数必须是 JSON object".to_owned()))
            }
        },
        Err(msg) => Err(ToolCallError::InvalidArguments(msg)),
    }
}

/// One call under collection.
#[derive(Debug)]
struct Partial {
    call_id: String,
    name: Option<String>,
    arguments: String,
}

impl View for Partial {
    type V = PartialCall;

    closed spec fn view(&self) -> PartialCall {
        PartialCall {
            call_id: self.call_id@,
            name: match self.name {
                Some(n) => Some(n@),
                None => None,
            },
            arguments: self.arguments@,
        }
    }
}

/// Aggregates `ToolCallDelta`s in the order the provider sends them.
#[derive(Debug, Default)]
pub struct ToolCallAccumulator {
    calls: Vec<Partial>,
}

impl View for ToolCallAccumulator {
    type V = Seq<PartialCall>;

    closed spec fn view(&self) -> Seq<PartialCall> {
        self.calls@.map_values(|p: Partial| p@)
    }
}

impl ToolCallAccumulator {
    /// An accumulator that holds no call.
    pub fn new() -> (r: ToolCallAccumulator)
        ensures
            r@ == Seq::<PartialCall>::empty(),
            r.well_formed(),
    {
        let r = ToolCallAccumulator { calls: Vec::new() };
        assert(r@ =~= Seq::<PartialCall>::empty());
        r
    }

    /// Whether no call has been registered.
    pub fn is_empty(&self) -> (r: bool)
        ensures
            r == (self@.len() == 0),
    {
        self.calls.len() == 0
    }

    /// Every call id occurs once.
    pub closed spec fn well_formed(&self) -> bool {
        ids_unique(self@)
    }

    /// The position of the call `id`.
    fn find(&self, id: &str) -> (r: Option<usize>)
        ensures
            match r {
                Some(i) => position_of(self@, id@) == Some(i as int) && i < self@.len(),
                None => position_of(self@, id@) is None,
            },
    {
        proof { lemma_position_of(self@, id@); }
        let ghost v = self@;
        let mut i: usize = 0;
        while i < self.calls.len()
            invariant
                v == self@,
                i <= v.len(),
                forall|j: int| 0 <= j < i ==> (#[trigger] v[j]).call_id != id@,
            decreases v.len() - i,
        {
            if str_equal(self.calls[i].call_id.as_str(), id) {
                assert(v[i as int].call_id == id@);
                proof { lemma_position_of(v, id@); }
                return Some(i);
            }
            i = i + 1;
        }
        None
    }

    /// Adds one delta of the call `call_id`: a name, if given, must agree with the name the
    /// call already has, and the call's arguments may not exceed `MAX_ARGUMENT_BYTES`.
    pub fn push(&mut self, call_id: &str, name: Option<String>, arguments_delta: &str) -> (r:
        Result<(), ToolCallError>)
        ensures
            old(self).well_formed() ==> final(self).well_formed(),
            ({
                let (calls, outcome) = push_step(
                    old(self)@,
                    call_id@,
                    opt_string_view(name),
                    arguments_delta@,
                );
                &&& final(self)@ == calls
                &&& match outcome {
                    Ok(()) => r is Ok,
                    Err(e) => r matches Err(x) && x@ == e,
                }
            }),
    {
        let ghost before = self@;
        if str_is_blank(call_id) {
            return Err(ToolCallError::EmptyId);
        }
        proof { lemma_position_of(before, call_id@); }
        let idx = match self.find(call_id) {
            Some(i) => i,
            None => {
                let i = self.calls.len();
                self.calls.push(
                    Partial { call_id: call_id.to_owned(), name: None, arguments: String::new() },
                );
                proof {
                    let c1 = before.push(
                        PartialCall { call_id: call_id@, name: None, arguments: Seq::empty() },
                    );
                    assert(self@ =~= c1);
                    assert(c1.drop_last() =~= before);
                    assert(position_of(c1, call_id@) == Some(i as int));
                    assert(ids_unique(before) ==> ids_unique(c1));
                }
                i
            },
        };
        let ghost c1 = self@;
        assert(c1 == with_call(before, call_id@));
        assert(position_of(c1, call_id@) == Some(idx as int));
        assert(ids_unique(before) ==> ids_unique(c1));
        match name {
            Some(n) => {
                if str_is_blank(n.as_str()) {
                    return Err(ToolCallError::MissingName);
                }
                match &self.calls[idx].name {
                    Some(existing) => {
                        if !str_equal(existing.as_str(), n.as_str()) {
                            return Err(ToolCallError::ConflictingName);
                        }
                    },
                    None => {},
                }
                self.set_name(idx, n);
            },
            None => {},
        }
        assert(self.calls@.len() == self@.len());
        let current = self.calls[idx].arguments.as_str().as_bytes().len();
        let added = arguments_delta.as_bytes().len();
        assert(current == byte_len(self@[idx as int].arguments));
        assert(added == byte_len(arguments_delta@));
        assert(self@[idx as int].arguments == c1[idx as int].arguments);
        if current > MAX_ARGUMENT_BYTES || added > MAX_ARGUMENT_BYTES - current {
            return Err(ToolCallError::ArgumentsTooLarge);
        }
        self.append_arguments(idx, arguments_delta);
        Ok(())
    }

    /// Sets the name of the call at `idx`.
    fn set_name(&mut self, idx: usize, n: String)
        requires
            idx < old(self)@.len(),
        ensures
            final(self)@ == old(self)@.update(
                idx as int,
                PartialCall { name: Some(n@), ..old(self)@[idx as int] },
            ),
            ids_unique(old(self)@) ==> ids_unique(final(self)@),
    {
        let ghost before = self@;
        let mut entry = self.calls.remove(idx);
        entry.name = Some(n);
        self.calls.insert(idx, entry);
        assert(self@ =~= before.update(
            idx as int,
            PartialCall { name: Some(n@), ..before[idx as int] },
        ));
    }

    /// Appends `delta` to the arguments of the call at `idx`.
    fn append_arguments(&mut self, idx: usize, delta: &str)
        requires
            idx < old(self)@.len(),
        ensures
            final(self)@ == old(self)@.update(
                idx as int,
                PartialCall {
                    arguments: old(self)@[idx as int].arguments + delta@,
                    ..old(self)@[idx as int]
                },
            ),
            ids_unique(old(self)@) ==> ids_unique(final(self)@),
    {
        let ghost before = self@;
        let mut entry = self.calls.remove(idx);
        entry.arguments.append(delta);
        self.calls.insert(idx, entry);
        assert(self@ =~= before.update(
            idx as int,
            PartialCall { arguments: before[idx as int].arguments + delta@, ..before[idx as int] },
        ));
    }

    /// Completes every call, in the order in which the calls first appeared; the first call
    /// that has no name, or whose arguments are not a JSON object, fails the whole batch.
    pub fn finish(self) -> (r: Result<Vec<ToolCall>, ToolCallError>)
        ensures
            match first_call_error(self@) {
                Some(e) => r matches Err(x) && x@ == e,
                None => r matches Ok(v) && v@.len() == self@.len() && (forall|i: int|
                    0 <= i < v@.len() ==> call_built(#[trigger] v@[i], self@[i])),
            },
    {
        let ghost all = self@;
        let mut out: Vec<ToolCall> = Vec::new();
        let mut k: usize = 0;
        assert(all.take(0) =~= Seq::<PartialCall>::empty());
        while k < self.calls.len()
            invariant
                all == self@,
                k <= all.len(),
                first_call_error(all.take(k as int)) is None,
                out@.len() == k,
                forall|i: int| 0 <= i < k ==> call_built(#[trigger] out@[i], all[i]),
            decreases all.len() - k,
        {
            proof {
                assert(all.take(k + 1).drop_last() =~= all.take(k as int));
                assert(all.take(k + 1).last() == all[k as int]);
            }
            let p = &self.calls[k];
            assert(p@ == all[k as int]);
            let name = match &p.name {
                Some(n) => n.clone(),
                None => {
                    proof { lemma_first_error_prefix(all, k + 1); }
                    return Err(ToolCallError::MissingName);
                },
            };
            let arguments = if str_is_blank(p.arguments.as_str()) {
                JsonValue::Object(Vec::new())
            } else {
                match arguments_from_parsed(parse_json(p.arguments.as_str())) {
                    Ok(v) => v,
                    Err(e) => {
                        proof { lemma_first_error_prefix(all, k + 1); }
                        return Err(e);
                    },
                }
            };
            out.push(ToolCall { call_id: p.call_id.clone(), name, arguments });
            k = k + 1;
        }
        assert(all.take(all.len() as int) =~= all);
        Ok(out)
    }
}

/// Once a prefix of the calls has an error, the first error of all calls is that error.
proof fn lemma_first_error_prefix(calls: Seq<PartialCall>, j: int)
    requires
        0 <= j <= calls.len(),
        first_call_error(calls.take(j)) is Some,
    ensures
        first_call_error(calls) == first_call_error(calls.take(j)),
    decreases calls.len(),
{
    if j == calls.len() {
        assert(calls.take(j) =~= calls);
    } else {
        assert(calls.drop_last().take(j) =~= calls.take(j));
        lemma_first_error_prefix(calls.drop_last(), j);
    }
}

/// An accepted piece extends its call in provider order: the piece is appended to the
/// arguments of the call with its id, which a new id first adds after all earlier calls; every
/// other call stays as it was.
pub proof fn law_accepted_piece_appends(
    calls: Seq<PartialCall>,
    id: Seq<char>,
    name: Option<Seq<char>>,
    delta: Seq<char>,
)
    requires
        push_step(calls, id, name, delta).1 is Ok,
    ensures
        ({
            let next = push_step(calls, id, name, delta).0;
            match position_of(calls, id) {
                Some(i) => {
                    &&& next.len() == calls.len()
                    &&& next[i].call_id == id
                    &&& next[i].arguments == calls[i].arguments + delta
                    &&& next[i].name == (if name is Some { name } else { calls[i].name })
                    &&& forall|j: int| 0 <= j < calls.len() && j != i ==> next[j] == calls[j]
                },
                None => {
                    &&& next.len() == calls.len() + 1
                    &&& next[calls.len() as int].call_id == id
                    &&& next[calls.len() as int].arguments == delta
                    &&& next[calls.len() as int].name == name
                    &&& forall|j: int| 0 <= j < calls.len() ==> next[j] == calls[j]
                },
            }
        }),
{
    lemma_position_of(calls, id);
    let c1 = with_call(calls, id);
    lemma_position_of(c1, id);
    if position_of(calls, id) is None {
        let pushed = calls.push(PartialCall { call_id: id, name: None, arguments: Seq::empty() });
        assert(pushed.drop_last() =~= calls);
        assert(position_of(c1, id) == Some(calls.len() as int));
        assert(Seq::<char>::empty() + delta =~= delta);
    }
}

/// The calls after the pieces `pieces` (id, name, arguments piece) were pushed in order onto
/// `calls`, and whether every one of them was accepted.
pub open spec fn push_all(
    calls: Seq<PartialCall>,
    pieces: Seq<(Seq<char>, Option<Seq<char>>, Seq<char>)>,
) -> (Seq<PartialCall>, bool)
    decreases pieces.len(),
{
    if pieces.len() == 0 {
        (calls, true)
    } else {
        let (before, ok) = push_all(calls, pieces.drop_last());
        let p = pieces.last();
        let (after, outcome) = push_step(before, p.0, p.1, p.2);
        (after, ok && outcome is Ok)
    }
}

/// The arguments pieces of call `id` among `pieces`, joined in order.
pub open spec fn pieces_of(pieces: Seq<(Seq<char>, Option<Seq<char>>, Seq<char>)>, id: Seq<char>) -> Seq<
    char,
>
    decreases pieces.len(),
{
    if pieces.len() == 0 {
        Seq::empty()
    } else if pieces.last().0 == id {
        pieces_of(pieces.drop_last(), id) + pieces.last().2
    } else {
        pieces_of(pieces.drop_last(), id)
    }
}

/// The call ids of `pieces` in the order in which each first appears.
pub open spec fn first_appearances(pieces: Seq<(Seq<char>, Option<Seq<char>>, Seq<char>)>) -> Seq<
    Seq<char>,
>
    decreases pieces.len(),
{
    if pieces.len() == 0 {
        Seq::empty()
    } else {
        let earlier = first_appearances(pieces.drop_last());
        if earlier.contains(pieces.last().0) {
            earlier
        } else {
            earlier.push(pieces.last().0)
        }
    }
}

/// A call id that never appeared has no arguments pieces.
proof fn lemma_no_pieces_before_first(
    pieces: Seq<(Seq<char>, Option<Seq<char>>, Seq<char>)>,
    id: Seq<char>,
)
    requires
        !first_appearances(pieces).contains(id),
    ensures
        pieces_of(pieces, id) == Seq::<char>::empty(),
    decreases pieces.len(),
{
    if pieces.len() > 0 {
        let earlier = first_appearances(pieces.drop_last());
        if earlier.contains(pieces.last().0) {
            assert(pieces.last().0 != id);
        } else {
            assert(first_appearances(pieces).last() == pieces.last().0);
            assert(pieces.last().0 != id);
            assert forall|k: int| 0 <= k < earlier.len() implies earlier[k] != id by {
                assert(first_appearances(pieces)[k] == earlier[k]);
            }
        }
        lemma_no_pieces_before_first(pieces.drop_last(), id);
    }
}

/// No call id appears twice among the first appearances.
proof fn lemma_first_appearances_unique(pieces: Seq<(Seq<char>, Option<Seq<char>>, Seq<char>)>)
    ensures
        forall|a: int, b: int|
            0 <= a < b < first_appearances(pieces).len() ==> first_appearances(pieces)[a]
                != first_appearances(pieces)[b],
    decreases pieces.len(),
{
    if pieces.len() > 0 {
        let earlier = first_appearances(pieces.drop_last());
        lemma_first_appearances_unique(pieces.drop_last());
        if !earlier.contains(pieces.last().0) {
            let ids = first_appearances(pieces);
            assert forall|a: int, b: int| 0 <= a < b < ids.len() implies ids[a] != ids[b] by {
                if b == earlier.len() {
                    assert(ids[a] == earlier[a]);
                }
            }
        }
    }
}

/// Pieces pushed in provider order aggregate per call: when every piece is accepted, the
/// calls come in the order in which their ids first appeared, and each call's arguments are
/// its pieces joined in the order they were pushed.
pub proof fn law_pieces_aggregate_in_provider_order(
    pieces: Seq<(Seq<char>, Option<Seq<char>>, Seq<char>)>,
)
    requires
        push_all(Seq::empty(), pieces).1,
    ensures
        ({
            let calls = push_all(Seq::empty(), pieces).0;
            let ids = first_appearances(pieces);
            &&& calls.len() == ids.len()
            &&& forall|i: int|
                0 <= i < calls.len() ==> (#[trigger] calls[i]).call_id == ids[i]
                    && calls[i].arguments == pieces_of(pieces, ids[i])
        }),
    decreases pieces.len(),
{
    if pieces.len() > 0 {
        let prev = pieces.drop_last();
        let p = pieces.last();
        law_pieces_aggregate_in_provider_order(prev);
        let before = push_all(Seq::empty(), prev).0;
        let earlier = first_appearances(prev);
        let after = push_step(before, p.0, p.1, p.2).0;
        law_accepted_piece_appends(before, p.0, p.1, p.2);
        lemma_position_of(before, p.0);
        lemma_first_appearances_unique(prev);
        if earlier.contains(p.0) {
            let k = choose|k: int| 0 <= k < earlier.len() && earlier[k] == p.0;
            assert(before[k].call_id == p.0);
            let i = position_of(before, p.0)->0;
            assert(i == k) by {
                assert(earlier[i] == before[i].call_id);
                if i < k {
                    assert(earlier[i] != earlier[k]);
                }
                if k < i {
                    assert(before[k].call_id != p.0);
                }
            }
            assert forall|j: int| 0 <= j < after.len() implies (#[trigger] after[j]).call_id
                == first_appearances(pieces)[j] && after[j].arguments == pieces_of(
                pieces,
                first_appearances(pieces)[j],
            ) by {
                if j != i {
                    assert(after[j] == before[j]);
                    assert(earlier[j] != p.0) by {
                        assert(earlier[j] == before[j].call_id);
                        if j < i {
                            assert(before[j].call_id != p.0);
                        } else {
                            assert(earlier[i] != earlier[j]);
                        }
                    }
                }
            }
        } else {
            assert(position_of(before, p.0) is None) by {
                if position_of(before, p.0) is Some {
                    let i = position_of(before, p.0)->0;
                    assert(earlier[i] == p.0);
                }
            }
            lemma_no_pieces_before_first(prev, p.0);
            assert(Seq::<char>::empty() + p.2 =~= p.2);
            assert forall|j: int| 0 <= j < after.len() implies (#[trigger] after[j]).call_id
                == first_appearances(pieces)[j] && after[j].arguments == pieces_of(
                pieces,
                first_appearances(pieces)[j],
            ) by {
                if j < before.len() {
                    assert(after[j] == before[j]);
                    assert(earlier[j] != p.0);
                    assert(first_appearances(pieces)[j] == earlier[j]);
                }
            }
        }
    }
}

/// One delta never removes a call, and a delta with an id that is not blank leaves at least one
/// call.
proof fn lemma_push_step_len(
    calls: Seq<PartialCall>,
    id: Seq<char>,
    name: Option<Seq<char>>,
    delta: Seq<char>,
)
    ensures
        push_step(calls, id, name, delta).0.len() >= calls.len(),
        !is_blank(id) ==> push_step(calls, id, name, delta).0.len() >= 1,
        is_blank(id) ==> push_step(calls, id, name, delta).0 == calls,
        push_step(calls, id, name, delta).1 is Ok ==> !is_blank(id),
{
    lemma_position_of(with_call(calls, id), id);
}

/// An accumulator fed the pieces `pieces` from empty stays empty exactly while every piece was
/// refused for a blank id: any other piece, accepted or not, registers its call. In particular,
/// once a piece has been accepted the accumulator is not empty.
pub proof fn law_accumulator_empty_iff_only_blank_ids(
    pieces: Seq<(Seq<char>, Option<Seq<char>>, Seq<char>)>,
)
    ensures
        push_all(Seq::empty(), pieces).0.len() == 0 <==> forall|k: int|
            0 <= k < pieces.len() ==> is_blank((#[trigger] pieces[k]).0),
        push_all(Seq::empty(), pieces).1 && pieces.len() > 0 ==> push_all(
            Seq::empty(),
            pieces,
        ).0.len() > 0,
    decreases pieces.len(),
{
    if pieces.len() > 0 {
        let prev = pieces.drop_last();
        let p = pieces.last();
        law_accumulator_empty_iff_only_blank_ids(prev);
        let before = push_all(Seq::empty(), prev).0;
        lemma_push_step_len(before, p.0, p.1, p.2);
        assert forall|k: int| 0 <= k < prev.len() implies prev[k] == pieces[k] by {}
        if push_all(Seq::empty(), pieces).0.len() == 0 {
            assert forall|k: int| 0 <= k < pieces.len() implies is_blank((#[trigger] pieces[k]).0) by {
                if k < prev.len() {
                    assert(prev[k] == pieces[k]);
                }
            }
        }
        if forall|k: int| 0 <= k < pieces.len() ==> is_blank((#[trigger] pieces[k]).0) {
            assert forall|k: int| 0 <= k < prev.len() implies is_blank((#[trigger] prev[k]).0) by {
                assert(prev[k] == pieces[k]);
            }
            assert(is_blank(pieces[pieces.len() - 1].0));
        }
    }
}

/// What `finish` completes after the pieces `pieces` were all accepted: one call per call id,
/// the ids distinct and in the order in which each first appeared, and each call's arguments
/// the JSON object parsed from its pieces joined in provider order (an empty object when they
/// are blank). `built` is any result that `finish` may give on success.
pub proof fn law_finish_builds_calls_in_provider_order(
    pieces: Seq<(Seq<char>, Option<Seq<char>>, Seq<char>)>,
    built: Seq<ToolCall>,
)
    requires
        push_all(Seq::empty(), pieces).1,
        built.len() == push_all(Seq::empty(), pieces).0.len(),
        forall|i: int|
            0 <= i < built.len() ==> call_built(#[trigger] built[i], push_all(Seq::empty(), pieces).0[i]),
    ensures
        ({
            let ids = first_appearances(pieces);
            &&& built.len() == ids.len()
            &&& forall|a: int, b: int|
                0 <= a < b < built.len() ==> (#[trigger] built[a]).call_id@ != (#[trigger] built[b]).call_id@
            &&& forall|i: int|
                0 <= i < built.len() ==> {
                    &&& (#[trigger] built[i]).call_id@ == ids[i]
                    &&& if is_blank(pieces_of(pieces, ids[i])) {
                        built[i].arguments is Object && built[i].arguments->Object_0@.len() == 0
                    } else {
                        serde_json_parse(pieces_of(pieces, ids[i])) == Ok::<JsonValue, Seq<char>>(
                            built[i].arguments,
                        )
                    }
                }
        }),
{
    let calls = push_all(Seq::empty(), pieces).0;
    let ids = first_appearances(pieces);
    law_pieces_aggregate_in_provider_order(pieces);
    lemma_first_appearances_unique(pieces);
    assert forall|i: int| 0 <= i < built.len() implies (#[trigger] built[i]).call_id@ == ids[i] by {
        assert(call_built(built[i], calls[i]));
        assert(calls[i].call_id == ids[i]);
    }
    assert forall|a: int, b: int| 0 <= a < b < built.len() implies (#[trigger] built[a]).call_id@
        != (#[trigger] built[b]).call_id@ by {
        assert(built[a].call_id@ == ids[a]);
        assert(built[b].call_id@ == ids[b]);
    }
    assert forall|i: int| 0 <= i < built.len() implies (if is_blank(
        pieces_of(pieces, ids[i]),
    ) {
        (#[trigger] built[i]).arguments is Object && built[i].arguments->Object_0@.len() == 0
    } else {
        serde_json_parse(pieces_of(pieces, ids[i])) == Ok::<JsonValue, Seq<char>>(built[i].arguments)
    }) by {
        assert(call_built(built[i], calls[i]));
        assert(calls[i].arguments == pieces_of(pieces, ids[i]));
    }
}

/// When every piece was accepted, no piece had a blank id.
pub proof fn lemma_accepted_pieces_have_ids(pieces: Seq<(Seq<char>, Option<Seq<char>>, Seq<char>)>)
    requires
        push_all(Seq::empty(), pieces).1,
    ensures
        forall|k: int| 0 <= k < pieces.len() ==> !is_blank((#[trigger] pieces[k]).0),
    decreases pieces.len(),
{
    if pieces.len() > 0 {
        let prev = pieces.drop_last();
        lemma_accepted_pieces_have_ids(prev);
        let p = pieces.last();
        lemma_push_step_len(push_all(Seq::empty(), prev).0, p.0, p.1, p.2);
        assert forall|k: int| 0 <= k < pieces.len() implies !is_blank((#[trigger] pieces[k]).0) by {
            if k < prev.len() {
                assert(prev[k] == pieces[k]);
            }
        }
    }
}

/// The name that the pieces of call `id` among `pieces` gave it, the latest one given.
pub open spec fn names_of(pieces: Seq<(Seq<char>, Option<Seq<char>>, Seq<char>)>, id: Seq<char>) -> Option<
    Seq<char>,
>
    decreases pieces.len(),
{
    if pieces.len() == 0 {
        None
    } else if pieces.last().0 == id && pieces.last().1 is Some {
        pieces.last().1
    } else {
        names_of(pieces.drop_last(), id)
    }
}

/// A call id that never appeared was given no name.
proof fn lemma_no_name_before_first(
    pieces: Seq<(Seq<char>, Option<Seq<char>>, Seq<char>)>,
    id: Seq<char>,
)
    requires
        !first_appearances(pieces).contains(id),
    ensures
        names_of(pieces, id) is None,
    decreases pieces.len(),
{
    if pieces.len() > 0 {
        let earlier = first_appearances(pieces.drop_last());
        if earlier.contains(pieces.last().0) {
            assert(pieces.last().0 != id);
        } else {
            assert(first_appearances(pieces).last() == pieces.last().0);
            assert(pieces.last().0 != id);
            assert forall|k: int| 0 <= k < earlier.len() implies earlier[k] != id by {
                assert(first_appearances(pieces)[k] == earlier[k]);
            }
        }
        lemma_no_name_before_first(pieces.drop_last(), id);
    }
}

/// When every piece was accepted, each collected call has the name its pieces gave it.
pub proof fn law_names_follow_pieces(pieces: Seq<(Seq<char>, Option<Seq<char>>, Seq<char>)>)
    requires
        push_all(Seq::empty(), pieces).1,
    ensures
        ({
            let calls = push_all(Seq::empty(), pieces).0;
            let ids = first_appearances(pieces);
            forall|i: int| 0 <= i < calls.len() ==> (#[trigger] calls[i]).name == names_of(pieces, ids[i])
        }),
    decreases pieces.len(),
{
    law_pieces_aggregate_in_provider_order(pieces);
    if pieces.len() > 0 {
        let prev = pieces.drop_last();
        let p = pieces.last();
        law_names_follow_pieces(prev);
        law_pieces_aggregate_in_provider_order(prev);
        let before = push_all(Seq::empty(), prev).0;
        let earlier = first_appearances(prev);
        let ids = first_appearances(pieces);
        let after = push_step(before, p.0, p.1, p.2).0;
        law_accepted_piece_appends(before, p.0, p.1, p.2);
        lemma_position_of(before, p.0);
        lemma_first_appearances_unique(prev);
        match position_of(before, p.0) {
            Some(i) => {
                assert(earlier.contains(p.0)) by {
                    assert(earlier[i] == before[i].call_id);
                }
                assert(ids == earlier);
                assert forall|j: int| 0 <= j < after.len() implies (#[trigger] after[j]).name
                    == names_of(pieces, ids[j]) by {
                    if j != i {
                        assert(after[j] == before[j]);
                        assert(earlier[j] == before[j].call_id);
                        assert(before[j].call_id != p.0) by {
                            if j < i {
                            } else {
                                assert(earlier[i] != earlier[j]);
                            }
                        }
                    } else {
                        assert(earlier[i] == p.0);
                    }
                }
            },
            None => {
                assert(!earlier.contains(p.0)) by {
                    if earlier.contains(p.0) {
                        let k = choose|k: int| 0 <= k < earlier.len() && earlier[k] == p.0;
                        assert(before[k].call_id == p.0);
                    }
                }
                lemma_no_name_before_first(prev, p.0);
                assert(ids == earlier.push(p.0));
                assert forall|j: int| 0 <= j < after.len() implies (#[trigger] after[j]).name
                    == names_of(pieces, ids[j]) by {
                    if j < before.len() {
                        assert(after[j] == before[j]);
                        assert(ids[j] == earlier[j]);
                        assert(earlier[j] != p.0);
                    }
                }
            },
        }
    }
}

/// The first error among the calls is none exactly when every call can be completed.
proof fn lemma_no_first_error(calls: Seq<PartialCall>)
    ensures
        first_call_error(calls) is None <==> forall|i: int|
            0 <= i < calls.len() ==> call_error(#[trigger] calls[i]) is None,
    decreases calls.len(),
{
    if calls.len() > 0 {
        let prev = calls.drop_last();
        lemma_no_first_error(prev);
        assert forall|i: int| 0 <= i < prev.len() implies prev[i] == calls[i] by {}
        if first_call_error(calls) is None {
            assert forall|i: int| 0 <= i < calls.len() implies call_error(#[trigger] calls[i]) is None by {
                if i < prev.len() {
                    assert(prev[i] == calls[i]);
                }
            }
        }
    }
}

/// What finishing makes of pieces that were all accepted: it succeeds exactly when every call
/// was given a name and its pieces join to a blank text or to the text of a JSON object; the
/// calls then come one per call id, in the order of first appearance, each with its name, and
/// with its pieces parsed as arguments (blank pieces giving an empty object), as
/// `law_finish_builds_calls_in_provider_order` states of `finish`'s result.
pub proof fn law_finish_succeeds_exactly_for_complete_calls(
    pieces: Seq<(Seq<char>, Option<Seq<char>>, Seq<char>)>,
)
    requires
        push_all(Seq::empty(), pieces).1,
    ensures
        ({
            let calls = push_all(Seq::empty(), pieces).0;
            let ids = first_appearances(pieces);
            &&& calls.len() == ids.len()
            &&& forall|i: int|
                0 <= i < calls.len() ==> {
                    &&& (#[trigger] calls[i]).call_id == ids[i]
                    &&& calls[i].name == names_of(pieces, ids[i])
                    &&& calls[i].arguments == pieces_of(pieces, ids[i])
                }
            &&& first_call_error(calls) is None <==> forall|i: int|
                0 <= i < ids.len() ==> {
                    &&& names_of(pieces, #[trigger] ids[i]) is Some
                    &&& (is_blank(pieces_of(pieces, ids[i])) || (serde_json_parse(
                        pieces_of(pieces, ids[i]),
                    ) matches Ok(v) && is_object(v)))
                }
        }),
{
    let calls = push_all(Seq::empty(), pieces).0;
    let ids = first_appearances(pieces);
    law_pieces_aggregate_in_provider_order(pieces);
    law_names_follow_pieces(pieces);
    lemma_no_first_error(calls);
    assert forall|i: int| 0 <= i < ids.len() implies (call_error(calls[i]) is None <==> {
        &&& names_of(pieces, #[trigger] ids[i]) is Some
        &&& (is_blank(pieces_of(pieces, ids[i])) || (serde_json_parse(pieces_of(pieces, ids[i])) matches Ok(
            v,
        ) && is_object(v)))
    }) by {
        assert(calls[i].call_id == ids[i]);
    }
    if first_call_error(calls) is None {
        assert forall|i: int| 0 <= i < ids.len() implies {
            &&& names_of(pieces, #[trigger] ids[i]) is Some
            &&& (is_blank(pieces_of(pieces, ids[i])) || (serde_json_parse(
                pieces_of(pieces, ids[i]),
            ) matches Ok(v) && is_object(v)))
        } by {
            assert(call_error(calls[i]) is None);
        }
    } else {
        let k = choose|k: int| 0 <= k < calls.len() && !(call_error(#[trigger] calls[k]) is None);
        assert(call_error(calls[k]) is Some);
    }
}

/// Every outcome of pushing the pieces `pieces` in order onto `calls`, with the calls after
/// them.
pub open spec fn push_all_outcomes(
    calls: Seq<PartialCall>,
    pieces: Seq<(Seq<char>, Option<Seq<char>>, Seq<char>)>,
) -> (Seq<PartialCall>, Seq<Result<(), ToolCallErrorView>>)
    decreases pieces.len(),
{
    if pieces.len() == 0 {
        (calls, Seq::empty())
    } else {
        let (before, outs) = push_all_outcomes(calls, pieces.drop_last());
        let p = pieces.last();
        let (after, outcome) = push_step(before, p.0, p.1, p.2);
        (after, outs.push(outcome))
    }
}

/// A push answers `EmptyId` exactly when its id is blank, and is accepted only with an id.
proof fn lemma_outcomes_of_ids(pieces: Seq<(Seq<char>, Option<Seq<char>>, Seq<char>)>)
    ensures
        ({
            let (calls, outs) = push_all_outcomes(Seq::empty(), pieces);
            &&& calls == push_all(Seq::empty(), pieces).0
            &&& outs.len() == pieces.len()
            &&& forall|k: int|
                0 <= k < pieces.len() ==> (outs[k] == Err::<(), ToolCallErrorView>(
                    ToolCallErrorView::EmptyId,
                ) <==> is_blank((#[trigger] pieces[k]).0)) && (outs[k] is Ok ==> !is_blank(
                    pieces[k].0,
                ))
        }),
    decreases pieces.len(),
{
    if pieces.len() > 0 {
        let prev = pieces.drop_last();
        let p = pieces.last();
        lemma_outcomes_of_ids(prev);
        let before = push_all_outcomes(Seq::empty(), prev).0;
        lemma_push_step_len(before, p.0, p.1, p.2);
        let (calls, outs) = push_all_outcomes(Seq::empty(), pieces);
        let prev_outs = push_all_outcomes(Seq::empty(), prev).1;
        assert forall|k: int| 0 <= k < pieces.len() implies (outs[k] == Err::<(), ToolCallErrorView>(
            ToolCallErrorView::EmptyId,
        ) <==> is_blank((#[trigger] pieces[k]).0)) && (outs[k] is Ok ==> !is_blank(pieces[k].0)) by {
            if k < prev.len() {
                assert(prev[k] == pieces[k]);
                assert(outs[k] == prev_outs[k]);
            } else {
                lemma_position_of(with_call(before, p.0), p.0);
            }
        }
    }
}

/// An accumulator fed pushes from empty is not empty once any push was accepted, and is empty
/// when every push answered `EmptyId` (or there was none).
pub proof fn law_accumulator_empty_after_pushes(pieces: Seq<(Seq<char>, Option<Seq<char>>, Seq<char>)>)
    ensures
        ({
            let (calls, outs) = push_all_outcomes(Seq::empty(), pieces);
            &&& (exists|k: int| 0 <= k < outs.len() && (#[trigger] outs[k]) is Ok) ==> calls.len() > 0
            &&& (forall|k: int|
                0 <= k < outs.len() ==> #[trigger] outs[k] == Err::<(), ToolCallErrorView>(
                    ToolCallErrorView::EmptyId,
                )) ==> calls.len() == 0
        }),
{
    let (calls, outs) = push_all_outcomes(Seq::empty(), pieces);
    lemma_outcomes_of_ids(pieces);
    law_accumulator_empty_iff_only_blank_ids(pieces);
    if exists|k: int| 0 <= k < outs.len() && (#[trigger] outs[k]) is Ok {
        let k = choose|k: int| 0 <= k < outs.len() && (#[trigger] outs[k]) is Ok;
        assert(!is_blank(pieces[k].0));
    }
    if forall|k: int|
        0 <= k < outs.len() ==> #[trigger] outs[k] == Err::<(), ToolCallErrorView>(
            ToolCallErrorView::EmptyId,
        ) {
        assert forall|k: int| 0 <= k < pieces.len() implies is_blank((#[trigger] pieces[k]).0) by {
            assert(outs[k] == Err::<(), ToolCallErrorView>(ToolCallErrorView::EmptyId));
        }
    }
}

/// A refused push appends nothing: every call keeps its id and its argument text, a call it
/// registered has no arguments yet, and a push refused for a blank id changes nothing at all.
pub proof fn law_refused_push_keeps_arguments(
    calls: Seq<PartialCall>,
    id: Seq<char>,
    name: Option<Seq<char>>,
    delta: Seq<char>,
)
    requires
        push_step(calls, id, name, delta).1 is Err,
    ensures
        ({
            let (next, outcome) = push_step(calls, id, name, delta);
            &&& next.len() >= calls.len()
            &&& forall|i: int|
                0 <= i < calls.len() ==> (#[trigger] next[i]).call_id == calls[i].call_id
                    && next[i].arguments == calls[i].arguments
            &&& forall|i: int| calls.len() <= i < next.len() ==> (#[trigger] next[i]).arguments.len() == 0
            &&& outcome == Err::<(), ToolCallErrorView>(ToolCallErrorView::EmptyId) ==> next == calls
        }),
{
    lemma_position_of(calls, id);
    let c1 = with_call(calls, id);
    lemma_position_of(c1, id);
    if !is_blank(id) && position_of(calls, id) is None {
        let pushed = calls.push(PartialCall { call_id: id, name: None, arguments: Seq::empty() });
        assert(pushed.drop_last() =~= calls);
        assert(position_of(c1, id) == Some(calls.len() as int));
    }
}

} // verus!
