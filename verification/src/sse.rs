//! Incremental framing of Server-Sent Events.
//!
//! The decoder keeps raw bytes until a whole line has arrived, so a multi-byte UTF-8
//! character that is split across network chunks is never cut in half.

use vstd::prelude::*;
use vstd::utf8::*;

use crate::error::{ProviderError, ProviderErrorView};
use crate::text::opt_string_view;

verus! {

/// The largest number of bytes a single SSE frame, or a pending unfinished line, may hold.
pub const MAX_SSE_FRAME_SIZE: usize = 1024 * 1024;

/// A completed SSE frame.
#[derive(Debug, Clone, PartialEq, Eq)]
pub struct SseFrame {
    pub event: Option<String>,
    pub id: Option<String>,
    pub data: String,
}

/// A decoded SSE item; `Done` is the end marker of OpenAI-compatible streams.
#[derive(Debug, Clone, PartialEq, Eq)]
pub enum SseEvent {
    Frame(SseFrame),
    Done,
}

/// An `SseFrame` with its texts taken as character sequences.
pub struct SseFrameView {
    pub event: Option<Seq<char>>,
    pub id: Option<Seq<char>>,
    pub data: Seq<char>,
}

/// An `SseEvent` with its texts taken as character sequences.
pub enum SseEventView {
    Frame(SseFrameView),
    Done,
}

impl View for SseFrame {
    type V = SseFrameView;

    open spec fn view(&self) -> SseFrameView {
        SseFrameView { event: opt_string_view(self.event), id: opt_string_view(self.id), data: self.data@ }
    }
}

impl View for SseEvent {
    type V = SseEventView;

    open spec fn view(&self) -> SseEventView {
        match self {
            SseEvent::Frame(f) => SseEventView::Frame(f@),
            SseEvent::Done => SseEventView::Done,
        }
    }
}

/// The views of a sequence of events.
pub open spec fn events_view(v: Seq<SseEvent>) -> Seq<SseEventView> {
    v.map_values(|e: SseEvent| e@)
}

/// The fields of the frame that is being collected.
pub struct PendingFrame {
    pub data_lines: Seq<Seq<char>>,
    pub event: Option<Seq<char>>,
    pub id: Option<Seq<char>>,
    pub frame_size: nat,
}

/// The whole state of a decoder: the bytes of the unfinished line and the pending frame.
pub struct SseDecoderView {
    pub buffer: Seq<u8>,
    pub pending: PendingFrame,
}

/// Why a push or finish fails.
pub enum SseFailure {
    LineTooLong,
    FrameSizeOverflow,
    FrameTooLarge,
    FieldNotUtf8,
    DataNotUtf8,
}

/// The text that the protocol error of a failure carries.
pub open spec fn failure_text(f: SseFailure) -> Seq<char> {
    match f {
        SseFailure::LineTooLong => "SSE 行超过大小限制"@,
        SseFailure::FrameSizeOverflow => "SSE frame 大小溢出"@,
        SseFailure::FrameTooLarge => "SSE frame 超过大小限制"@,
        SseFailure::FieldNotUtf8 => "SSE 字段不是 UTF-8"@,
        SseFailure::DataNotUtf8 => "SSE 数据不是 UTF-8"@,
    }
}

/// The provider error that reports a failure.
pub open spec fn failure_error(f: SseFailure) -> ProviderErrorView {
    ProviderErrorView::Protocol(failure_text(f))
}

/// The position of the first occurrence of `b` in `s`.
pub open spec fn first_index_of(s: Seq<u8>, b: u8) -> Option<int>
    decreases s.len(),
{
    if s.len() == 0 {
        None
    } else if s[0] == b {
        Some(0)
    } else {
        match first_index_of(s.drop_first(), b) {
            Some(i) => Some(i + 1),
            None => None,
        }
    }
}

/// A line without one trailing carriage return.
pub open spec fn strip_cr(line: Seq<u8>) -> Seq<u8> {
    if line.len() > 0 && line[line.len() - 1] == 13u8 {
        line.drop_last()
    } else {
        line
    }
}

/// The field name of a non-empty line that is not a comment.
pub open spec fn field_part(line: Seq<u8>) -> Seq<u8> {
    match first_index_of(line, 58u8) {
        Some(i) => line.subrange(0, i),
        None => line,
    }
}

/// The value of a line: what follows its first colon, without one leading space.
pub open spec fn value_part(line: Seq<u8>) -> Seq<u8> {
    let raw = match first_index_of(line, 58u8) {
        Some(i) => line.subrange(i + 1, line.len() as int),
        None => Seq::<u8>::empty(),
    };
    if raw.len() > 0 && raw[0] == 32u8 {
        raw.drop_first()
    } else {
        raw
    }
}

/// The field name `data`, as bytes.
pub open spec fn data_field() -> Seq<u8> {
    seq![100u8, 97u8, 116u8, 97u8]
}

/// The field name `event`, as bytes.
pub open spec fn event_field() -> Seq<u8> {
    seq![101u8, 118u8, 101u8, 110u8, 116u8]
}

/// The field name `id`, as bytes.
pub open spec fn id_field() -> Seq<u8> {
    seq![105u8, 100u8]
}

/// The data lines of a frame joined with line feeds.
pub open spec fn join_lines(lines: Seq<Seq<char>>) -> Seq<char>
    decreases lines.len(),
{
    if lines.len() == 0 {
        Seq::<char>::empty()
    } else if lines.len() == 1 {
        lines[0]
    } else {
        join_lines(lines.drop_last()) + seq!['\n'] + lines.last()
    }
}

/// A frame under assembly that has nothing yet.
pub open spec fn empty_pending() -> PendingFrame {
    PendingFrame { data_lines: Seq::empty(), event: None, id: None, frame_size: 0 }
}

/// Ends the pending frame: the fields are cleared and the frame, if it has data, comes out.
pub open spec fn dispatch(p: PendingFrame) -> (PendingFrame, Option<SseEventView>) {
    if p.data_lines.len() == 0 {
        (empty_pending(), None)
    } else {
        let data = join_lines(p.data_lines);
        if data == "[DONE]"@ {
            (empty_pending(), Some(SseEventView::Done))
        } else {
            (empty_pending(), Some(SseEventView::Frame(SseFrameView { event: p.event, id: p.id, data })))
        }
    }
}

/// The frame budget one line uses: its length after the carriage return, plus one.
pub open spec fn line_cost(line: Seq<u8>) -> int {
    let n = strip_cr(line).len();
    if n + 1 > usize::MAX {
        usize::MAX as int
    } else {
        n + 1int
    }
}

/// Takes one line (without its line feed) into the pending frame.
pub open spec fn consume_line(p: PendingFrame, raw: Seq<u8>) -> Result<
    (PendingFrame, Option<SseEventView>),
    SseFailure,
> {
    let line = strip_cr(raw);
    let size = p.frame_size + line_cost(raw);
    if size > usize::MAX {
        Err(SseFailure::FrameSizeOverflow)
    } else if size > MAX_SSE_FRAME_SIZE {
        Err(SseFailure::FrameTooLarge)
    } else {
        let p1 = PendingFrame { frame_size: size as nat, ..p };
        if line.len() == 0 {
            Ok(dispatch(p1))
        } else if line[0] == 58u8 {
            Ok((p1, None))
        } else {
            let field = field_part(line);
            let value = value_part(line);
            if !valid_utf8(field) {
                Err(SseFailure::FieldNotUtf8)
            } else if !valid_utf8(value) {
                Err(SseFailure::DataNotUtf8)
            } else if field == data_field() {
                Ok((PendingFrame { data_lines: p1.data_lines.push(decode_utf8(value)), ..p1 }, None))
            } else if field == event_field() {
                Ok((PendingFrame { event: Some(decode_utf8(value)), ..p1 }, None))
            } else if field == id_field() {
                Ok((PendingFrame { id: Some(decode_utf8(value)), ..p1 }, None))
            } else {
                Ok((p1, None))
            }
        }
    }
}

/// An optional event as a sequence of at most one event.
pub open spec fn opt_seq(e: Option<SseEventView>) -> Seq<SseEventView> {
    match e {
        Some(x) => seq![x],
        None => Seq::empty(),
    }
}

/// Consumes every complete line of `buf`; returns the new pending frame, the events that
/// came out, and the bytes after the last line feed.
pub open spec fn process_lines(p: PendingFrame, buf: Seq<u8>) -> Result<
    (PendingFrame, Seq<SseEventView>, Seq<u8>),
    SseFailure,
>
    decreases buf.len(),
{
    match first_index_of(buf, 10u8) {
        None => Ok((p, Seq::empty(), buf)),
        Some(i) => {
            if 0 <= i < buf.len() {
                match consume_line(p, buf.subrange(0, i)) {
                    Err(f) => Err(f),
                    Ok((p1, ev)) => match process_lines(p1, buf.subrange(i + 1, buf.len() as int)) {
                        Err(f) => Err(f),
                        Ok((p2, evs, rest)) => Ok((p2, opt_seq(ev) + evs, rest)),
                    },
                }
            } else {
                Ok((p, Seq::empty(), buf))
            }
        },
    }
}

/// The frame under assembly after `consume_line` took `raw`, whether it succeeded or not: on
/// a failure the frame budget already counts the line, unless counting it overflowed.
pub open spec fn consume_line_state(p: PendingFrame, raw: Seq<u8>) -> PendingFrame {
    match consume_line(p, raw) {
        Ok((p1, _)) => p1,
        Err(SseFailure::FrameSizeOverflow) => p,
        Err(_) => PendingFrame { frame_size: (p.frame_size + line_cost(raw)) as nat, ..p },
    }
}

/// The frame under assembly and the bytes left over after line processing of `buf`, whether it
/// succeeded or stopped at a failing line: the lines up to and including the failing one are
/// used up.
pub open spec fn process_state(p: PendingFrame, buf: Seq<u8>) -> (PendingFrame, Seq<u8>)
    decreases buf.len(),
{
    match first_index_of(buf, 10u8) {
        None => (p, buf),
        Some(i) => {
            if 0 <= i < buf.len() {
                match consume_line(p, buf.subrange(0, i)) {
                    Err(_) => (
                        consume_line_state(p, buf.subrange(0, i)),
                        buf.subrange(i + 1, buf.len() as int),
                    ),
                    Ok((p1, _)) => process_state(p1, buf.subrange(i + 1, buf.len() as int)),
                }
            } else {
                (p, buf)
            }
        },
    }
}

/// The decoder after pushing `bytes` into a decoder in state `d`, whether the push succeeded
/// or failed.
pub open spec fn push_state(d: SseDecoderView, bytes: Seq<u8>) -> SseDecoderView {
    let (p, rest) = process_state(d.pending, d.buffer + bytes);
    SseDecoderView { buffer: rest, pending: p }
}

/// On success, line processing ends in the state `process_state` gives.
proof fn lemma_process_state_ok(p: PendingFrame, buf: Seq<u8>)
    ensures
        process_lines(p, buf) matches Ok((p2, _, rest)) ==> process_state(p, buf) == (p2, rest),
    decreases buf.len(),
{
    match first_index_of(buf, 10u8) {
        None => {},
        Some(i) => {
            if 0 <= i < buf.len() {
                match consume_line(p, buf.subrange(0, i)) {
                    Err(_) => {},
                    Ok((p1, _)) => {
                        lemma_process_state_ok(p1, buf.subrange(i + 1, buf.len() as int));
                    },
                }
            }
        },
    }
}

/// The outcome of pushing `bytes` into a decoder in state `d`.
pub open spec fn push_result(d: SseDecoderView, bytes: Seq<u8>) -> Result<
    (SseDecoderView, Seq<SseEventView>),
    SseFailure,
> {
    match process_lines(d.pending, d.buffer + bytes) {
        Err(f) => Err(f),
        Ok((p, evs, rest)) => {
            if rest.len() > MAX_SSE_FRAME_SIZE {
                Err(SseFailure::LineTooLong)
            } else {
                Ok((SseDecoderView { buffer: rest, pending: p }, evs))
            }
        },
    }
}

/// Whether the pending frame holds any field.
pub open spec fn has_pending_fields(p: PendingFrame) -> bool {
    p.data_lines.len() > 0 || p.event is Some || p.id is Some
}

/// The outcome of flushing a decoder in state `d` at end of input.
pub open spec fn finish_result(d: SseDecoderView) -> Result<
    (SseDecoderView, Seq<SseEventView>),
    SseFailure,
> {
    let first = if d.buffer.len() > 0 {
        consume_line(d.pending, d.buffer)
    } else {
        Ok((d.pending, None))
    };
    match first {
        Err(f) => Err(f),
        Ok((p1, ev1)) => {
            if has_pending_fields(p1) {
                let (p2, ev2) = dispatch(p1);
                Ok((SseDecoderView { buffer: Seq::empty(), pending: p2 }, opt_seq(ev1) + opt_seq(ev2)))
            } else {
                Ok((SseDecoderView { buffer: Seq::empty(), pending: p1 }, opt_seq(ev1)))
            }
        },
    }
}

/// `first_index_of` finds the first occurrence of `b`, and nothing when there is none.
pub proof fn lemma_first_index_bounds(s: Seq<u8>, b: u8)
    ensures
        first_index_of(s, b) matches Some(i) ==> 0 <= i < s.len() && s[i] == b && (forall|j: int|
            0 <= j < i ==> s[j] != b),
        first_index_of(s, b) is None ==> (forall|j: int| 0 <= j < s.len() ==> s[j] != b),
    decreases s.len(),
{
    if s.len() > 0 && s[0] != b {
        lemma_first_index_bounds(s.drop_first(), b);
        assert forall|j: int| 0 <= j < s.len() && s[j] == b implies j > 0 && s.drop_first()[j
            - 1] == b by {}
    }
}

/// The first position holding `b` is what `first_index_of` finds.
pub proof fn lemma_first_index_found(s: Seq<u8>, b: u8, k: int)
    requires
        0 <= k < s.len(),
        s[k] == b,
        forall|j: int| 0 <= j < k ==> s[j] != b,
    ensures
        first_index_of(s, b) == Some(k),
    decreases s.len(),
{
    if k > 0 {
        lemma_first_index_found(s.drop_first(), b, k - 1);
    }
}

/// A sequence without `b` has no first index of it.
pub proof fn lemma_first_index_absent(s: Seq<u8>, b: u8)
    requires
        forall|j: int| 0 <= j < s.len() ==> s[j] != b,
    ensures
        first_index_of(s, b) is None,
    decreases s.len(),
{
    if s.len() > 0 {
        lemma_first_index_absent(s.drop_first(), b);
    }
}

/// Decodes `bytes` with `std::str::from_utf8`: the text when the bytes are valid UTF-8, as
/// vstd's `valid_utf8` and `decode_utf8` define it, and nothing otherwise.
#[verifier::external_body]
fn utf8_text(bytes: &[u8]) -> (r: Option<String>)
    ensures
        r is Some <==> valid_utf8(bytes@),
        r matches Some(s) ==> s@ == decode_utf8(bytes@),
{
    std::str::from_utf8(bytes).ok().map(|s| s.to_owned())
}

/// Whether `a[lo..hi]` equals `b`.
fn bytes_equal(a: &[u8], lo: usize, hi: usize, b: &[u8]) -> (r: bool)
    requires
        lo <= hi <= a@.len(),
    ensures
        r == (a@.subrange(lo as int, hi as int) == b@),
{
    if hi - lo != b.len() {
        return false;
    }
    let mut k: usize = 0;
    while k < b.len()
        invariant
            lo <= hi <= a@.len(),
            hi - lo == b@.len(),
            k <= b@.len(),
            forall|j: int| 0 <= j < k ==> a@[lo + j] == b@[j],
        decreases b@.len() - k,
    {
        if a[lo + k] != b[k] {
            assert(a@.subrange(lo as int, hi as int)[k as int] != b@[k as int]);
            return false;
        }
        k = k + 1;
    }
    assert(a@.subrange(lo as int, hi as int) =~= b@);
    true
}

/// Processing lines after nothing is processing them alone.
proof fn lemma_prepend_empty(r: Result<(PendingFrame, Seq<SseEventView>, Seq<u8>), SseFailure>)
    ensures
        prepend_events(Seq::empty(), r) == r,
{
    match r {
        Err(f) => {},
        Ok((p, e, rest)) => {
            assert(Seq::<SseEventView>::empty() + e =~= e);
        },
    }
}

/// Processing one input after another composes.
proof fn lemma_prepend_twice(
    a: Seq<SseEventView>,
    b: Seq<SseEventView>,
    r: Result<(PendingFrame, Seq<SseEventView>, Seq<u8>), SseFailure>,
)
    ensures
        prepend_events(a, prepend_events(b, r)) == prepend_events(a + b, r),
{
    match r {
        Err(f) => {},
        Ok((p, e, rest)) => {
            assert(a + (b + e) =~= (a + b) + e);
        },
    }
}

/// Line processing is compositional: on `s + y` it handles the lines of `s`, then goes on
/// with the unfinished tail of `s` followed by `y`.
pub proof fn lemma_process_append(p: PendingFrame, s: Seq<u8>, y: Seq<u8>)
    ensures
        match process_lines(p, s) {
            Err(f) => process_lines(p, s + y) == Err::<
                (PendingFrame, Seq<SseEventView>, Seq<u8>),
                SseFailure,
            >(f),
            Ok((p1, e1, r1)) => process_lines(p, s + y) == prepend_events(
                e1,
                process_lines(p1, r1 + y),
            ),
        },
    decreases s.len(),
{
    lemma_first_index_bounds(s, 10u8);
    match first_index_of(s, 10u8) {
        None => {
            lemma_prepend_empty(process_lines(p, s + y));
        },
        Some(i) => {
            let sy = s + y;
            lemma_first_index_found(sy, 10u8, i);
            assert(sy.subrange(0, i) =~= s.subrange(0, i));
            let tail = s.subrange(i + 1, s.len() as int);
            assert(sy.subrange(i + 1, sy.len() as int) =~= tail + y);
            match consume_line(p, s.subrange(0, i)) {
                Err(f) => {},
                Ok((p1, ev)) => {
                    lemma_process_append(p1, tail, y);
                    match process_lines(p1, tail) {
                        Err(f) => {},
                        Ok((p2, e2, r2)) => {
                            lemma_prepend_twice(opt_seq(ev), e2, process_lines(p2, r2 + y));
                        },
                    }
                },
            }
        },
    }
}

/// Pushing `x` and then `y` gives the same events, in the same order, and the same decoder
/// state as pushing `x + y` at once, whenever the two pushes succeed: how the network cuts the
/// byte stream into chunks does not matter.
pub proof fn law_push_chunking(d: SseDecoderView, x: Seq<u8>, y: Seq<u8>)
    requires
        push_result(d, x) is Ok,
        push_result(push_result(d, x)->Ok_0.0, y) is Ok,
    ensures
        push_result(d, x + y) == Ok::<(SseDecoderView, Seq<SseEventView>), SseFailure>((
            push_result(push_result(d, x)->Ok_0.0, y)->Ok_0.0,
            push_result(d, x)->Ok_0.1 + push_result(push_result(d, x)->Ok_0.0, y)->Ok_0.1,
        )),
{
    assert(d.buffer + (x + y) =~= (d.buffer + x) + y);
    lemma_process_append(d.pending, d.buffer + x, y);
}

/// Finds the first line feed of `buf` at or after `start`.
fn find_line_feed(buf: &[u8], start: usize) -> (r: Option<usize>)
    requires
        start <= buf@.len(),
    ensures
        r matches Some(i) ==> first_index_of(buf@.subrange(start as int, buf@.len() as int), 10u8)
            == Some(i - start) && start <= i < buf@.len(),
        r is None ==> first_index_of(buf@.subrange(start as int, buf@.len() as int), 10u8) is None,
{
    let ghost sub = buf@.subrange(start as int, buf@.len() as int);
    let mut i: usize = start;
    while i < buf.len() && buf[i] != 10u8
        invariant
            start <= i <= buf@.len(),
            forall|j: int| start <= j < i ==> buf@[j] != 10u8,
        decreases buf@.len() - i,
    {
        i = i + 1;
    }
    if i == buf.len() {
        proof { lemma_first_index_absent(sub, 10u8); }
        None
    } else {
        proof { lemma_first_index_found(sub, 10u8, i - start); }
        Some(i)
    }
}

/// One step of `process_lines`: a buffer whose first line feed is at `i`.
proof fn lemma_process_step(p: PendingFrame, sub: Seq<u8>, i: int)
    requires
        0 <= i < sub.len(),
        first_index_of(sub, 10u8) == Some(i),
    ensures
        process_lines(p, sub) == (match consume_line(p, sub.subrange(0, i)) {
            Err(f) => Err(f),
            Ok((p1, ev)) => prepend_events(opt_seq(ev), process_lines(p1, sub.subrange(i + 1, sub.len() as int))),
        }),
{
}

/// One step of `process_state`: a buffer whose first line feed is at `i`.
proof fn lemma_process_state_step(p: PendingFrame, sub: Seq<u8>, i: int)
    requires
        0 <= i < sub.len(),
        first_index_of(sub, 10u8) == Some(i),
    ensures
        process_state(p, sub) == (match consume_line(p, sub.subrange(0, i)) {
            Err(_) => (consume_line_state(p, sub.subrange(0, i)), sub.subrange(i + 1, sub.len() as int)),
            Ok((p1, _)) => process_state(p1, sub.subrange(i + 1, sub.len() as int)),
        }),
{
}

/// Consumes the complete lines of `buf` into `pending`, up to the first line that fails;
/// returns the events, or the failure, and where the bytes not used up start.
fn process_buffer(pending: &mut Pending, buf: &[u8]) -> (r: (Result<Vec<SseEvent>, ProviderError>, usize))
    ensures
        r.1 <= buf@.len(),
        (final(pending)@, buf@.subrange(r.1 as int, buf@.len() as int)) == process_state(
            old(pending)@,
            buf@,
        ),
        match process_lines(old(pending)@, buf@) {
            Err(f) => r.0 matches Err(e) && e@ == failure_error(f),
            Ok((p, evs, rest)) => r.0 matches Ok(v) && events_view(v@) == evs,
        },
{
    let ghost full = buf@;
    let ghost p0 = pending@;
    let mut events: Vec<SseEvent> = Vec::new();
    let mut start: usize = 0;
    assert(full.subrange(0, full.len() as int) =~= full);
    assert(events_view(events@) =~= Seq::<SseEventView>::empty());
    assert(prepend_events(Seq::<SseEventView>::empty(), process_lines(p0, full)) == process_lines(p0, full)) by {
        match process_lines(p0, full) {
            Err(f) => {},
            Ok((p, e, rest)) => { assert(Seq::<SseEventView>::empty() + e =~= e); },
        }
    }
    loop
        invariant
            buf@ == full,
            p0 == old(pending)@,
            start <= full.len(),
            process_lines(p0, full) == prepend_events(
                events_view(events@),
                process_lines(pending@, full.subrange(start as int, full.len() as int)),
            ),
            process_state(p0, full) == process_state(
                pending@,
                full.subrange(start as int, full.len() as int),
            ),
        decreases full.len() - start,
    {
        let ghost sub = full.subrange(start as int, full.len() as int);
        let ghost ev_before = events_view(events@);
        let ghost before = pending@;
        match find_line_feed(buf, start) {
            None => {
                assert(process_lines(before, sub) == Ok::<
                    (PendingFrame, Seq<SseEventView>, Seq<u8>),
                    SseFailure,
                >((before, Seq::<SseEventView>::empty(), sub)));
                assert(ev_before + Seq::<SseEventView>::empty() =~= ev_before);
                return (Ok(events), start);
            },
            Some(i) => {
                assert(i < buf.len());
                proof {
                    lemma_process_step(before, sub, i - start);
                    lemma_process_state_step(before, sub, i - start);
                    assert(sub.subrange(0, i - start) =~= full.subrange(start as int, i as int));
                    assert(sub.subrange(i - start + 1, sub.len() as int) =~= full.subrange(
                        i + 1,
                        full.len() as int,
                    ));
                }
                match pending.consume_line(&buf[start..i]) {
                    Err(e) => {
                        return (Err(e), i + 1);
                    },
                    Ok(item) => {
                        let ghost ev = opt_view(item);
                        match item {
                            Some(x) => {
                                events.push(x);
                                assert(events_view(events@) =~= ev_before + opt_seq(ev));
                            },
                            None => {
                                assert(events_view(events@) =~= ev_before + opt_seq(ev));
                            },
                        }
                        proof {
                            let tail = full.subrange(i + 1, full.len() as int);
                            match process_lines(pending@, tail) {
                                Err(f) => {},
                                Ok((p2, evs, rest)) => {
                                    assert(ev_before + (opt_seq(ev) + evs) =~= events_view(events@) + evs);
                                },
                            }
                        }
                        start = i + 1;
                    },
                }
            },
        }
    }
}

/// The frame under collection.
#[derive(Debug, Default)]
struct Pending {
    data_lines: Vec<String>,
    event: Option<String>,
    id: Option<String>,
    frame_size: usize,
}

impl View for Pending {
    type V = PendingFrame;

    closed spec fn view(&self) -> PendingFrame {
        PendingFrame {
            data_lines: self.data_lines@.map_values(|s: String| s@),
            event: opt_string_view(self.event),
            id: opt_string_view(self.id),
            frame_size: self.frame_size as nat,
        }
    }
}

impl Pending {
    /// A frame under assembly that has nothing yet.
    fn new() -> (r: Pending)
        ensures
            r@ == empty_pending(),
    {
        let r = Pending { data_lines: Vec::new(), event: None, id: None, frame_size: 0 };
        assert(r@.data_lines =~= Seq::<Seq<char>>::empty());
        r
    }

    /// Ends the current frame: the event it makes, if any, and a fresh start.
    fn dispatch_frame(&mut self) -> (r: Option<SseEvent>)
        ensures
            final(self)@ == dispatch(old(self)@).0,
            opt_view(r) == dispatch(old(self)@).1,
    {
        let mut lines: Vec<String> = Vec::new();
        std::mem::swap(&mut lines, &mut self.data_lines);
        let event = self.event.take();
        let id = self.id.take();
        self.frame_size = 0;
        assert(self.data_lines@.map_values(|s: String| s@) =~= Seq::<Seq<char>>::empty());
        if lines.len() == 0 {
            return None;
        }
        let ghost views = lines@.map_values(|s: String| s@);
        let mut data = String::new();
        let mut k: usize = 0;
        while k < lines.len()
            invariant
                views == lines@.map_values(|s: String| s@),
                0 < lines@.len(),
                k <= lines@.len(),
                k == 0 ==> data@ == Seq::<char>::empty(),
                k > 0 ==> data@ == join_lines(views.take(k as int)),
            decreases lines@.len() - k,
        {
            if k > 0 {
                proof { reveal_strlit("\n"); }
                data.append("\n");
                assert(views.take(k + 1).drop_last() =~= views.take(k as int));
            } else {
                assert(views.take(1).len() == 1);
            }
            data.append(lines[k].as_str());
            k = k + 1;
        }
        assert(views.take(lines@.len() as int) =~= views);
        let done = "[DONE]".to_owned();
        if data == done {
            Some(SseEvent::Done)
        } else {
            Some(SseEvent::Frame(SseFrame { event, id, data }))
        }
    }

    /// Takes one line, its line feed already removed, into the frame.
    #[verifier::rlimit(50)]
    #[verifier::spinoff_prover]
    fn consume_line(&mut self, line: &[u8]) -> (r: Result<Option<SseEvent>, ProviderError>)
        ensures
            final(self)@ == consume_line_state(old(self)@, line@),
            match consume_line(old(self)@, line@) {
                Err(f) => r matches Err(e) && e@ == failure_error(f),
                Ok((p, ev)) => r matches Ok(x) && opt_view(x) == ev && final(self)@ == p,
            },
    {
        let ghost old_p = self@;
        let mut end = line.len();
        if end > 0 && line[end - 1] == 13u8 {
            end = end - 1;
        }
        let ghost stripped = strip_cr(line@);
        assert(stripped =~= line@.subrange(0, end as int));
        let cost: usize = if end == usize::MAX { usize::MAX } else { end + 1 };
        if self.frame_size > usize::MAX - cost {
            return Err(ProviderError::Protocol("SSE frame 大小溢出".to_owned()));
        }
        self.frame_size = self.frame_size + cost;
        if self.frame_size > MAX_SSE_FRAME_SIZE {
            return Err(ProviderError::Protocol("SSE frame 超过大小限制".to_owned()));
        }
        if end == 0 {
            return Ok(self.dispatch_frame());
        }
        if line[0] == 58u8 {
            return Ok(None);
        }
        // Locate the first colon of the line.
        let mut c: usize = 0;
        while c < end && line[c] != 58u8
            invariant
                end <= line@.len(),
                c <= end,
                forall|j: int| 0 <= j < c ==> line@[j] != 58u8,
            decreases end - c,
        {
            c = c + 1;
        }
        let field_end;
        let mut value_start;
        if c < end {
            proof { lemma_first_index_found(stripped, 58u8, c as int); }
            field_end = c;
            value_start = c + 1;
        } else {
            proof { lemma_first_index_absent(stripped, 58u8); }
            field_end = end;
            value_start = end;
        }
        if value_start < end && line[value_start] == 32u8 {
            value_start = value_start + 1;
        }
        let field_bytes = &line[0..field_end];
        let value_bytes = &line[value_start..end];
        assert(field_bytes@ =~= field_part(stripped));
        assert(value_bytes@ =~= value_part(stripped));
        let field_ok = utf8_text(field_bytes);
        if field_ok.is_none() {
            return Err(ProviderError::Protocol("SSE 字段不是 UTF-8".to_owned()));
        }
        let value = match utf8_text(value_bytes) {
            Some(v) => v,
            None => {
                return Err(ProviderError::Protocol("SSE 数据不是 UTF-8".to_owned()));
            },
        };
        if bytes_equal(line, 0, field_end, &[100u8, 97u8, 116u8, 97u8]) {
            assert(seq![100u8, 97u8, 116u8, 97u8] =~= data_field());
            self.data_lines.push(value);
            assert(self@.data_lines =~= old_p.data_lines.push(decode_utf8(value_bytes@)));
        } else if bytes_equal(line, 0, field_end, &[101u8, 118u8, 101u8, 110u8, 116u8]) {
            assert(seq![101u8, 118u8, 101u8, 110u8, 116u8] =~= event_field());
            assert(field_bytes@ != data_field());
            self.event = Some(value);
        } else if bytes_equal(line, 0, field_end, &[105u8, 100u8]) {
            assert(seq![105u8, 100u8] =~= id_field());
            assert(field_bytes@ != data_field());
            assert(field_bytes@ != event_field());
            self.id = Some(value);
        } else {
            assert(seq![100u8, 97u8, 116u8, 97u8] =~= data_field());
            assert(seq![101u8, 118u8, 101u8, 110u8, 116u8] =~= event_field());
            assert(seq![105u8, 100u8] =~= id_field());
        }
        Ok(None)
    }
}

/// Adds the events `prefix` in front of the events of an outcome.
pub open spec fn prepend_events(
    prefix: Seq<SseEventView>,
    r: Result<(PendingFrame, Seq<SseEventView>, Seq<u8>), SseFailure>,
) -> Result<(PendingFrame, Seq<SseEventView>, Seq<u8>), SseFailure> {
    match r {
        Err(f) => Err(f),
        Ok((p, e, rest)) => Ok((p, prefix + e, rest)),
    }
}

/// An incremental SSE decoder.
#[derive(Debug, Default)]
pub struct SseDecoder {
    buffer: Vec<u8>,
    pending: Pending,
}

impl View for SseDecoder {
    type V = SseDecoderView;

    closed spec fn view(&self) -> SseDecoderView {
        SseDecoderView { buffer: self.buffer@, pending: self.pending@ }
    }
}

/// The state of a decoder that has seen nothing.
pub open spec fn initial_decoder() -> SseDecoderView {
    SseDecoderView { buffer: Seq::empty(), pending: empty_pending() }
}

impl SseDecoder {
    /// An empty decoder.
    pub fn new() -> (r: SseDecoder)
        ensures
            r@ == initial_decoder(),
    {
        SseDecoder { buffer: Vec::new(), pending: Pending::new() }
    }

    /// Pushes an arbitrary chunk of network bytes and returns the events that blank lines
    /// completed in it.
    pub fn push(&mut self, bytes: &[u8]) -> (r: Result<Vec<SseEvent>, ProviderError>)
        ensures
            final(self)@ == push_state(old(self)@, bytes@),
            match push_result(old(self)@, bytes@) {
                Err(f) => r matches Err(e) && e@ == failure_error(f),
                Ok((d, evs)) => r matches Ok(v) && events_view(v@) == evs && final(self)@ == d,
            },
    {
        let ghost old_d = self@;
        let mut k: usize = 0;
        while k < bytes.len()
            invariant
                k <= bytes@.len(),
                self.buffer@ == old_d.buffer + bytes@.take(k as int),
                self.pending@ == old_d.pending,
            decreases bytes@.len() - k,
        {
            self.buffer.push(bytes[k]);
            assert(old_d.buffer + bytes@.take(k + 1) =~= (old_d.buffer + bytes@.take(k as int)).push(
                bytes@[k as int],
            ));
            k = k + 1;
        }
        assert(bytes@.take(bytes@.len() as int) =~= bytes@);
        let (result, start) = process_buffer(&mut self.pending, self.buffer.as_slice());
        let ghost full = self.buffer@;
        proof { lemma_process_state_ok(old_d.pending, full); }
        let mut rest: Vec<u8> = Vec::new();
        let mut j: usize = start;
        while j < self.buffer.len()
            invariant
                self.buffer@ == full,
                start <= j <= full.len(),
                rest@ == full.subrange(start as int, j as int),
            decreases full.len() - j,
        {
            rest.push(self.buffer[j]);
            assert(full.subrange(start as int, j + 1) =~= full.subrange(start as int, j as int).push(
                full[j as int],
            ));
            j = j + 1;
        }
        self.buffer = rest;
        let events = match result {
            Ok(events) => events,
            Err(e) => {
                return Err(e);
            },
        };
        if self.buffer.len() > MAX_SSE_FRAME_SIZE {
            return Err(ProviderError::Protocol("SSE 行超过大小限制".to_owned()));
        }
        Ok(events)
    }

    /// Flushes the last line and an unterminated frame when the connection reaches EOF.
    ///
    /// The OpenAI-compatible parser still checks that both a finish and `[DONE]` were seen.
    pub fn finish(&mut self) -> (r: Result<Vec<SseEvent>, ProviderError>)
        ensures
            r is Err ==> final(self)@ == (SseDecoderView {
                buffer: Seq::empty(),
                pending: consume_line_state(old(self)@.pending, old(self)@.buffer),
            }),
            match finish_result(old(self)@) {
                Err(f) => r matches Err(e) && e@ == failure_error(f),
                Ok((d, evs)) => r matches Ok(v) && events_view(v@) == evs && final(self)@ == d,
            },
    {
        let ghost old_d = self@;
        let mut events: Vec<SseEvent> = Vec::new();
        if self.buffer.len() > 0 {
            let mut line: Vec<u8> = Vec::new();
            std::mem::swap(&mut line, &mut self.buffer);
            match self.pending.consume_line(line.as_slice()) {
                Err(e) => {
                    return Err(e);
                },
                Ok(Some(ev)) => {
                    events.push(ev);
                },
                Ok(None) => {},
            }
        }
        let ghost mid = events_view(events@);
        assert(mid =~= opt_seq(if old_d.buffer.len() > 0 {
            consume_line(old_d.pending, old_d.buffer)->Ok_0.1
        } else {
            None
        }));
        if self.pending.data_lines.len() > 0 || self.pending.event.is_some()
            || self.pending.id.is_some() {
            match self.pending.dispatch_frame() {
                Some(ev) => {
                    events.push(ev);
                    assert(events_view(events@) =~= mid + seq![ev@]);
                },
                None => {
                    assert(events_view(events@) =~= mid + Seq::<SseEventView>::empty());
                },
            }
        }
        assert(self.buffer@ =~= Seq::<u8>::empty());
        Ok(events)
    }
}

/// The view of an optional event.
pub open spec fn opt_view(e: Option<SseEvent>) -> Option<SseEventView> {
    match e {
        Some(x) => Some(x@),
        None => None,
    }
}

/// What line processing leaves over holds no line feed.
proof fn lemma_process_rest_has_no_line_feed(p: PendingFrame, buf: Seq<u8>)
    ensures
        process_lines(p, buf) matches Ok((_, _, rest)) ==> first_index_of(rest, 10u8) is None,
    decreases buf.len(),
{
    lemma_first_index_bounds(buf, 10u8);
    match first_index_of(buf, 10u8) {
        None => {},
        Some(i) => {
            match consume_line(p, buf.subrange(0, i)) {
                Err(_) => {},
                Ok((p1, _)) => {
                    lemma_process_rest_has_no_line_feed(p1, buf.subrange(i + 1, buf.len() as int));
                },
            }
        },
    }
}

/// Two line feeds: a blank line after whatever is unfinished.
pub open spec fn closing_blank_line() -> Seq<u8> {
    seq![10u8, 10u8]
}

/// At end of input the decoder flushes as if a blank line followed: pushing `bytes` and then
/// finishing gives the same events as pushing `bytes` followed by two line feeds and then
/// finishing, whenever both pushes and the first finish succeed (the second finish then
/// succeeds too; the closing line feeds count toward the frame budget when pushed, not when
/// flushed).
pub proof fn law_finish_is_a_closing_blank_line(d0: SseDecoderView, bytes: Seq<u8>)
    requires
        push_result(d0, bytes) is Ok,
        push_result(d0, bytes + closing_blank_line()) is Ok,
        finish_result(push_result(d0, bytes)->Ok_0.0) is Ok,
    ensures
        ({
            let pushed = push_result(d0, bytes)->Ok_0;
            let closed = push_result(d0, bytes + closing_blank_line());
            &&& closed is Ok
            &&& finish_result(closed->Ok_0.0) is Ok
            &&& pushed.1 + finish_result(pushed.0)->Ok_0.1 == closed->Ok_0.1 + finish_result(
                closed->Ok_0.0,
            )->Ok_0.1
        }),
{
    let d = push_result(d0, bytes)->Ok_0.0;
    let nl = closing_blank_line();
    lemma_process_append(d0.pending, d0.buffer + bytes, nl);
    assert(d0.buffer + (bytes + nl) =~= (d0.buffer + bytes) + nl);
    assert(process_lines(d.pending, d.buffer + nl) is Ok);
    lemma_process_rest_has_no_line_feed(d0.pending, d0.buffer + bytes);
    let b = d.buffer;
    lemma_first_index_bounds(b, 10u8);
    let buf = b + nl;
    lemma_first_index_found(buf, 10u8, b.len() as int);
    assert(buf.subrange(0, b.len() as int) =~= b);
    let tail = buf.subrange(b.len() as int + 1, buf.len() as int);
    assert(tail =~= seq![10u8]);
    lemma_first_index_found(tail, 10u8, 0);
    assert(tail.subrange(0, 0) =~= Seq::<u8>::empty());
    let tail2 = tail.subrange(1, 1);
    assert(tail2 =~= Seq::<u8>::empty());
    assert(strip_cr(Seq::<u8>::empty()) =~= Seq::<u8>::empty());
    let r1 = consume_line(d.pending, b);
    assert(r1 is Ok) by {
        if r1 is Err {
            assert(process_lines(d.pending, buf) is Err);
        }
    }
    let (p1, ev1) = r1->Ok_0;
    let r2 = consume_line(p1, Seq::<u8>::empty());
    assert(r2 is Ok) by {
        if r2 is Err {
            assert(process_lines(p1, tail) is Err);
            assert(process_lines(d.pending, buf) is Err);
        }
    }
    let (p2, ev2) = r2->Ok_0;
    assert(process_lines(p2, tail2) == Ok::<(PendingFrame, Seq<SseEventView>, Seq<u8>), SseFailure>(
        (p2, Seq::empty(), tail2),
    ));
    assert(process_lines(p1, tail) == Ok::<(PendingFrame, Seq<SseEventView>, Seq<u8>), SseFailure>(
        (p2, opt_seq(ev2) + Seq::empty(), tail2),
    ));
    assert(process_lines(d.pending, buf) == Ok::<(PendingFrame, Seq<SseEventView>, Seq<u8>), SseFailure>(
        (p2, opt_seq(ev1) + (opt_seq(ev2) + Seq::empty()), tail2),
    ));
    let after = push_result(d, nl)->Ok_0;
    assert(after.0 == SseDecoderView { buffer: tail2, pending: p2 });
    assert(after.1 == opt_seq(ev1) + (opt_seq(ev2) + Seq::<SseEventView>::empty()));
    assert(p2 == empty_pending());
    let fin = finish_result(d)->Ok_0.1;
    if b.len() > 0 {
        assert(fin =~= after.1);
    } else {
        assert(b =~= Seq::<u8>::empty());
        assert(ev2 is None);
        assert(fin =~= after.1);
    }
    assert(finish_result(after.0)->Ok_0.1 =~= Seq::<SseEventView>::empty());
    law_push_chunking(d0, bytes, nl);
    let closed = push_result(d0, bytes + nl)->Ok_0;
    assert(push_result(d0, bytes)->Ok_0.1 + fin =~= closed.1 + finish_result(closed.0)->Ok_0.1);
}

} // verus!
