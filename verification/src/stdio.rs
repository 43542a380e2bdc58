//! Framing of the newline-delimited JSON-RPC transport on standard input and output.
//!
//! A frame is one line. The reader never holds more than `MAX_FRAME_BYTES` of a line: once a
//! line outgrows the limit, the rest of it is only skipped up to its newline, so that it cannot
//! spoil the next frame.

use vstd::prelude::*;

use crate::text::decimal;

verus! {

/// `std::io::Error`, held opaque.
#[verifier::external_type_specification]
#[verifier::external_body]
pub struct ExIoError(std::io::Error);

/// `tokio::task::JoinError`, held opaque.
#[verifier::external_type_specification]
#[verifier::external_body]
pub struct ExJoinError(tokio::task::JoinError);

/// The largest number of bytes of one request line, so that the transport never reads
/// without bound.
pub const MAX_FRAME_BYTES: usize = 1048576;

/// One line read from the transport.
#[derive(Debug, Clone, PartialEq, Eq)]
pub enum ReadFrame {
    /// The bytes of a line within the limit, with its newline when it had one.
    Data(Vec<u8>),
    /// A line over the limit; its bytes were skipped.
    Oversized,
}

/// A `ReadFrame` with its bytes taken as a sequence.
pub enum ReadFrameView {
    Data(Seq<u8>),
    Oversized,
}

impl View for ReadFrame {
    type V = ReadFrameView;

    open spec fn view(&self) -> ReadFrameView {
        match self {
            ReadFrame::Data(b) => ReadFrameView::Data(b@),
            ReadFrame::Oversized => ReadFrameView::Oversized,
        }
    }
}

/// The frame a whole line gives: its bytes when they fit within the limit, `Oversized` when
/// they do not.
pub open spec fn frame_of(line: Seq<u8>) -> ReadFrameView {
    if line.len() > MAX_FRAME_BYTES {
        ReadFrameView::Oversized
    } else {
        ReadFrameView::Data(line)
    }
}

/// The position of the first newline in `bytes`, if any.
pub open spec fn first_newline(bytes: Seq<u8>) -> Option<int> {
    if exists|i: int| 0 <= i < bytes.len() && bytes[i] == 10u8 {
        Some(choose|i: int| 0 <= i < bytes.len() && bytes[i] == 10u8 && forall|j: int| 0 <= j < i ==> bytes[j] != 10u8)
    } else {
        None
    }
}

/// How many bytes of a buffer belong to the current line: up to and with its first newline,
/// or all of them.
pub open spec fn consumed_of(bytes: Seq<u8>) -> int {
    match first_newline(bytes) {
        Some(i) => i + 1,
        None => bytes.len() as int,
    }
}

/// The position of the first newline in `bytes`, if any.
fn find_newline(bytes: &[u8]) -> (r: Option<usize>)
    ensures
        match r {
            Some(k) => first_newline(bytes@) == Some(k as int) && k < bytes@.len(),
            None => first_newline(bytes@) is None,
        },
{
    let ghost b = bytes@;
    let mut i: usize = 0;
    while i < bytes.len()
        invariant
            b == bytes@,
            i <= b.len(),
            forall|j: int| 0 <= j < i ==> b[j] != 10u8,
        decreases b.len() - i,
    {
        if bytes[i] == 10u8 {
            proof {
                let c = choose|c: int|
                    0 <= c < b.len() && b[c] == 10u8 && forall|j: int| 0 <= j < c ==> b[j] != 10u8;
                if c < i {
                    assert(b[c] != 10u8);
                }
                if c > i {
                    assert(b[i as int] != 10u8);
                }
            }
            return Some(i);
        }
        i = i + 1;
    }
    None
}

/// Assembles one line at a time from the buffers a reader offers.
pub struct FrameAssembler {
    frame: Vec<u8>,
    oversized: bool,
    line: Ghost<Seq<u8>>,
}

impl FrameAssembler {
    /// The bytes of the current line consumed so far, all of them, also those that were
    /// skipped.
    pub closed spec fn line(&self) -> Seq<u8> {
        self.line@
    }

    /// The assembler's invariant: it keeps the current line only while the line fits, and so
    /// never holds more than `MAX_FRAME_BYTES`.
    pub closed spec fn well_formed(&self) -> bool {
        &&& self.frame@.len() <= MAX_FRAME_BYTES
        &&& self.oversized == (self.line@.len() > MAX_FRAME_BYTES)
        &&& !self.oversized ==> self.frame@ == self.line@
    }

    /// The number of bytes the assembler holds.
    pub closed spec fn held(&self) -> nat {
        self.frame@.len()
    }

    /// An assembler at the start of a line.
    pub fn new() -> (r: FrameAssembler)
        ensures
            r.well_formed(),
            r.line().len() == 0,
    {
        FrameAssembler { frame: Vec::new(), oversized: false, line: Ghost(Seq::empty()) }
    }

    /// Takes the bytes of `buffer` that belong to the current line and returns how many it
    /// took; when the line ends with them, also the line's frame, and the assembler starts the
    /// next line.
    pub fn on_buffer(&mut self, buffer: &[u8]) -> (r: (usize, Option<ReadFrame>))
        requires
            old(self).well_formed(),
            buffer@.len() > 0,
        ensures
            final(self).well_formed(),
            final(self).held() <= MAX_FRAME_BYTES,
            r.0 == consumed_of(buffer@),
            ({
                let line = old(self).line() + buffer@.subrange(0, r.0 as int);
                match first_newline(buffer@) {
                    Some(_) => final(self).line().len() == 0 && (r.1 matches Some(f) && f@
                        == frame_of(line)),
                    None => final(self).line() == line && r.1 is None,
                }
            }),
    {
        let n = buffer.len();
        let newline = find_newline(buffer);
        let ghost b = buffer@;
        assert(n == b.len());
        let consumed = match newline {
            Some(k) => k + 1,
            None => n,
        };
        assert(consumed <= b.len());
        let ghost line = self.line@ + b.subrange(0, consumed as int);
        if !self.oversized {
            let remaining = MAX_FRAME_BYTES - self.frame.len();
            if consumed > remaining {
                self.oversized = true;
            } else {
                let piece = vstd::slice::slice_subrange(buffer, 0, consumed);
                let mut extra: Vec<u8> = Vec::new();
                let mut i: usize = 0;
                while i < piece.len()
                    invariant
                        i <= piece@.len(),
                        extra@ == piece@.subrange(0, i as int),
                    decreases piece@.len() - i,
                {
                    extra.push(piece[i]);
                    assert(piece@.subrange(0, i + 1) =~= piece@.subrange(0, i as int).push(piece@[i as int]));
                    i = i + 1;
                }
                assert(piece@.subrange(0, piece@.len() as int) =~= piece@);
                self.frame.append(&mut extra);
            }
        }
        self.line = Ghost(line);
        match newline {
            Some(_) => {
                let frame = if self.oversized {
                    ReadFrame::Oversized
                } else {
                    let mut out: Vec<u8> = Vec::new();
                    std::mem::swap(&mut out, &mut self.frame);
                    ReadFrame::Data(out)
                };
                self.frame = Vec::new();
                self.oversized = false;
                self.line = Ghost(Seq::empty());
                (consumed, Some(frame))
            },
            None => (consumed, None),
        }
    }

    /// Ends the input: the unfinished last line, if anything of it was read, is its frame.
    pub fn on_eof(&mut self) -> (r: Option<ReadFrame>)
        requires
            old(self).well_formed(),
        ensures
            final(self).well_formed(),
            final(self).line().len() == 0,
            old(self).line().len() == 0 ==> r is None,
            old(self).line().len() > 0 ==> (r matches Some(f) && f@ == frame_of(old(self).line())),
    {
        let r = if self.oversized {
            Some(ReadFrame::Oversized)
        } else if self.frame.len() == 0 {
            None
        } else {
            let mut out: Vec<u8> = Vec::new();
            std::mem::swap(&mut out, &mut self.frame);
            Some(ReadFrame::Data(out))
        };
        self.frame = Vec::new();
        self.oversized = false;
        self.line = Ghost(Seq::empty());
        r
    }
}

/// `bytes` without one trailing `\n` and then without one trailing `\r`.
pub open spec fn without_line_ending(bytes: Seq<u8>) -> Seq<u8> {
    let a = if bytes.len() > 0 && bytes.last() == 10u8 {
        bytes.drop_last()
    } else {
        bytes
    };
    if a.len() > 0 && a.last() == 13u8 {
        a.drop_last()
    } else {
        a
    }
}

/// `bytes` without its line ending: one `\n`, then one `\r`, each when present.
pub fn trim_line_ending(bytes: &[u8]) -> (r: &[u8])
    ensures
        r@ == without_line_ending(bytes@),
{
    let n = bytes.len();
    let n = if n > 0 && bytes[n - 1] == 10u8 {
        n - 1
    } else {
        n
    };
    let n = if n > 0 && bytes[n - 1] == 13u8 {
        n - 1
    } else {
        n
    };
    let r = vstd::slice::slice_subrange(bytes, 0, n);
    proof {
        let b = bytes@;
        let a = if b.len() > 0 && b.last() == 10u8 {
            b.drop_last()
        } else {
            b
        };
        assert(a =~= b.subrange(0, a.len() as int));
        if a.len() > 0 && a.last() == 13u8 {
            assert(a.drop_last() =~= b.subrange(0, a.len() - 1));
        }
    }
    r
}

/// The text of the error for a request line over the limit.
pub open spec fn oversized_text() -> Seq<char> {
    "request frame exceeds "@ + decimal(MAX_FRAME_BYTES as nat) + " bytes"@
}

/// The text of the error for a request line over the limit.
pub fn oversized_message() -> (r: String)
    ensures
        r@ == oversized_text(),
{
    let mut r = "request frame exceeds ".to_owned();
    crate::text::push_decimal(&mut r, MAX_FRAME_BYTES as u64);
    r.append(" bytes");
    r
}

/// The text of a `tokio::task::JoinError`, from its `Display` implementation. Nothing is
/// claimed of the text.
#[verifier::external_body]
fn join_error_text(error: &tokio::task::JoinError) -> String {
    format!("{error}")
}

/// `std::io::Error::other` with the message `message`. Nothing is claimed of the error.
#[verifier::external_body]
fn io_error_other(message: String) -> std::io::Error {
    std::io::Error::other(message)
}

/// The message of the I/O error that reports a failed transport task, given the text of the
/// task's failure.
pub fn join_failure_message(failure: &str) -> (r: String)
    ensures
        r@ == "stdio task failed: "@ + failure@,
{
    let mut message = "stdio task failed: ".to_owned();
    message.append(failure);
    message
}

/// The outcome of a transport task: what the task returned, or an I/O error that says the
/// task itself failed, with the message `join_failure_message` makes of the failure's text.
pub fn join_result(result: Result<std::io::Result<()>, tokio::task::JoinError>) -> (r: std::io::Result<()>)
    ensures
        result matches Ok(inner) ==> r == inner,
        result is Err ==> r is Err,
{
    match result {
        Ok(inner) => inner,
        Err(error) => {
            let text = join_error_text(&error);
            Err(io_error_other(join_failure_message(text.as_str())))
        },
    }
}

} // verus!
