//! One decoding session, as a sequence of reads and decisions.
//!
//! The decoder never touches a stream. It says what to read next, takes the
//! bytes that were read, and either moves to the next phase or finishes. Who
//! owns the stream serves the requests; a failed read ends the session there
//! and is reported by the owner of the stream.

use crate::data::{KsData, KsValue};
use crate::error::DecodeError;
use crate::length::{declared_length, digit_count, digit_value, is_digit, parse_length};
use crate::line::{lemma_line_len_bound, line_len, remove_newline, strip_newline};
use crate::text::{read_text, text_value};
use crate::wire::{closed_early, decode, Decoded, HASH};
use vstd::prelude::*;

verus! {

/// What the decoder needs from the stream next.
#[derive(Debug, Clone, Copy, PartialEq, Eq, Structural)]
pub enum Request {
    /// Exactly this many bytes.
    Exact(usize),
    /// The bytes up to and including the next line feed.
    Line,
}

/// Where a decoding session stands.
#[derive(Debug, Clone, PartialEq)]
pub enum Phase {
    /// Nothing was read yet; the lead byte comes next.
    Lead,
    /// The lead byte opened a text response; the rest of the line comes next.
    TextLine { lead: u8 },
    /// The lead byte was `#`; the digit count comes next.
    DigitCount,
    /// The length field, of `digits` bytes, comes next.
    LengthField { digits: usize },
    /// The payload, of `len` bytes, comes next.
    Payload { len: usize },
    /// The payload was read; the line terminator comes next.
    Terminator { payload: Vec<u8> },
}

/// A phase as a mathematical value.
pub enum PhaseView {
    Lead,
    TextLine { lead: u8 },
    DigitCount,
    LengthField { digits: usize },
    Payload { len: usize },
    Terminator { payload: Seq<u8> },
}

impl View for Phase {
    type V = PhaseView;

    open spec fn view(&self) -> PhaseView {
        match self {
            Phase::Lead => PhaseView::Lead,
            Phase::TextLine { lead } => PhaseView::TextLine { lead: *lead },
            Phase::DigitCount => PhaseView::DigitCount,
            Phase::LengthField { digits } => PhaseView::LengthField { digits: *digits },
            Phase::Payload { len } => PhaseView::Payload { len: *len },
            Phase::Terminator { payload } => PhaseView::Terminator { payload: payload@ },
        }
    }
}

/// What the decoder does with the bytes of one read.
#[derive(Debug, PartialEq)]
pub enum Step {
    /// More is to be read, in this phase.
    Continue(Phase),
    /// The session is over, with this outcome.
    Finish(Result<KsData, DecodeError>),
}

/// A step as a mathematical value.
pub enum StepView {
    Continue(PhaseView),
    Finish(Result<KsValue, DecodeError>),
}

impl View for Step {
    type V = StepView;

    open spec fn view(&self) -> StepView {
        match self {
            Step::Continue(phase) => StepView::Continue(phase@),
            Step::Finish(Ok(data)) => StepView::Finish(Ok(data@)),
            Step::Finish(Err(e)) => StepView::Finish(Err(*e)),
        }
    }
}

impl PhaseView {
    /// The read that this phase waits for.
    pub open spec fn request(self) -> Request {
        match self {
            PhaseView::Lead => Request::Exact(1),
            PhaseView::TextLine { .. } => Request::Line,
            PhaseView::DigitCount => Request::Exact(1),
            PhaseView::LengthField { digits } => Request::Exact(digits),
            PhaseView::Payload { len } => Request::Exact(len),
            PhaseView::Terminator { .. } => Request::Line,
        }
    }

    /// Whether `chunk` can be the answer to this phase's request: an exact
    /// read brings the number of bytes asked for, a line read any number.
    pub open spec fn answers(self, chunk: Seq<u8>) -> bool {
        match self.request() {
            Request::Exact(n) => chunk.len() == n,
            Request::Line => true,
        }
    }

    /// The step taken when the read of this phase brought `chunk`. A chunk
    /// that does not answer the request counts as a failed read.
    pub open spec fn advance(self, chunk: Seq<u8>) -> StepView {
        if !self.answers(chunk) {
            StepView::Finish(Err(DecodeError::IoError))
        } else {
            match self {
                PhaseView::Lead => {
                    if chunk[0] == HASH {
                        StepView::Continue(PhaseView::DigitCount)
                    } else {
                        StepView::Continue(PhaseView::TextLine { lead: chunk[0] })
                    }
                },
                PhaseView::TextLine { lead } => StepView::Finish(
                    text_value(strip_newline(seq![lead] + chunk)),
                ),
                PhaseView::DigitCount => {
                    if is_digit(chunk[0]) {
                        StepView::Continue(
                            PhaseView::LengthField { digits: digit_value(chunk[0]) as usize },
                        )
                    } else {
                        StepView::Finish(Err(DecodeError::InvalidLengthDigitCount))
                    }
                },
                PhaseView::LengthField { .. } => match declared_length(chunk) {
                    Some(n) => StepView::Continue(PhaseView::Payload { len: n as usize }),
                    None => StepView::Finish(Err(DecodeError::InvalidLengthField)),
                },
                PhaseView::Payload { .. } => StepView::Continue(
                    PhaseView::Terminator { payload: chunk },
                ),
                PhaseView::Terminator { payload } => {
                    if strip_newline(chunk).len() > 0 {
                        StepView::Finish(Err(DecodeError::TrailingGarbage))
                    } else {
                        StepView::Finish(Ok(KsValue::Bin(payload)))
                    }
                },
            }
        }
    }

    /// The number of reads that may still follow the read of this phase.
    pub open spec fn reads_left(self) -> nat {
        match self {
            PhaseView::Lead => 4,
            PhaseView::DigitCount => 3,
            PhaseView::LengthField { .. } => 2,
            PhaseView::Payload { .. } => 1,
            PhaseView::TextLine { .. } => 0,
            PhaseView::Terminator { .. } => 0,
        }
    }
}

impl Phase {
    /// The phase in which every session starts.
    pub fn start() -> (phase: Phase)
        ensures
            phase == Phase::Lead,
    {
        Phase::Lead
    }

    /// The read that this phase waits for.
    pub fn request(&self) -> (request: Request)
        ensures
            request == self@.request(),
    {
        match self {
            Phase::Lead => Request::Exact(1),
            Phase::TextLine { .. } => Request::Line,
            Phase::DigitCount => Request::Exact(1),
            Phase::LengthField { digits } => Request::Exact(*digits),
            Phase::Payload { len } => Request::Exact(*len),
            Phase::Terminator { .. } => Request::Line,
        }
    }

    /// Takes the bytes that the read of this phase brought, and decides: the
    /// next phase, or the outcome of the session.
    pub fn advance(self, chunk: Vec<u8>) -> (step: Step)
        ensures
            step@ == self@.advance(chunk@),
    {
        let ghost read = chunk@;
        let mut chunk = chunk;
        match self {
            Phase::Lead => {
                if chunk.len() != 1 {
                    return Step::Finish(Err(DecodeError::IoError));
                }
                let lead: u8 = chunk[0];
                if lead == HASH {
                    Step::Continue(Phase::DigitCount)
                } else {
                    Step::Continue(Phase::TextLine { lead })
                }
            },
            Phase::TextLine { lead } => {
                chunk.insert(0, lead);
                assert(chunk@ =~= seq![lead] + read);
                remove_newline(&mut chunk);
                Step::Finish(read_text(chunk))
            },
            Phase::DigitCount => {
                if chunk.len() != 1 {
                    return Step::Finish(Err(DecodeError::IoError));
                }
                match digit_count(chunk[0]) {
                    Some(digits) => Step::Continue(Phase::LengthField { digits }),
                    None => Step::Finish(Err(DecodeError::InvalidLengthDigitCount)),
                }
            },
            Phase::LengthField { digits } => {
                if chunk.len() != digits {
                    return Step::Finish(Err(DecodeError::IoError));
                }
                match parse_length(chunk.as_slice()) {
                    Some(len) => Step::Continue(Phase::Payload { len }),
                    None => Step::Finish(Err(DecodeError::InvalidLengthField)),
                }
            },
            Phase::Payload { len } => {
                if chunk.len() != len {
                    return Step::Finish(Err(DecodeError::IoError));
                }
                Step::Continue(Phase::Terminator { payload: chunk })
            },
            Phase::Terminator { payload } => {
                remove_newline(&mut chunk);
                if chunk.len() > 0 {
                    Step::Finish(Err(DecodeError::TrailingGarbage))
                } else {
                    Step::Finish(Ok(KsData::from_bin(payload)))
                }
            },
        }
    }
}

/// The bytes that a stream holding `rest` hands out for `request`, or `None`
/// where it closes before an exact read is complete.
pub open spec fn serve(request: Request, rest: Seq<u8>) -> Option<Seq<u8>> {
    match request {
        Request::Exact(n) => if rest.len() >= n {
            Some(rest.take(n as int))
        } else {
            None
        },
        Request::Line => Some(rest.take(line_len(rest) as int)),
    }
}

/// The outcome of a session that stands in `phase` and is served, read by
/// read, from a stream that holds `rest`. A read that the stream cannot
/// complete drains it and ends the session with `IoError`.
pub open spec fn run(phase: PhaseView, rest: Seq<u8>) -> Decoded
    decreases phase.reads_left(),
{
    match serve(phase.request(), rest) {
        None => closed_early(rest),
        Some(chunk) => match phase.advance(chunk) {
            StepView::Finish(result) => Decoded { result, consumed: chunk.len() },
            StepView::Continue(next) => {
                let later = run(next, rest.skip(chunk.len() as int));
                Decoded { result: later.result, consumed: chunk.len() + later.consumed }
            },
        },
    }
}

/// Every step that continues leaves fewer reads to come, so a session ends
/// after at most five reads.
pub proof fn lemma_advance_descends(phase: PhaseView, chunk: Seq<u8>)
    ensures
        phase.advance(chunk) matches StepView::Continue(next) ==> next.reads_left()
            < phase.reads_left(),
{
}

/// Whether a session that went on after `taken` bytes of a stream, and came
/// to `later`, has as a whole the outcome `whole`.
spec fn completes(taken: nat, later: Decoded, whole: Decoded) -> bool {
    later.result == whole.result && taken + later.consumed == whole.consumed
}

/// After a lead byte other than `#`, the line read completes a text response.
proof fn lemma_run_from_text_line(s: Seq<u8>)
    requires
        s.len() >= 1,
        s[0] != HASH,
    ensures
        completes(1, run(PhaseView::TextLine { lead: s[0] }, s.skip(1)), decode(s)),
{
    let rest = s.skip(1);
    lemma_line_len_bound(rest);
    let n = line_len(rest) as int;
    assert(seq![s[0]] + rest.take(n) =~= s.take(1 + n));
}

/// Where the payload of a block starts: after `#`, the digit count and the
/// length field.
spec fn payload_start(s: Seq<u8>) -> int {
    2 + digit_value(s[1]) as int
}

/// After the payload, the line read completes the block.
proof fn lemma_run_from_terminator(s: Seq<u8>, n: int)
    requires
        s.len() >= 2,
        s[0] == HASH,
        is_digit(s[1]),
        s.len() >= payload_start(s),
        declared_length(s.subrange(2, payload_start(s))) == Some(n as nat),
        0 <= n,
        s.len() >= payload_start(s) + n,
    ensures
        completes(
            (payload_start(s) + n) as nat,
            run(
                PhaseView::Terminator {
                    payload: s.subrange(payload_start(s), payload_start(s) + n),
                },
                s.skip(payload_start(s) + n),
            ),
            decode(s),
        ),
{
    let tail = payload_start(s) + n;
    let rest = s.skip(tail);
    lemma_line_len_bound(rest);
    let m = line_len(rest) as int;
    assert(rest.take(m) =~= s.subrange(tail, tail + m));
}

/// After the length field, the payload and the terminator complete the block.
proof fn lemma_run_from_payload(s: Seq<u8>, n: int)
    requires
        s.len() >= 2,
        s[0] == HASH,
        is_digit(s[1]),
        s.len() >= payload_start(s),
        0 <= n,
        declared_length(s.subrange(2, payload_start(s))) == Some(n as nat),
    ensures
        completes(
            payload_start(s) as nat,
            run(PhaseView::Payload { len: n as usize }, s.skip(payload_start(s))),
            decode(s),
        ),
{
    let body = payload_start(s);
    let rest = s.skip(body);
    if s.len() >= body + n {
        lemma_run_from_terminator(s, n);
        assert(rest.take(n) =~= s.subrange(body, body + n));
        assert(rest.skip(n) =~= s.skip(body + n));
    }
}

/// After the digit count, the session reads the rest of the block.
proof fn lemma_run_from_length_field(s: Seq<u8>)
    requires
        s.len() >= 2,
        s[0] == HASH,
        is_digit(s[1]),
    ensures
        completes(
            2,
            run(PhaseView::LengthField { digits: digit_value(s[1]) as usize }, s.skip(2)),
            decode(s),
        ),
{
    let k = digit_value(s[1]) as int;
    let rest = s.skip(2);
    if s.len() >= 2 + k {
        assert(rest.take(k) =~= s.subrange(2, 2 + k));
        assert(rest.skip(k) =~= s.skip(2 + k));
        match declared_length(s.subrange(2, 2 + k)) {
            Some(n) => {
                lemma_run_from_payload(s, n as int);
            },
            None => {},
        }
    }
}

/// After the lead byte `#`, the session reads the rest of the block.
proof fn lemma_run_from_digit_count(s: Seq<u8>)
    requires
        s.len() >= 1,
        s[0] == HASH,
    ensures
        completes(1, run(PhaseView::DigitCount, s.skip(1)), decode(s)),
{
    let rest = s.skip(1);
    if s.len() >= 2 {
        assert(rest.take(1)[0] == s[1]);
        assert(rest.skip(1) =~= s.skip(2));
        if is_digit(s[1]) {
            lemma_run_from_length_field(s);
        }
    }
}

/// A session served faithfully from a stream decodes the response that the
/// wire format puts at the front of that stream, and takes exactly its bytes.
pub proof fn lemma_run_decodes(s: Seq<u8>)
    ensures
        run(PhaseView::Lead, s) == decode(s),
{
    if s.len() >= 1 {
        assert(s.take(1)[0] == s[0]);
        if s[0] == HASH {
            lemma_run_from_digit_count(s);
        } else {
            lemma_run_from_text_line(s);
        }
    }
}

} // verus!
