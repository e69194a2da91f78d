//! Reading one response from a stream.

use crate::data::{KsData, KsValue};
use crate::error::DecodeError;
use crate::line::lemma_line_len_bound;
use crate::session::{lemma_advance_descends, lemma_run_decodes, run, Phase, Request, Step};
use crate::stream::ByteStream;
use crate::wire::decode;
use vstd::prelude::*;

verus! {

/// The response decoder. It serves as a name for the format it reads and
/// carries no data: decoding keeps no state between one response and the next.
#[derive(Debug, Clone, Copy, PartialEq, Eq, Structural)]
pub enum KsHook {
    /// Text lines and definite-length binary blocks.
    Scpi,
}

impl KsHook {
    /// Reads one response from the front of `stream`.
    ///
    /// The outcome is the one that the wire format gives for the bytes the
    /// stream held, and the stream is left at the first byte after that
    /// response: nothing beyond its line terminator is taken. A read that the
    /// stream cannot complete gives `IoError` and leaves the stream drained.
    pub fn read(stream: &mut ByteStream) -> (result: Result<KsData, DecodeError>)
        ensures
            match result {
                Ok(data) => decode(old(stream)@).result == Ok::<KsValue, DecodeError>(data@),
                Err(e) => decode(old(stream)@).result == Err::<KsValue, DecodeError>(e),
            },
            final(stream)@ == old(stream)@.skip(decode(old(stream)@).consumed as int),
    {
        let ghost whole = stream@;
        let ghost mut taken: int = 0;
        let mut phase = Phase::start();
        proof {
            lemma_run_decodes(whole);
            assert(whole.skip(0) =~= whole);
        }
        loop
            invariant
                whole == old(stream)@,
                0 <= taken <= whole.len(),
                stream@ == whole.skip(taken),
                run(phase@, stream@).result == decode(whole).result,
                taken + run(phase@, stream@).consumed == decode(whole).consumed,
            decreases phase@.reads_left(),
        {
            let ghost before = stream@;
            let chunk = match phase.request() {
                Request::Exact(n) => match stream.read_exact(n) {
                    Some(bytes) => bytes,
                    None => {
                        proof {
                            assert(whole.skip(taken + before.len()) =~= Seq::<u8>::empty());
                        }
                        return Err(DecodeError::IoError);
                    },
                },
                Request::Line => stream.read_line(),
            };
            proof {
                lemma_advance_descends(phase@, chunk@);
                lemma_line_len_bound(before);
                assert(before.skip(chunk@.len() as int) =~= whole.skip(taken + chunk@.len()));
                taken = taken + chunk@.len();
            }
            match phase.advance(chunk) {
                Step::Finish(result) => {
                    return result;
                },
                Step::Continue(next) => {
                    phase = next;
                },
            }
        }
    }
}

} // verus!
