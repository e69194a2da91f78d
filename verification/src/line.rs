//! Line terminators: where a line read stops, and what is stripped from its end.

use vstd::prelude::*;

verus! {

/// Line feed, the byte that ends every response.
pub const LF: u8 = 0x0A;

/// Carriage return, which may precede the line feed.
pub const CR: u8 = 0x0D;

/// `s` without its line terminator: a trailing line feed is dropped, and a
/// carriage return directly before it is dropped too. A carriage return that
/// is not followed by the final line feed is data and stays.
pub open spec fn strip_newline(s: Seq<u8>) -> Seq<u8> {
    if s.len() >= 1 && s.last() == LF {
        if s.len() >= 2 && s[s.len() - 2] == CR {
            s.take(s.len() - 2)
        } else {
            s.take(s.len() - 1)
        }
    } else {
        s
    }
}

/// The number of bytes that a line read takes from the front of `s`: up to
/// and including the first line feed, or all of `s` where it holds none.
pub open spec fn line_len(s: Seq<u8>) -> nat
    decreases s.len(),
{
    if s.len() == 0 {
        0
    } else if s[0] == LF {
        1
    } else {
        1 + line_len(s.drop_first())
    }
}

/// The line terminator: a line feed, after a carriage return where `crlf`.
pub open spec fn terminator(crlf: bool) -> Seq<u8> {
    if crlf {
        seq![CR, LF]
    } else {
        seq![LF]
    }
}

/// Whether `s` holds no line feed.
pub open spec fn no_line_feed(s: Seq<u8>) -> bool {
    forall|i: int| 0 <= i < s.len() ==> #[trigger] s[i] != LF
}

/// Removes the line terminator from the end of `text` in place.
pub fn remove_newline(text: &mut Vec<u8>)
    ensures
        final(text)@ == strip_newline(old(text)@),
{
    match text.pop() {
        Some(last) => {
            if last == LF {
                match text.pop() {
                    Some(before) => {
                        if before != CR {
                            text.push(before);
                        }
                    },
                    None => {},
                }
            } else {
                text.push(last);
            }
        },
        None => {},
    }
    assert(text@ =~= strip_newline(old(text)@));
}

/// A line read never takes more than the stream holds.
pub proof fn lemma_line_len_bound(s: Seq<u8>)
    ensures
        line_len(s) <= s.len(),
    decreases s.len(),
{
    if s.len() > 0 && s[0] != LF {
        lemma_line_len_bound(s.drop_first());
    }
}

/// A line read stops after the first line feed.
pub proof fn lemma_line_len_stops(before: Seq<u8>, after: Seq<u8>)
    requires
        no_line_feed(before),
    ensures
        line_len(before + seq![LF] + after) == before.len() + 1,
    decreases before.len(),
{
    let s = before + seq![LF] + after;
    if before.len() == 0 {
        assert(s[0] == LF);
    } else {
        assert(s[0] == before[0]);
        assert(s.drop_first() =~= before.drop_first() + seq![LF] + after);
        assert(no_line_feed(before.drop_first())) by {
            assert forall|i: int| 0 <= i < before.drop_first().len() implies
                #[trigger] before.drop_first()[i] != LF by {
                assert(before.drop_first()[i] == before[i + 1]);
            }
        }
        lemma_line_len_stops(before.drop_first(), after);
    }
}

} // verus!
