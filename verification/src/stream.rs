//! A byte stream held in memory: the bytes of zero or more responses, read
//! from the front.

use crate::line::{line_len, LF};
use vstd::prelude::*;

verus! {

/// A stream over bytes that were received already. Reads take bytes from the
/// front and never give them back.
pub struct ByteStream {
    data: Vec<u8>,
    pos: usize,
}

impl View for ByteStream {
    type V = Seq<u8>;

    /// The bytes that are still to be read.
    closed spec fn view(&self) -> Seq<u8> {
        self.data@.skip(self.pos as int)
    }
}

impl ByteStream {
    #[verifier::type_invariant]
    spec fn in_bounds(self) -> bool {
        self.pos <= self.data.len()
    }

    /// A stream that holds `data`, positioned at its first byte.
    pub fn new(data: Vec<u8>) -> (stream: ByteStream)
        ensures
            stream@ == data@,
    {
        let stream = ByteStream { data, pos: 0 };
        assert(stream@ =~= data@);
        stream
    }

    /// The number of bytes that are still to be read.
    pub fn remaining(&self) -> (n: usize)
        ensures
            n == self@.len(),
    {
        proof {
            use_type_invariant(self);
        }
        self.data.len() - self.pos
    }

    /// Reads exactly `n` bytes. Where the stream holds fewer, the read fails:
    /// it returns `None` and leaves the stream drained.
    pub fn read_exact(&mut self, n: usize) -> (chunk: Option<Vec<u8>>)
        ensures
            match chunk {
                Some(bytes) => {
                    &&& old(self)@.len() >= n
                    &&& bytes@ == old(self)@.take(n as int)
                    &&& final(self)@ == old(self)@.skip(n as int)
                },
                None => old(self)@.len() < n && final(self)@ == Seq::<u8>::empty(),
            },
    {
        proof {
            use_type_invariant(&*self);
        }
        if self.data.len() - self.pos < n {
            self.pos = self.data.len();
            assert(self@ =~= Seq::<u8>::empty());
            return None;
        }
        let end: usize = self.pos + n;
        let bytes = self.copy_out(end);
        Some(bytes)
    }

    /// Reads up to and including the next line feed, or to the end of the
    /// stream where no line feed is left. This read never fails.
    pub fn read_line(&mut self) -> (line: Vec<u8>)
        ensures
            line@ == old(self)@.take(line_len(old(self)@) as int),
            final(self)@ == old(self)@.skip(line_len(old(self)@) as int),
    {
        proof {
            use_type_invariant(&*self);
        }
        let mut end: usize = self.pos;
        let mut found: bool = false;
        while !found && end < self.data.len()
            invariant
                self.pos <= end <= self.data.len(),
                line_len(self@) == (end - self.pos) + if found {
                    0
                } else {
                    line_len(self.data@.skip(end as int))
                },
            decreases self.data.len() - end + if found { 0int } else { 1int },
        {
            let ghost rest = self.data@.skip(end as int);
            assert(rest.drop_first() =~= self.data@.skip(end + 1));
            assert(rest[0] == self.data@[end as int]);
            if self.data[end] == LF {
                found = true;
            }
            end = end + 1;
        }
        self.copy_out(end)
    }

    /// Hands out the bytes from the position up to `end`, and moves the
    /// position there.
    fn copy_out(&mut self, end: usize) -> (bytes: Vec<u8>)
        requires
            old(self).pos <= end <= old(self).data.len(),
        ensures
            bytes@ == old(self)@.take(end - old(self).pos),
            final(self)@ == old(self)@.skip(end - old(self).pos),
            final(self).data == old(self).data,
            final(self).pos == end,
    {
        let mut bytes: Vec<u8> = Vec::new();
        let mut i: usize = self.pos;
        while i < end
            invariant
                self.pos <= i <= end <= self.data.len(),
                bytes@ == self.data@.subrange(self.pos as int, i as int),
            decreases end - i,
        {
            bytes.push(self.data[i]);
            assert(bytes@ =~= self.data@.subrange(self.pos as int, i + 1));
            i = i + 1;
        }
        assert(bytes@ =~= self@.take(end - self.pos));
        assert(self.data@.skip(end as int) =~= self@.skip(end - self.pos));
        self.pos = end;
        bytes
    }
}

} // verus!
