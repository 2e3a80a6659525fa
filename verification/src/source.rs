//! The byte-stream capability that a multipart body is read from.
//!
//! A [`ByteSource`] yields the bytes of one fixed underlying stream,
//! `data()`, in chunks of any size the implementation likes; `pos()` is how
//! far it has been drained. The scanner is verified against this contract
//! alone, so boundary detection works for every chunking, including one
//! byte at a time. [`MemSource`] is the in-memory implementation.

use vstd::prelude::*;

verus! {

/// A failure of the underlying transport (socket, pipe, ...), carried
/// through unchanged as a message.
pub struct TransportError {
    pub message: String,
}

/// A blocking, sequential reader over a fixed byte stream.
pub trait ByteSource: Sized {
    /// The whole underlying stream, from its beginning.
    spec fn data(&self) -> Seq<u8>;

    /// How many bytes have been handed out so far.
    spec fn pos(&self) -> int;

    /// The source is in a usable state.
    spec fn wf(&self) -> bool;

    proof fn wf_bounds(&self)
        requires
            self.wf(),
        ensures
            0 <= self.pos() <= self.data().len(),
    ;

    /// Append the next chunk of the stream to `out`. A chunk is empty
    /// exactly when the stream is exhausted; on a transport error nothing
    /// is consumed.
    fn read_into(&mut self, out: &mut Vec<u8>) -> (r: Result<usize, TransportError>)
        requires
            old(self).wf(),
        ensures
            final(self).wf(),
            final(self).data() == old(self).data(),
            match r {
                Ok(n) => {
                    &&& final(self).pos() == old(self).pos() + n
                    &&& final(out)@ == old(out)@ + final(self).data().subrange(old(self).pos(), final(self).pos())
                    &&& (n == 0 <==> old(self).pos() == final(self).data().len())
                },
                Err(_) => final(self).pos() == old(self).pos() && final(out)@ == old(out)@,
            },
    ;
}

/// An in-memory byte source that delivers at most `chunk` bytes per read.
/// With `chunk == 1` it hands the stream over one byte at a time, which
/// exercises every refill path of the scanner.
pub struct MemSource {
    bytes: Vec<u8>,
    at: usize,
    chunk: usize,
}

impl MemSource {
    /// Wrap `bytes` as a source delivering at most `chunk` bytes per read.
    pub fn new(bytes: Vec<u8>, chunk: usize) -> (r: MemSource)
        requires
            chunk >= 1,
        ensures
            r.wf(),
            r.data() == bytes@,
            r.pos() == 0,
    {
        MemSource { bytes, at: 0, chunk }
    }
}

impl ByteSource for MemSource {
    closed spec fn data(&self) -> Seq<u8> {
        self.bytes@
    }

    closed spec fn pos(&self) -> int {
        self.at as int
    }

    closed spec fn wf(&self) -> bool {
        self.at <= self.bytes.len() && self.chunk >= 1
    }

    proof fn wf_bounds(&self) {
    }

    /// An in-memory read cannot fail.
    fn read_into(&mut self, out: &mut Vec<u8>) -> (r: Result<usize, TransportError>)
        ensures
            r is Ok,
    {
        let remaining: usize = self.bytes.len() - self.at;
        let n: usize = if self.chunk < remaining {
            self.chunk
        } else {
            remaining
        };
        let mut i: usize = 0;
        while i < n
            invariant
                self.at + n <= self.bytes.len(),
                0 <= i <= n,
                self.bytes@ == old(self).bytes@,
                self.at == old(self).at,
                self.chunk == old(self).chunk,
                out@ == old(out)@ + self.bytes@.subrange(self.at as int, self.at + i),
            decreases n - i,
        {
            let b = self.bytes[self.at + i];
            out.push(b);
            proof {
                assert(self.bytes@.subrange(self.at as int, self.at + i + 1)
                    == self.bytes@.subrange(self.at as int, self.at + i).push(b));
            }
            i = i + 1;
        }
        self.at = self.at + n;
        Ok(n)
    }
}

} // verus!
