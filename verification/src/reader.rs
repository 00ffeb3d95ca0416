//! An in-memory byte source with sequential, exact-length reads.
//!
//! The codec consumes its input through a [`ByteReader`]: a cursor over a
//! borrowed byte slice that only ever moves forward. It models the minimal
//! contract the format needs from a source — read one byte, read exactly
//! `n` bytes, read whatever is left — and reports a shortfall instead of
//! panicking.

use vstd::prelude::*;

use crate::error::WSError;

verus! {

/// A forward-only cursor over a borrowed byte slice.
pub struct ByteReader<'a> {
    /// The underlying bytes.
    pub data: &'a [u8],
    /// The index of the next byte to read.
    pub pos: usize,
}

impl<'a> ByteReader<'a> {
    /// The cursor lies within the underlying bytes.
    pub open spec fn wf(&self) -> bool {
        self.pos <= self.data@.len()
    }

    /// The bytes not yet consumed.
    pub open spec fn remaining(&self) -> Seq<u8> {
        self.data@.subrange(self.pos as int, self.data@.len() as int)
    }

    /// A new reader positioned at the start of `data`.
    pub fn new(data: &'a [u8]) -> (r: ByteReader<'a>)
        ensures
            r.wf(),
            r.data@ == data@,
            r.pos == 0,
            r.remaining() == data@,
    {
        let r = ByteReader { data, pos: 0 };
        proof {
            assert(r.remaining() =~= data@);
        }
        r
    }

    /// How many bytes are left to read.
    pub fn remaining_len(&self) -> (n: usize)
        requires
            self.wf(),
        ensures
            n == self.remaining().len(),
    {
        self.data.len() - self.pos
    }

    /// Reads the next byte, or reports that the input is exhausted.
    pub fn read_byte(&mut self) -> (r: Option<u8>)
        requires
            old(self).wf(),
        ensures
            final(self).wf(),
            final(self).data@ == old(self).data@,
            old(self).remaining().len() == 0 ==> r is None && final(self).pos == old(self).pos,
            old(self).remaining().len() > 0 ==> r == Some(old(self).remaining()[0])
                && final(self).pos == old(self).pos + 1,
    {
        if self.pos < self.data.len() {
            let b = self.data[self.pos];
            self.pos = self.pos + 1;
            Some(b)
        } else {
            None
        }
    }

    /// Reads exactly `n` bytes; a shortfall is a truncation error and
    /// leaves the reader where it was.
    pub fn read_exact(&mut self, n: usize) -> (r: Result<Vec<u8>, WSError>)
        requires
            old(self).wf(),
        ensures
            final(self).wf(),
            final(self).data@ == old(self).data@,
            old(self).remaining().len() >= n ==> (r matches Ok(v) && v@
                == old(self).remaining().subrange(0, n as int) && final(self).pos == old(
                self,
            ).pos + n),
            old(self).remaining().len() < n ==> (r == Err::<Vec<u8>, WSError>(
                WSError::TruncatedInput,
            ) && final(self).pos == old(self).pos),
    {
        if n > self.data.len() - self.pos {
            return Err(WSError::TruncatedInput);
        }
        let mut out: Vec<u8> = Vec::new();
        let mut i: usize = 0;
        while i < n
            invariant
                self.wf(),
                self.data@ == old(self).data@,
                self.pos == old(self).pos,
                i <= n,
                self.data@.len() <= usize::MAX,
                n <= self.data@.len() - self.pos,
                out@ == old(self).remaining().subrange(0, i as int),
            decreases n - i,
        {
            let b = self.data[self.pos + i];
            out.push(b);
            i = i + 1;
            proof {
                assert(out@ =~= old(self).remaining().subrange(0, i as int));
            }
        }
        self.pos = self.pos + n;
        Ok(out)
    }

    /// Reads and returns everything that is left.
    pub fn read_to_end(&mut self) -> (r: Vec<u8>)
        requires
            old(self).wf(),
        ensures
            final(self).wf(),
            final(self).data@ == old(self).data@,
            r@ == old(self).remaining(),
            final(self).pos == final(self).data@.len(),
    {
        let n = self.data.len() - self.pos;
        let r = self.read_exact(n);
        proof {
            assert(old(self).remaining().subrange(0, n as int) =~= old(self).remaining());
        }
        match r {
            Ok(v) => v,
            Err(_) => Vec::new(),
        }
    }
}

} // verus!
