//! In-memory byte streams for the bitmap codec.
//!
//! An [`RWops`] is a growable byte buffer with a read/write position;
//! the bitmap codec writes an encoded surface at the position and reads
//! one back from it.  Callers that work with files read the file into a
//! stream or write the stream back out.

use vstd::prelude::*;

verus! {

/// A byte stream: a buffer and a position inside it.
#[derive(Debug)]
pub struct RWops {
    pub data: Vec<u8>,
    pub pos: usize,
}

impl RWops {
    /// The position never passes the end of the buffer.
    pub open spec fn wf(&self) -> bool {
        self.pos <= self.data@.len()
    }

    /// An empty stream.
    pub fn new() -> (r: RWops)
        ensures
            r.data@ == Seq::<u8>::empty(),
            r.pos == 0,
            r.wf(),
    {
        RWops { data: Vec::new(), pos: 0 }
    }

    /// A stream over the given bytes, positioned at the start.
    pub fn from_bytes(data: Vec<u8>) -> (r: RWops)
        ensures
            r.data@ == data@,
            r.pos == 0,
            r.wf(),
    {
        RWops { data, pos: 0 }
    }

    /// Moves the position back to the start.
    pub fn rewind(&mut self)
        ensures
            final(self).data@ == old(self).data@,
            final(self).pos == 0,
            final(self).wf(),
    {
        self.pos = 0;
    }

    /// The stream's bytes.
    pub fn bytes(&self) -> (r: &Vec<u8>)
        ensures
            r@ == self.data@,
    {
        &self.data
    }

    /// The current position.
    pub fn position(&self) -> (r: usize)
        ensures
            r == self.pos,
    {
        self.pos
    }

    /// Consumes the stream, returning its bytes.
    pub fn into_bytes(self) -> (r: Vec<u8>)
        ensures
            r@ == self.data@,
    {
        self.data
    }
}

} // verus!
