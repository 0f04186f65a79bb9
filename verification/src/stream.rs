//! Byte sources: the abstraction the request parser reads from.

use vstd::prelude::*;

verus! {

use crate::strutil::subvec;

/// An underlying read failed.
#[derive(Debug, Clone, Copy, PartialEq, Eq, Structural)]
pub struct ReadFault;

/// A sequential source of bytes, read in chunks.
///
/// `remaining()` is everything the source will still deliver. A successful
/// chunk is the longest available prefix, up to the requested length, so a
/// chunk shorter than requested means the source is exhausted. `reliable()`
/// marks a source whose reads cannot fault: an in-memory source is
/// reliable, a socket-backed one is not.
pub trait ByteSource: Sized {
    /// Implementations with a knowable stream override this; for one
    /// whose reads the verifier never sees, nothing is assumed.
    open spec fn remaining(&self) -> Seq<u8> {
        Seq::empty()
    }

    open spec fn reliable(&self) -> bool {
        false
    }

    /// Reads up to `max` bytes; on success the chunk is exactly
    /// `min(max, remaining)` bytes long.
    fn read_chunk(&mut self, max: usize) -> (r: Result<Vec<u8>, ReadFault>)
        requires
            max >= 1,
        ensures
            match r {
                Ok(chunk) => {
                    &&& chunk@.len() == (if old(self).remaining().len() < max as int {
                        old(self).remaining().len() as int
                    } else {
                        max as int
                    })
                    &&& chunk@ == old(self).remaining().take(chunk@.len() as int)
                    &&& final(self).remaining() == old(self).remaining().skip(
                        chunk@.len() as int,
                    )
                    &&& final(self).reliable() == old(self).reliable()
                },
                Err(_) => {
                    &&& !old(self).reliable()
                    &&& final(self).remaining() == old(self).remaining()
                    &&& final(self).reliable() == old(self).reliable()
                },
            },
    ;
}

/// An in-memory byte source; it serves its buffer and never faults.
pub struct BufSource {
    data: Vec<u8>,
    pos: usize,
}

impl BufSource {
    /// Wraps a buffer as a source.
    pub fn new(data: Vec<u8>) -> (r: BufSource)
        ensures
            r.remaining() == data@,
            r.reliable(),
    {
        let r = BufSource { data, pos: 0 };
        proof {
            assert(r.remaining() =~= r.data@);
        }
        r
    }
}

impl ByteSource for BufSource {
    closed spec fn remaining(&self) -> Seq<u8> {
        if self.pos <= self.data@.len() {
            self.data@.skip(self.pos as int)
        } else {
            Seq::empty()
        }
    }

    closed spec fn reliable(&self) -> bool {
        true
    }

    fn read_chunk(&mut self, max: usize) -> (r: Result<Vec<u8>, ReadFault>) {
        let len = self.data.len();
        let avail = if self.pos <= len {
            len - self.pos
        } else {
            0
        };
        let n = if avail < max {
            avail
        } else {
            max
        };
        let start = if self.pos <= len {
            self.pos
        } else {
            len
        };
        let chunk = subvec(&self.data, start, start + n);
        self.pos = start + n;
        proof {
            assert(chunk@ =~= old(self).remaining().take(chunk@.len() as int));
            assert(self.remaining() =~= old(self).remaining().skip(chunk@.len() as int));
        }
        Ok(chunk)
    }
}

} // verus!
