//! The source capability: yields raw byte chunks plus a capture timestamp,
//! signaling end of stream with a zero-length read.

use vstd::prelude::*;

verus! {

use crate::LogError;
use vstd::slice::{slice_subrange, slice_to_vec};

/// The source capability. The spec-level `stream` is what remains to be
/// read; each successful read hands back a prefix of it (empty exactly at
/// end of stream) and samples a capture time into `time`, once per call.
pub trait AsyncLogReader: Sized {
    spec fn stream(&self) -> Seq<u8>;

    fn read_logs(&mut self, time: &mut u64) -> (r: Result<Vec<u8>, LogError>)
        ensures
            r is Ok ==> ({
                let chunk = r->Ok_0;
                &&& chunk@.len() <= old(self).stream().len()
                &&& chunk@ == old(self).stream().take(chunk@.len() as int)
                &&& final(self).stream() == old(self).stream().skip(chunk@.len() as int)
                &&& (chunk@.len() == 0 <==> old(self).stream().len() == 0)
            }),
            r is Err ==> final(self).stream() == old(self).stream(),
    ;
}

/// A source that serves a fixed byte stream from memory, cut into chunks
/// of at most `chunk_size` bytes, stamping every read with a fixed capture
/// time.
pub struct MemReader {
    pub data: Vec<u8>,
    pub pos: usize,
    pub chunk_size: usize,
    pub capture_time: u64,
}

impl MemReader {
    pub fn new(data: Vec<u8>, chunk_size: usize, capture_time: u64) -> (r: MemReader)
        ensures
            r.stream() == data@,
            r.chunk_size == chunk_size,
            r.capture_time == capture_time,
    {
        let r = MemReader { data, pos: 0, chunk_size, capture_time };
        proof {
            assert(r.stream() =~= r.data@);
        }
        r
    }
}

/// A source whose reads always fail, the way an unreadable input stream
/// does; the failure is fatal to the read loop.
pub struct BrokenReader {}

impl AsyncLogReader for BrokenReader {
    open spec fn stream(&self) -> Seq<u8> {
        Seq::empty()
    }

    fn read_logs(&mut self, time: &mut u64) -> (r: Result<Vec<u8>, LogError>) {
        Err(LogError::ReadFailed)
    }
}

impl AsyncLogReader for MemReader {
    open spec fn stream(&self) -> Seq<u8> {
        if self.pos <= self.data@.len() {
            self.data@.skip(self.pos as int)
        } else {
            Seq::empty()
        }
    }

    fn read_logs(&mut self, time: &mut u64) -> (r: Result<Vec<u8>, LogError>) {
        *time = self.capture_time;
        if self.pos >= self.data.len() {
            return Ok(Vec::new());
        }
        let step: usize = if self.chunk_size == 0 {
            1
        } else {
            self.chunk_size
        };
        let remaining = self.data.len() - self.pos;
        let n: usize = if step < remaining {
            step
        } else {
            remaining
        };
        let chunk = slice_to_vec(slice_subrange(self.data.as_slice(), self.pos, self.pos + n));
        proof {
            assert(chunk@ =~= old(self).stream().take(n as int));
        }
        self.pos = self.pos + n;
        proof {
            assert(self.stream() =~= old(self).stream().skip(n as int));
        }
        Ok(chunk)
    }
}

} // verus!
