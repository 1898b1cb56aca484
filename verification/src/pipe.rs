//! The pipe: a bounded byte-stream channel with separately counted read
//! and write ends.
//!
//! A pipe transfer never blocks inside the kernel model: when it cannot
//! make progress it reports `Retry`, and the trap handler suspends the
//! caller and retries after other tasks have run. Readability and
//! writability of the stream follow from which ends remain open.

use vstd::prelude::*;

verus! {

/// Capacity of a pipe's byte buffer.
pub const RING_BUFFER_SIZE: usize = 32;

/// One step of a pipe read.
pub enum PipeReadStep {
    /// Bytes were available; they are removed from the stream.
    Data(Vec<u8>),
    /// Nothing buffered but a write end is still open: suspend and retry.
    Retry,
    /// Nothing buffered and every write end is closed: end of stream.
    Closed,
}

/// One step of a pipe write.
pub enum PipeWriteStep {
    /// This many leading bytes of the payload were accepted.
    Written(usize),
    /// The buffer is full but a read end is still open: suspend and retry.
    Retry,
    /// Every read end is closed: the write fails.
    Broken,
}

/// A byte-stream channel; `read_ends` and `write_ends` count the open
/// descriptors referring to each end across all tasks.
pub struct Pipe {
    buffer: Vec<u8>,
    read_ends: usize,
    write_ends: usize,
}

impl Pipe {
    /// The buffered bytes, oldest first.
    pub closed spec fn buffered(self) -> Seq<u8> {
        self.buffer@
    }

    /// How many open descriptors refer to the read end.
    pub closed spec fn read_end_count(self) -> usize {
        self.read_ends
    }

    /// How many open descriptors refer to the write end.
    pub closed spec fn write_end_count(self) -> usize {
        self.write_ends
    }

    /// The buffer never exceeds its capacity.
    pub open spec fn wf(self) -> bool {
        self.buffered().len() <= RING_BUFFER_SIZE
    }

    /// A step of reading at most `len` bytes.
    pub fn read_step(&mut self, len: usize) -> (r: PipeReadStep)
        requires
            old(self).wf(),
        ensures
            final(self).wf(),
            final(self).read_end_count() == old(self).read_end_count(),
            final(self).write_end_count() == old(self).write_end_count(),
            old(self).buffered().len() == 0 && old(self).write_end_count() > 0 ==> r
                is Retry && *final(self) == *old(self),
            old(self).buffered().len() == 0 && old(self).write_end_count() == 0 ==> r
                is Closed && *final(self) == *old(self),
            old(self).buffered().len() > 0 ==> ({
                let n = vstd::math::min(len as int, old(self).buffered().len() as int);
                &&& r matches PipeReadStep::Data(d) && d@ == old(self).buffered().take(n)
                &&& final(self).buffered() == old(self).buffered().skip(n)
            }),
    {
        if self.buffer.len() == 0 {
            if self.write_ends == 0 {
                return PipeReadStep::Closed;
            }
            return PipeReadStep::Retry;
        }
        let n = if len < self.buffer.len() {
            len
        } else {
            self.buffer.len()
        };
        let mut out: Vec<u8> = Vec::new();
        let mut i: usize = 0;
        while i < n
            invariant
                i <= n,
                n <= old(self).buffered().len(),
                out@ == old(self).buffered().take(i as int),
                self.buffer@ == old(self).buffered().skip(i as int),
                self.read_ends == old(self).read_ends,
                self.write_ends == old(self).write_ends,
            decreases n - i,
        {
            let b = self.buffer.remove(0);
            out.push(b);
            proof {
                assert(out@ =~= old(self).buffered().take(i + 1 as int));
                assert(self.buffer@ =~= old(self).buffered().skip(i + 1 as int));
            }
            i = i + 1;
        }
        PipeReadStep::Data(out)
    }

    /// A step of writing the payload.
    pub fn write_step(&mut self, data: &Vec<u8>) -> (r: PipeWriteStep)
        requires
            old(self).wf(),
        ensures
            final(self).wf(),
            final(self).read_end_count() == old(self).read_end_count(),
            final(self).write_end_count() == old(self).write_end_count(),
            old(self).read_end_count() == 0 ==> r is Broken && *final(self) == *old(self),
            old(self).read_end_count() > 0 && data@.len() > 0 && old(self).buffered().len()
                == RING_BUFFER_SIZE ==> r is Retry && *final(self) == *old(self),
            old(self).read_end_count() > 0 && (data@.len() == 0 || old(self).buffered().len()
                < RING_BUFFER_SIZE) ==> ({
                let n = vstd::math::min(
                    data@.len() as int,
                    RING_BUFFER_SIZE - old(self).buffered().len(),
                );
                &&& r == PipeWriteStep::Written(n as usize)
                &&& final(self).buffered() == old(self).buffered() + data@.take(n)
            }),
    {
        if self.read_ends == 0 {
            return PipeWriteStep::Broken;
        }
        let free = RING_BUFFER_SIZE - self.buffer.len();
        if data.len() > 0 && free == 0 {
            return PipeWriteStep::Retry;
        }
        let n = if data.len() < free {
            data.len()
        } else {
            free
        };
        let mut i: usize = 0;
        while i < n
            invariant
                i <= n,
                n <= data@.len(),
                n <= RING_BUFFER_SIZE - old(self).buffered().len(),
                self.buffer@ == old(self).buffered() + data@.take(i as int),
                self.read_ends == old(self).read_ends,
                self.write_ends == old(self).write_ends,
            decreases n - i,
        {
            self.buffer.push(data[i]);
            proof {
                assert(self.buffer@ =~= old(self).buffered() + data@.take(i + 1 as int));
            }
            i = i + 1;
        }
        PipeWriteStep::Written(n)
    }

    /// Notes one more open descriptor on the read end.
    pub fn dup_read_end(&mut self)
        requires
            old(self).wf(),
        ensures
            final(self).wf(),
            final(self).buffered() == old(self).buffered(),
            old(self).read_end_count() < usize::MAX ==> final(self).read_end_count() == old(
                self,
            ).read_end_count() + 1,
            old(self).read_end_count() == usize::MAX ==> final(self).read_end_count() == old(
                self,
            ).read_end_count(),
            final(self).write_end_count() == old(self).write_end_count(),
    {
        if self.read_ends < usize::MAX {
            self.read_ends = self.read_ends + 1;
        }
    }

    /// Notes one more open descriptor on the write end.
    pub fn dup_write_end(&mut self)
        requires
            old(self).wf(),
        ensures
            final(self).wf(),
            final(self).buffered() == old(self).buffered(),
            final(self).read_end_count() == old(self).read_end_count(),
            old(self).write_end_count() < usize::MAX ==> final(self).write_end_count() == old(
                self,
            ).write_end_count() + 1,
            old(self).write_end_count() == usize::MAX ==> final(self).write_end_count() == old(
                self,
            ).write_end_count(),
    {
        if self.write_ends < usize::MAX {
            self.write_ends = self.write_ends + 1;
        }
    }

    /// Notes one closed descriptor on the read end.
    pub fn close_read_end(&mut self)
        requires
            old(self).wf(),
        ensures
            final(self).wf(),
            final(self).buffered() == old(self).buffered(),
            old(self).read_end_count() > 0 ==> final(self).read_end_count() == old(
                self,
            ).read_end_count() - 1,
            old(self).read_end_count() == 0 ==> final(self).read_end_count() == 0,
            final(self).write_end_count() == old(self).write_end_count(),
    {
        if self.read_ends > 0 {
            self.read_ends = self.read_ends - 1;
        }
    }

    /// Notes one closed descriptor on the write end.
    pub fn close_write_end(&mut self)
        requires
            old(self).wf(),
        ensures
            final(self).wf(),
            final(self).buffered() == old(self).buffered(),
            final(self).read_end_count() == old(self).read_end_count(),
            old(self).write_end_count() > 0 ==> final(self).write_end_count() == old(
                self,
            ).write_end_count() - 1,
            old(self).write_end_count() == 0 ==> final(self).write_end_count() == 0,
    {
        if self.write_ends > 0 {
            self.write_ends = self.write_ends - 1;
        }
    }
}

/// A fresh pipe: empty, with one read end and one write end open.
pub fn make_pipe() -> (r: Pipe)
    ensures
        r.wf(),
        r.buffered() == Seq::<u8>::empty(),
        r.read_end_count() == 1,
        r.write_end_count() == 1,
{
    Pipe { buffer: Vec::new(), read_ends: 1, write_ends: 1 }
}

} // verus!
