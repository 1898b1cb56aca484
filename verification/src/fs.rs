//! The uniform file capability: the `File` contract that every byte channel
//! of the kernel satisfies, the `FileCap` descriptor-table entry, and small
//! verified byte-copy helpers shared by the IPC primitives.

use vstd::prelude::*;

verus! {

/// The uniform read/write capability reachable from a file-descriptor slot.
///
/// The trait only demands that every channel preserve its own invariant:
/// each implementing type states the exact behaviour of its `read` and
/// `write` in its `impl`.
pub trait File {
    /// The channel's internal invariant.
    spec fn inv(&self) -> bool;

    fn readable(&self) -> bool;

    fn writable(&self) -> bool;

    /// Reads at most `len` bytes; returns the byte count (negative on
    /// failure) and the bytes produced.
    fn read(&mut self, len: usize) -> (r: (isize, Vec<u8>))
        requires
            old(self).inv(),
        ensures
            final(self).inv(),
    ;

    /// Writes the given bytes; returns the byte count accepted (negative on
    /// failure).
    fn write(&mut self, data: &Vec<u8>) -> (r: isize)
        requires
            old(self).inv(),
        ensures
            final(self).inv(),
    ;
}

/// One slot of a task's file-descriptor table.
///
/// Pipe ends name a channel in the kernel's pipe registry; shared
/// ownership of a channel across descriptor tables is counted explicitly
/// on each registered pipe. An `Inode` capability stands for a
/// file of the external on-disk file system: the kernel only records the
/// collaborator's handle and the access mode it granted.
#[derive(Clone, Copy, PartialEq, Eq, Structural, Debug)]
pub enum FileCap {
    Stdin,
    Stdout,
    PipeRead(usize),
    PipeWrite(usize),
    Inode { handle: usize, readable: bool, writable: bool },
}

/// Whether a capability admits reads.
pub open spec fn spec_cap_readable(cap: FileCap) -> bool {
    match cap {
        FileCap::Stdin => true,
        FileCap::Stdout => false,
        FileCap::PipeRead(_) => true,
        FileCap::PipeWrite(_) => false,
        FileCap::Inode { handle: _, readable, writable: _ } => readable,
    }
}

/// Whether a capability admits writes.
pub open spec fn spec_cap_writable(cap: FileCap) -> bool {
    match cap {
        FileCap::Stdin => false,
        FileCap::Stdout => true,
        FileCap::PipeRead(_) => false,
        FileCap::PipeWrite(_) => true,
        FileCap::Inode { handle: _, readable: _, writable } => writable,
    }
}

/// Whether a capability admits reads.
pub fn cap_readable(cap: FileCap) -> (b: bool)
    ensures
        b == spec_cap_readable(cap),
{
    match cap {
        FileCap::Stdin => true,
        FileCap::Stdout => false,
        FileCap::PipeRead(_) => true,
        FileCap::PipeWrite(_) => false,
        FileCap::Inode { handle: _, readable, writable: _ } => readable,
    }
}

/// Whether a capability admits writes.
pub fn cap_writable(cap: FileCap) -> (b: bool)
    ensures
        b == spec_cap_writable(cap),
{
    match cap {
        FileCap::Stdin => false,
        FileCap::Stdout => true,
        FileCap::PipeRead(_) => false,
        FileCap::PipeWrite(_) => true,
        FileCap::Inode { handle: _, readable: _, writable } => writable,
    }
}

/// Copies a byte vector, element by element.
pub fn clone_bytes(src: &Vec<u8>) -> (r: Vec<u8>)
    ensures
        r@ == src@,
{
    let mut r: Vec<u8> = Vec::new();
    let mut i: usize = 0;
    while i < src.len()
        invariant
            i <= src@.len(),
            r@ == src@.take(i as int),
        decreases src@.len() - i,
    {
        r.push(src[i]);
        proof {
            assert(r@ =~= src@.take(i + 1 as int));
        }
        i = i + 1;
    }
    proof {
        assert(r@ =~= src@);
    }
    r
}

/// Copies the first `n` bytes of `src` (all of it, if it is shorter).
pub fn take_bytes(src: &Vec<u8>, n: usize) -> (r: Vec<u8>)
    ensures
        r@ == src@.take(vstd::math::min(n as int, src@.len() as int)),
{
    let end = if n < src.len() {
        n
    } else {
        src.len()
    };
    let mut r: Vec<u8> = Vec::new();
    let mut i: usize = 0;
    while i < end
        invariant
            i <= end,
            end == vstd::math::min(n as int, src@.len() as int),
            r@ == src@.take(i as int),
        decreases end - i,
    {
        r.push(src[i]);
        proof {
            assert(r@ =~= src@.take(i + 1 as int));
        }
        i = i + 1;
    }
    r
}

} // verus!
