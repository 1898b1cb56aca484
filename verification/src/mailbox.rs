//! The per-task mailbox: a bounded ring of up to 16 independently sized
//! messages, each capped at 256 bytes on transfer, delivered in FIFO order.
//!
//! The ring keeps a `head`, a `tail` and a directional status flag, since
//! `head == tail` alone cannot distinguish an empty ring from a full one.

use vstd::prelude::*;
use crate::fs::File;
use crate::fs::clone_bytes;
use crate::fs::take_bytes;

verus! {

/// Number of message slots in a mailbox ring.
pub const MAILBOX_BUFFER_SIZE: usize = 16;

/// Longest message a single mailbox transfer moves; longer payloads are
/// truncated to this many bytes.
pub const MAX_MAIL_LENGTH: usize = 256;

#[derive(Clone, Copy, PartialEq, Eq, Structural)]
enum MailboxBufferStatus {
    Full,
    Empty,
    Normal,
}

/// The raw message ring. `status` disambiguates `head == tail`: the ring is
/// then either empty or full, never in between.
pub struct MailboxRingBuffer {
    arr: Vec<Vec<u8>>,
    head: usize,
    tail: usize,
    status: MailboxBufferStatus,
}

impl MailboxRingBuffer {
    /// The ring's structural invariant.
    pub closed spec fn wf(self) -> bool {
        &&& self.arr@.len() == MAILBOX_BUFFER_SIZE
        &&& self.head < MAILBOX_BUFFER_SIZE
        &&& self.tail < MAILBOX_BUFFER_SIZE
        &&& (self.status is Normal <==> self.head != self.tail)
    }

    /// How many messages are pending.
    closed spec fn count(self) -> nat {
        if self.status is Empty {
            0
        } else if self.status is Full {
            MAILBOX_BUFFER_SIZE as nat
        } else {
            ((self.tail + MAILBOX_BUFFER_SIZE - self.head) % (MAILBOX_BUFFER_SIZE as int)) as nat
        }
    }

    /// The pending messages, oldest first.
    pub closed spec fn pending(self) -> Seq<Seq<u8>> {
        Seq::new(self.count(), |i: int| self.arr@[(self.head + i) % (MAILBOX_BUFFER_SIZE as int)]@)
    }

    pub fn new() -> (r: Self)
        ensures
            r.wf(),
            r.pending() == Seq::<Seq<u8>>::empty(),
    {
        let mut arr: Vec<Vec<u8>> = Vec::new();
        let mut i: usize = 0;
        while i < MAILBOX_BUFFER_SIZE
            invariant
                i <= MAILBOX_BUFFER_SIZE,
                arr@.len() == i,
            decreases MAILBOX_BUFFER_SIZE - i,
        {
            arr.push(Vec::new());
            i = i + 1;
        }
        let r = Self { arr, head: 0, tail: 0, status: MailboxBufferStatus::Empty };
        proof {
            assert(r.pending() =~= Seq::<Seq<u8>>::empty());
        }
        r
    }

    /// Dequeues the oldest pending message.
    pub fn read_mail(&mut self) -> (mail: Vec<u8>)
        requires
            old(self).wf(),
            old(self).pending().len() > 0,
        ensures
            final(self).wf(),
            mail@ == old(self).pending()[0],
            final(self).pending() == old(self).pending().skip(1),
    {
        let mail = clone_bytes(&self.arr[self.head]);
        self.status = MailboxBufferStatus::Normal;
        self.head = if self.head + 1 == MAILBOX_BUFFER_SIZE {
            0
        } else {
            self.head + 1
        };
        if self.tail == self.head {
            self.status = MailboxBufferStatus::Empty;
        }
        proof {
            let oldp = old(self).pending();
            let newp = self.pending();
            assert(self.head == (old(self).head + 1) % (MAILBOX_BUFFER_SIZE as int));
            assert(newp.len() == oldp.len() - 1);
            assert(mail@ == oldp[0]);
            assert forall|i: int| 0 <= i < newp.len() implies newp[i] == oldp.skip(1)[i] by {
                assert((self.head + i) % (MAILBOX_BUFFER_SIZE as int)
                    == (old(self).head + (i + 1)) % (MAILBOX_BUFFER_SIZE as int));
            }
            assert(newp =~= oldp.skip(1));
        }
        mail
    }

    /// Enqueues a copy of `mail` behind the pending messages.
    pub fn write_mail(&mut self, mail: &Vec<u8>)
        requires
            old(self).wf(),
            old(self).pending().len() < MAILBOX_BUFFER_SIZE,
        ensures
            final(self).wf(),
            final(self).pending() == old(self).pending().push(mail@),
    {
        self.status = MailboxBufferStatus::Normal;
        let m = clone_bytes(mail);
        let t = self.tail;
        self.arr[t] = m;
        self.tail = if t + 1 == MAILBOX_BUFFER_SIZE {
            0
        } else {
            t + 1
        };
        if self.tail == self.head {
            self.status = MailboxBufferStatus::Full;
        }
        proof {
            let oldp = old(self).pending();
            let newp = self.pending();
            let size = MAILBOX_BUFFER_SIZE as int;
            assert((old(self).head + old(self).count()) % size == old(self).tail as int);
            assert(self.tail == (old(self).tail + 1) % size);
            assert(newp.len() == oldp.len() + 1);
            assert forall|i: int| 0 <= i < oldp.len() implies newp[i] == oldp[i] by {
                assert((old(self).head + i) % size != old(self).tail as int);
            }
            assert(newp[oldp.len() as int] == mail@);
            assert(newp =~= oldp.push(mail@));
        }
    }
}

/// A task's message channel: the ring plus the transfer rules of the
/// mailbox syscalls (non-blocking failure on empty or full, 256-byte cap).
pub struct Mailbox {
    buffer: MailboxRingBuffer,
}

impl Mailbox {
    /// The pending messages, oldest first.
    pub closed spec fn pending(self) -> Seq<Seq<u8>> {
        self.buffer.pending()
    }

    /// Every pending message respects the transfer cap.
    pub closed spec fn wf(self) -> bool {
        &&& self.buffer.wf()
        &&& forall|i: int|
            0 <= i < self.buffer.pending().len() ==> (#[trigger] self.buffer.pending()[i]).len()
                <= MAX_MAIL_LENGTH
    }

    pub fn new() -> (r: Self)
        ensures
            r.wf(),
            r.pending() == Seq::<Seq<u8>>::empty(),
    {
        Self { buffer: MailboxRingBuffer::new() }
    }

    pub fn is_empty(&self) -> (b: bool)
        requires
            self.wf(),
        ensures
            b == (self.pending().len() == 0),
    {
        self.buffer.status == MailboxBufferStatus::Empty
    }

    pub fn is_full(&self) -> (b: bool)
        requires
            self.wf(),
        ensures
            b == (self.pending().len() == MAILBOX_BUFFER_SIZE),
    {
        self.buffer.status == MailboxBufferStatus::Full
    }

    /// Dequeues the oldest message and hands out its first
    /// `min(message_len, len)` bytes; fails with `-1` when no message is
    /// pending.
    pub fn read_message(&mut self, len: usize) -> (r: (isize, Vec<u8>))
        requires
            old(self).wf(),
        ensures
            final(self).wf(),
            old(self).pending().len() == 0 ==> r.0 == -1 && r.1@ == Seq::<u8>::empty() && *final(self) == *old(self),
            old(self).pending().len() > 0 ==> ({
                let m = old(self).pending()[0];
                &&& r.0 == vstd::math::min(m.len() as int, len as int)
                &&& r.1@ == m.take(r.0 as int)
                &&& final(self).pending() == old(self).pending().skip(1)
            }),
    {
        if self.is_empty() {
            return (-1, Vec::new());
        }
        let mail = self.buffer.read_mail();
        proof {
            assert(old(self).pending()[0].len() <= MAX_MAIL_LENGTH);
            assert forall|i: int| 0 <= i < self.pending().len() implies (#[trigger] self.pending()[i]).len()
                <= MAX_MAIL_LENGTH by {
                assert(self.pending()[i] == old(self).pending()[i + 1]);
            }
        }
        let n = if mail.len() < len {
            mail.len()
        } else {
            len
        };
        let out = take_bytes(&mail, n);
        (n as isize, out)
    }

    /// Enqueues the first `min(data.len(), 256)` bytes of `data` as one
    /// message; fails with `-1` when the ring is full.
    pub fn write_message(&mut self, data: &Vec<u8>) -> (r: isize)
        requires
            old(self).wf(),
        ensures
            final(self).wf(),
            old(self).pending().len() == MAILBOX_BUFFER_SIZE ==> r == -1 && *final(self) == *old(self),
            old(self).pending().len() < MAILBOX_BUFFER_SIZE ==> ({
                let n = vstd::math::min(data@.len() as int, MAX_MAIL_LENGTH as int);
                &&& r == n
                &&& final(self).pending() == old(self).pending().push(data@.take(n))
            }),
    {
        if self.is_full() {
            return -1;
        }
        let n = if data.len() < MAX_MAIL_LENGTH {
            data.len()
        } else {
            MAX_MAIL_LENGTH
        };
        let m = take_bytes(data, n);
        self.buffer.write_mail(&m);
        proof {
            assert forall|i: int| 0 <= i < self.pending().len() implies (#[trigger] self.pending()[i]).len()
                <= MAX_MAIL_LENGTH by {
                if i < self.pending().len() - 1 {
                    assert(self.pending()[i] == old(self).pending()[i]);
                } else {
                    assert(self.pending()[i] == m@);
                }
            }
        }
        n as isize
    }
}

impl File for Mailbox {
    open spec fn inv(&self) -> bool {
        self.wf()
    }

    fn readable(&self) -> (b: bool)
        ensures
            b,
    {
        true
    }

    fn writable(&self) -> (b: bool)
        ensures
            b,
    {
        true
    }

    /// Same behaviour as [`Mailbox::read_message`], reachable through the
    /// uniform capability.
    fn read(&mut self, len: usize) -> (r: (isize, Vec<u8>))
        ensures
            old(self).pending().len() == 0 ==> r.0 == -1 && r.1@ == Seq::<u8>::empty() && *final(self) == *old(self),
            old(self).pending().len() > 0 ==> ({
                let m = old(self).pending()[0];
                &&& r.0 == vstd::math::min(m.len() as int, len as int)
                &&& r.1@ == m.take(r.0 as int)
                &&& final(self).pending() == old(self).pending().skip(1)
            }),
    {
        self.read_message(len)
    }

    /// Same behaviour as [`Mailbox::write_message`], reachable through the
    /// uniform capability.
    fn write(&mut self, data: &Vec<u8>) -> (r: isize)
        ensures
            old(self).pending().len() == MAILBOX_BUFFER_SIZE ==> r == -1 && *final(self) == *old(self),
            old(self).pending().len() < MAILBOX_BUFFER_SIZE ==> ({
                let n = vstd::math::min(data@.len() as int, MAX_MAIL_LENGTH as int);
                &&& r == n
                &&& final(self).pending() == old(self).pending().push(data@.take(n))
            }),
    {
        self.write_message(data)
    }
}

/// Mailbox round trip: a message written into an empty mailbox is the
/// very next one read — whole, in write order, and truncated to the
/// transfer cap. With `mb2` the mailbox after a non-full write of
/// `data` into `mb`, the single pending message is exactly the first
/// `min(|data|, 256)` bytes of `data`, so a read with a buffer at least
/// that long returns `data` itself whenever `data` fits the cap.
pub proof fn lemma_mailbox_round_trip(mb: Mailbox, mb2: Mailbox, data: Seq<u8>)
    requires
        mb.wf(),
        mb.pending().len() == 0,
        mb2.pending() == mb.pending().push(
            data.take(vstd::math::min(data.len() as int, MAX_MAIL_LENGTH as int)),
        ),
    ensures
        mb2.pending().len() == 1,
        mb2.pending()[0] == data.take(vstd::math::min(data.len() as int, MAX_MAIL_LENGTH as int)),
        data.len() <= MAX_MAIL_LENGTH ==> mb2.pending()[0] == data,
{
    if data.len() <= MAX_MAIL_LENGTH {
        assert(data.take(vstd::math::min(data.len() as int, MAX_MAIL_LENGTH as int)) =~= data);
    }
}

} // verus!
