//! The outbound side of a session: a FIFO byte queue with exact
//! partial-write accounting.
//!
//! The queue records, in ghost state, every byte ever enqueued and every
//! byte already handed to the stream. Its well-formedness invariant states
//! that the transmitted bytes followed by the still-queued bytes are, in
//! order, exactly the enqueued bytes; every operation preserves it, however
//! many partial writes the drain takes.

use vstd::prelude::*;
use std::collections::VecDeque;

verus! {

/// What the stream did when the caller attempted a write.
#[derive(Debug, Clone, PartialEq, Eq)]
pub enum WriteAttempt {
    /// No write was attempted; permitted only when nothing is queued.
    NotAttempted,
    /// The stream was not ready: a transient condition, not a failure.
    WouldBlock,
    /// The stream accepted this many bytes from the front of the queue.
    Wrote(usize),
}

/// Whether the queue still holds bytes after a flush step.
#[derive(Debug, Clone, Copy, PartialEq, Eq)]
pub enum FlushStatus {
    /// The queue is empty; nothing is left to send.
    Complete,
    /// Bytes remain queued; the flush must be resumed later.
    StillPending,
}

/// The outbound byte queue of one session.
pub struct SendQueue {
    queue: VecDeque<u8>,
    sent: Ghost<Seq<u8>>,
    pushed: Ghost<Seq<u8>>,
}

impl SendQueue {
    /// The bytes still queued, oldest first.
    pub closed spec fn pending(self) -> Seq<u8> {
        self.queue@
    }

    /// The bytes actually handed to the stream so far, in order.
    pub closed spec fn transmitted(self) -> Seq<u8> {
        self.sent@
    }

    /// Every byte ever enqueued, in order.
    pub closed spec fn enqueued(self) -> Seq<u8> {
        self.pushed@
    }

    /// The queue's invariant: what was enqueued is what was transmitted
    /// followed by what is still pending.
    pub open spec fn wf(self) -> bool {
        self.enqueued() == self.transmitted() + self.pending()
    }

    /// An empty queue with empty history.
    pub fn new() -> (r: SendQueue)
        ensures
            r.wf(),
            r.pending() == Seq::<u8>::empty(),
            r.transmitted() == Seq::<u8>::empty(),
            r.enqueued() == Seq::<u8>::empty(),
    {
        let r = SendQueue {
            queue: VecDeque::new(),
            sent: Ghost(Seq::empty()),
            pushed: Ghost(Seq::empty()),
        };
        proof {
            assert(r.enqueued() =~= r.transmitted() + r.pending());
        }
        r
    }

    /// How many bytes are still queued.
    pub fn pending_len(&self) -> (r: usize)
        ensures
            r == self.pending().len(),
    {
        self.queue.len()
    }

    /// Appends `data` to the tail of the queue; never blocks, never drops
    /// or reorders a byte.
    pub fn append_to_write(&mut self, data: &[u8])
        requires
            old(self).wf(),
        ensures
            final(self).wf(),
            final(self).pending() == old(self).pending() + data@,
            final(self).transmitted() == old(self).transmitted(),
            final(self).enqueued() == old(self).enqueued() + data@,
    {
        let mut i: usize = 0;
        proof {
            assert(self.queue@ =~= old(self).pending() + data@.take(0));
            assert(self.pushed@ =~= old(self).enqueued() + data@.take(0));
        }
        while i < data.len()
            invariant
                0 <= i <= data@.len(),
                self.queue@ == old(self).pending() + data@.take(i as int),
                self.pushed@ == old(self).enqueued() + data@.take(i as int),
                self.sent@ == old(self).transmitted(),
            decreases data@.len() - i,
        {
            self.queue.push_back(data[i]);
            proof {
                self.pushed@ = self.pushed@.push(data@[i as int]);
                assert((old(self).pending() + data@.take(i as int)).push(data@[i as int])
                    =~= old(self).pending() + data@.take(i + 1));
                assert((old(self).enqueued() + data@.take(i as int)).push(data@[i as int])
                    =~= old(self).enqueued() + data@.take(i + 1));
            }
            i = i + 1;
        }
        proof {
            assert(data@.take(data@.len() as int) =~= data@);
            assert(self.pushed@ =~= self.sent@ + self.queue@);
        }
    }

    /// A copy of the still-queued bytes, oldest first, for the caller to
    /// offer to the stream.
    pub fn unsent(&self) -> (r: Vec<u8>)
        ensures
            r@ == self.pending(),
    {
        let mut out: Vec<u8> = Vec::new();
        let mut i: usize = 0;
        while i < self.queue.len()
            invariant
                0 <= i <= self.queue@.len(),
                out@ =~= self.queue@.take(i as int),
            decreases self.queue@.len() - i,
        {
            out.push(self.queue[i]);
            i = i + 1;
        }
        proof {
            assert(out@ =~= self.queue@);
        }
        out
    }

    /// One flush step. On an empty queue it completes at once, with no
    /// write attempted and the queue untouched. Otherwise the caller has
    /// offered the pending bytes to the stream and reports what happened:
    /// on would-block nothing is lost or reordered and the flush stays
    /// pending; on a partial write exactly the transmitted prefix leaves
    /// the queue, and the flush completes precisely when the queue is
    /// drained.
    pub fn flush_if_pending(&mut self, attempt: WriteAttempt) -> (r: FlushStatus)
        requires
            old(self).wf(),
            (attempt is NotAttempted) == (old(self).pending().len() == 0),
            attempt matches WriteAttempt::Wrote(n) ==> n <= old(self).pending().len(),
        ensures
            final(self).wf(),
            final(self).enqueued() == old(self).enqueued(),
            old(self).pending().len() == 0 ==> r == FlushStatus::Complete
                && *final(self) == *old(self),
            attempt is WouldBlock ==> r == FlushStatus::StillPending && *final(self) == *old(self),
            attempt matches WriteAttempt::Wrote(n) ==> {
                &&& final(self).pending() == old(self).pending().skip(n as int)
                &&& final(self).transmitted()
                    == old(self).transmitted() + old(self).pending().take(n as int)
            },
            (r == FlushStatus::Complete) == (final(self).pending().len() == 0),
    {
        match attempt {
            WriteAttempt::NotAttempted => FlushStatus::Complete,
            WriteAttempt::WouldBlock => FlushStatus::StillPending,
            WriteAttempt::Wrote(n) => {
                let mut i: usize = 0;
                while i < n
                    invariant
                        0 <= i <= n <= old(self).pending().len(),
                        self.queue@ == old(self).pending().skip(i as int),
                        self.sent@ == old(self).transmitted() + old(self).pending().take(i as int),
                        self.pushed@ == old(self).enqueued(),
                    decreases n - i,
                {
                    proof {
                        assert(self.queue@.len() > 0);
                    }
                    let _ = self.queue.pop_front();
                    proof {
                        self.sent@ = self.sent@.push(old(self).pending()[i as int]);
                        assert(old(self).pending().skip(i as int).drop_first()
                            =~= old(self).pending().skip(i + 1));
                        assert((old(self).transmitted() + old(self).pending().take(i as int)).push(
                            old(self).pending()[i as int],
                        ) =~= old(self).transmitted() + old(self).pending().take(i + 1));
                    }
                    i = i + 1;
                }
                proof {
                    assert(self.pushed@ =~= self.sent@ + self.queue@);
                }
                if self.queue.len() == 0 {
                    FlushStatus::Complete
                } else {
                    FlushStatus::StillPending
                }
            },
        }
    }
}

/// Law: however many partial writes it took, the bytes transmitted so far
/// followed by the bytes still queued are, in order, exactly the bytes
/// enqueued; once the queue is drained, the transmitted bytes equal the
/// enqueued bytes.
pub proof fn lemma_transmission_preserves_order(q: SendQueue)
    requires
        q.wf(),
    ensures
        q.transmitted() + q.pending() == q.enqueued(),
        q.pending().len() == 0 ==> q.transmitted() == q.enqueued(),
{
    if q.pending().len() == 0 {
        assert(q.transmitted() + q.pending() =~= q.transmitted());
    }
}

} // verus!

