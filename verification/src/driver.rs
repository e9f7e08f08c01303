//! The per-connection resumption step: what one readiness wake-up does.
//!
//! The reactor loop owns the sockets and performs every read and write; the
//! functions here make all the decisions. On each wake-up the loop first
//! resumes the pending flush, then drains inbound data: it reads until the
//! stream would block or shuts down, and hands each outcome to
//! [`on_read_event`], which advances the protocol state over every complete
//! line in the chunk, enqueues the replies, and says whether to keep
//! reading, suspend, close the slot, or fail the connection.

use vstd::prelude::*;
use crate::protocol::{lines_of, lemma_lines_of_len};
use crate::session::SendQueue;
use crate::state::{
    count_of, diags_of, handle_line, lemma_run_lines_push, replies_of, run_lines, ProtocolState,
    StateModel,
};

verus! {

/// What one non-blocking read of the stream produced, as the reactor loop
/// reports it.
#[derive(Debug, Clone, PartialEq, Eq)]
pub enum ReadEvent {
    /// The stream was not ready: a transient condition, not a failure.
    WouldBlock,
    /// The stream delivered these bytes; empty means the peer closed the
    /// stream in an orderly fashion.
    Data(Vec<u8>),
    /// The stream failed with a connection-fatal error.
    Failed,
}

/// How a read outcome is classified.
#[derive(Debug, Clone, Copy, PartialEq, Eq)]
pub enum ReadClass {
    /// Would block: the computation suspends until the next wake-up.
    Suspend,
    /// Bytes arrived and are to be processed.
    Delivered,
    /// A zero-length read: the peer closed the stream cleanly.
    Shutdown,
    /// A connection-fatal error.
    Fatal,
}

/// Classifies one read outcome. A zero-length read is always a clean
/// shutdown, distinct from a would-block suspension and distinct from a
/// fatal error.
pub fn classify_read(ev: &ReadEvent) -> (r: ReadClass)
    ensures
        (r == ReadClass::Suspend) == (ev is WouldBlock),
        (r == ReadClass::Shutdown) == (ev matches ReadEvent::Data(d) && d@.len() == 0),
        (r == ReadClass::Delivered) == (ev matches ReadEvent::Data(d) && d@.len() > 0),
        (r == ReadClass::Fatal) == (ev is Failed),
{
    match ev {
        ReadEvent::WouldBlock => ReadClass::Suspend,
        ReadEvent::Data(d) => {
            if d.len() == 0 {
                ReadClass::Shutdown
            } else {
                ReadClass::Delivered
            }
        },
        ReadEvent::Failed => ReadClass::Fatal,
    }
}

/// One connection as the library sees it: the protocol state of its
/// suspended computation and its outbound queue. The socket itself stays
/// with the reactor loop.
pub struct Connection {
    /// Where the connection's protocol interaction stands.
    pub state: ProtocolState,
    /// The connection's outbound byte queue.
    pub out: SendQueue,
}

impl Connection {
    /// The connection's invariant: its queue accounting is sound.
    pub open spec fn wf(self) -> bool {
        self.out.wf()
    }

    /// A fresh connection: awaiting its handshake, with the given bytes
    /// already enqueued to send.
    pub fn new(greeting: &[u8]) -> (r: Connection)
        ensures
            r.wf(),
            r.state@ == StateModel::AwaitingHandshake,
            r.out.pending() == greeting@,
            r.out.transmitted() == Seq::<u8>::empty(),
            r.out.enqueued() == greeting@,
    {
        let mut out = SendQueue::new();
        out.append_to_write(greeting);
        proof {
            assert(Seq::<u8>::empty() + greeting@ =~= greeting@);
        }
        Connection { state: ProtocolState::AwaitingHandshake, out }
    }
}

/// Advances a connection over every complete line of one inbound chunk, in
/// order: the state takes every transition, the replies are appended to
/// the outbound queue in order, and the protocol-violation lines are
/// returned for reporting.
pub fn process_chunk(conn: &mut Connection, chunk: &[u8]) -> (diags: Vec<Vec<u8>>)
    requires
        old(conn).wf(),
        count_of(old(conn).state@) + chunk@.len() <= u64::MAX,
    ensures
        final(conn).wf(),
        final(conn).state@ == run_lines(old(conn).state@, lines_of(chunk@)),
        final(conn).out.pending() == old(conn).out.pending() + replies_of(
            old(conn).state@,
            lines_of(chunk@),
        ),
        final(conn).out.transmitted() == old(conn).out.transmitted(),
        final(conn).out.enqueued() == old(conn).out.enqueued() + replies_of(
            old(conn).state@,
            lines_of(chunk@),
        ),
        diags@.len() == diags_of(old(conn).state@, lines_of(chunk@)).len(),
        forall|k: int|
            0 <= k < diags@.len() ==> diags@[k]@ == diags_of(old(conn).state@, lines_of(chunk@))[k],
{
    let ghost s0 = old(conn).state@;
    let ghost p0 = old(conn).out.pending();
    let ghost t0 = old(conn).out.transmitted();
    let ghost e0 = old(conn).out.enqueued();
    let lines = crate::protocol::split_lines(chunk);
    let ghost ls = lines_of(chunk@);
    proof {
        lemma_lines_of_len(chunk@);
        assert(ls.take(0) =~= Seq::<Seq<u8>>::empty());
        assert(p0 + replies_of(s0, ls.take(0)) =~= p0);
        assert(e0 + replies_of(s0, ls.take(0)) =~= e0);
    }
    let mut diags: Vec<Vec<u8>> = Vec::new();
    let mut i: usize = 0;
    while i < lines.len()
        invariant
            0 <= i <= lines@.len(),
            lines@.len() == ls.len(),
            ls == lines_of(chunk@),
            ls.len() <= chunk@.len(),
            count_of(s0) + chunk@.len() <= u64::MAX,
            forall|k: int| 0 <= k < lines@.len() ==> lines@[k]@ == ls[k],
            conn.state@ == run_lines(s0, ls.take(i as int)),
            count_of(conn.state@) <= count_of(s0) + i,
            conn.out.wf(),
            conn.out.transmitted() == t0,
            conn.out.pending() == p0 + replies_of(s0, ls.take(i as int)),
            conn.out.enqueued() == e0 + replies_of(s0, ls.take(i as int)),
            diags@.len() == diags_of(s0, ls.take(i as int)).len(),
            forall|k: int|
                0 <= k < diags@.len() ==> diags@[k]@ == diags_of(s0, ls.take(i as int))[k],
        decreases lines@.len() - i,
    {
        let ghost pre = conn.state@;
        proof {
            lemma_run_lines_push(s0, ls.take(i as int), ls[i as int]);
            assert(ls.take(i + 1) =~= ls.take(i as int).push(ls[i as int]));
        }
        let line = &lines[i];
        let outcome = handle_line(&mut conn.state, line.as_slice());
        conn.out.append_to_write(outcome.reply.as_slice());
        if outcome.diag {
            diags.push(vstd::slice::slice_to_vec(line.as_slice()));
        }
        proof {
            crate::state::lemma_step_count(pre, ls[i as int]);
            assert((p0 + replies_of(s0, ls.take(i as int))) + crate::state::step_reply(
                pre,
                ls[i as int],
            ) =~= p0 + replies_of(s0, ls.take(i + 1)));
            assert((e0 + replies_of(s0, ls.take(i as int))) + crate::state::step_reply(
                pre,
                ls[i as int],
            ) =~= e0 + replies_of(s0, ls.take(i + 1)));
            if crate::state::step_diag(pre, ls[i as int]) {
                assert(diags_of(s0, ls.take(i + 1)) =~= diags_of(s0, ls.take(i as int)) + seq![
                    ls[i as int],
                ]);
            } else {
                assert(diags_of(s0, ls.take(i + 1)) =~= diags_of(s0, ls.take(i as int)));
            }
        }
        i = i + 1;
    }
    proof {
        assert(ls.take(ls.len() as int) =~= ls);
    }
    diags
}

/// What the resumption step tells the reactor loop to do next.
pub enum ResumeStep {
    /// A chunk was processed; drain the stream further before suspending.
    /// Carries the protocol-violation lines to report.
    KeepReading { diags: Vec<Vec<u8>> },
    /// The stream would block; leave the slot as it is and wait.
    Suspend,
    /// The peer closed the stream cleanly and nothing was left to send:
    /// clear the slot.
    Closed,
    /// The peer closed the stream cleanly while bytes were still queued:
    /// clear the slot and surface the unsent remainder as truncated.
    ClosedTruncated { unsent: Vec<u8> },
    /// The stream failed; clear the slot and report the connection error.
    Failed,
}

/// Resumes one connection with the outcome of one non-blocking read.
/// Delivered bytes advance the protocol state over every complete line and
/// enqueue the replies; would-block suspends; a clean shutdown closes the
/// connection, surfacing any unsent bytes as truncated; a stream failure
/// fails only this connection.
pub fn on_read_event(conn: &mut Connection, ev: &ReadEvent) -> (r: ResumeStep)
    requires
        old(conn).wf(),
        ev matches ReadEvent::Data(d) ==> count_of(old(conn).state@) + d@.len() <= u64::MAX,
    ensures
        final(conn).wf(),
        ev is WouldBlock ==> r is Suspend && *final(conn) == *old(conn),
        ev is Failed ==> r is Failed && *final(conn) == *old(conn),
        match ev {
            ReadEvent::Data(d) => {
                &&& (d@.len() == 0 ==> *final(conn) == *old(conn) && (if old(
                    conn,
                ).out.pending().len() == 0 {
                    r is Closed
                } else {
                    r matches ResumeStep::ClosedTruncated { unsent } && unsent@ == old(
                        conn,
                    ).out.pending()
                }))
                &&& (d@.len() > 0 ==> {
                    &&& r matches ResumeStep::KeepReading { diags }
                    &&& final(conn).state@ == run_lines(old(conn).state@, lines_of(d@))
                    &&& final(conn).out.pending() == old(conn).out.pending() + replies_of(
                        old(conn).state@,
                        lines_of(d@),
                    )
                    &&& final(conn).out.transmitted() == old(conn).out.transmitted()
                    &&& final(conn).out.enqueued() == old(conn).out.enqueued() + replies_of(
                        old(conn).state@,
                        lines_of(d@),
                    )
                    &&& diags@.len() == diags_of(old(conn).state@, lines_of(d@)).len()
                    &&& forall|k: int|
                        0 <= k < diags@.len() ==> diags@[k]@ == diags_of(
                            old(conn).state@,
                            lines_of(d@),
                        )[k]
                })
            },
            _ => true,
        },
{
    match classify_read(ev) {
        ReadClass::Suspend => ResumeStep::Suspend,
        ReadClass::Fatal => ResumeStep::Failed,
        ReadClass::Shutdown => {
            if conn.out.pending_len() == 0 {
                ResumeStep::Closed
            } else {
                ResumeStep::ClosedTruncated { unsent: conn.out.unsent() }
            }
        },
        ReadClass::Delivered => {
            match ev {
                ReadEvent::Data(d) => {
                    let diags = process_chunk(conn, d.as_slice());
                    ResumeStep::KeepReading { diags }
                },
                _ => ResumeStep::Suspend,
            }
        },
    }
}

} // verus!
