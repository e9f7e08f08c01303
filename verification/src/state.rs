//! The line-oriented protocol state machine: a closed set of states and a
//! pure transition function over complete lines.
//!
//! A connection starts in `AwaitingHandshake`. A handshake line of the form
//! `name <value>` establishes the peer name with the message counter at 1;
//! every later line increments the counter. Before the handshake, an empty
//! line is ignored and any other line is reported as a protocol violation
//! without terminating the connection. Once established, the machine
//! answers the second message with a fixed greeting followed by an exit
//! command.

use vstd::prelude::*;
use crate::protocol::{argument_of, clean_line, command_of, name_command, get_name};

verus! {

/// The protocol state of one connection, as the contracts speak of it.
pub enum StateModel {
    AwaitingHandshake,
    Established { name: Seq<u8>, count: nat },
}

/// The protocol state of one connection.
#[derive(Debug, Clone, PartialEq, Eq)]
pub enum ProtocolState {
    AwaitingHandshake,
    Established { name: Vec<u8>, count: u64 },
}

impl View for ProtocolState {
    type V = StateModel;

    open spec fn view(&self) -> StateModel {
        match self {
            ProtocolState::AwaitingHandshake => StateModel::AwaitingHandshake,
            ProtocolState::Established { name, count } => StateModel::Established {
                name: name@,
                count: *count as nat,
            },
        }
    }
}

/// The message counter a state stands at; counting starts when the
/// handshake succeeds.
pub open spec fn count_of(s: StateModel) -> nat {
    match s {
        StateModel::AwaitingHandshake => 0,
        StateModel::Established { count, .. } => count,
    }
}

/// The state after one complete line.
pub open spec fn step_state(s: StateModel, line: Seq<u8>) -> StateModel {
    match s {
        StateModel::AwaitingHandshake => {
            if command_of(line) == name_command() {
                StateModel::Established { name: argument_of(line), count: 1 }
            } else {
                StateModel::AwaitingHandshake
            }
        },
        StateModel::Established { name, count } => StateModel::Established {
            name,
            count: count + 1,
        },
    }
}

/// Whether one complete line is a protocol violation: a non-empty,
/// non-handshake line received before the handshake.
pub open spec fn step_diag(s: StateModel, line: Seq<u8>) -> bool {
    &&& s is AwaitingHandshake
    &&& command_of(line) != name_command()
    &&& clean_line(line).len() != 0
}

/// The greeting sent back to an established peer, by name.
pub open spec fn reply_for(name: Seq<u8>) -> Seq<u8> {
    reply_prefix() + name + reply_suffix()
}

/// The bytes of `echo Hello from `.
pub open spec fn reply_prefix() -> Seq<u8> {
    seq![101u8, 99u8, 104u8, 111u8, 32u8, 72u8, 101u8, 108u8, 108u8, 111u8, 32u8, 102u8, 114u8,
        111u8, 109u8, 32u8]
}

/// The bytes of ` peer!`, a line feed, `exit`, and a line feed.
pub open spec fn reply_suffix() -> Seq<u8> {
    seq![32u8, 112u8, 101u8, 101u8, 114u8, 33u8, 10u8, 101u8, 120u8, 105u8, 116u8, 10u8]
}

/// The bytes the machine sends in answer to one complete line: the
/// greeting when the second established message arrives, nothing
/// otherwise.
pub open spec fn step_reply(s: StateModel, line: Seq<u8>) -> Seq<u8> {
    match s {
        StateModel::Established { name, count } => {
            if count == 2 {
                reply_for(name)
            } else {
                Seq::empty()
            }
        },
        StateModel::AwaitingHandshake => Seq::empty(),
    }
}

/// The outcome of feeding one complete line to the state machine.
pub struct LineOutcome {
    /// Whether the line was a protocol violation to report.
    pub diag: bool,
    /// The bytes to enqueue on the outbound queue in answer to the line.
    pub reply: Vec<u8>,
}

/// Builds the greeting for an established peer.
pub fn reply_for_exec(name: &[u8]) -> (r: Vec<u8>)
    ensures
        r@ == reply_for(name@),
{
    let prefix: [u8; 16] = [101, 99, 104, 111, 32, 72, 101, 108, 108, 111, 32, 102, 114, 111,
        109, 32];
    let suffix: [u8; 12] = [32, 112, 101, 101, 114, 33, 10, 101, 120, 105, 116, 10];
    let mut out: Vec<u8> = Vec::new();
    push_all(&mut out, prefix.as_slice());
    push_all(&mut out, name);
    push_all(&mut out, suffix.as_slice());
    proof {
        assert(prefix@ =~= reply_prefix());
        assert(suffix@ =~= reply_suffix());
        assert(out@ =~= reply_for(name@));
    }
    out
}

/// Appends every byte of `src` to the end of `dst`.
pub fn push_all(dst: &mut Vec<u8>, src: &[u8])
    ensures
        final(dst)@ == old(dst)@ + src@,
{
    let mut i: usize = 0;
    proof {
        assert(dst@ =~= old(dst)@ + src@.take(0));
    }
    while i < src.len()
        invariant
            0 <= i <= src@.len(),
            dst@ == old(dst)@ + src@.take(i as int),
        decreases src@.len() - i,
    {
        dst.push(src[i]);
        proof {
            assert(old(dst)@ + src@.take(i as int) + seq![src@[i as int]] =~= old(dst)@
                + src@.take(i + 1));
        }
        i = i + 1;
    }
    proof {
        assert(src@.take(src@.len() as int) =~= src@);
    }
}

/// The state after a whole sequence of complete lines, applied in order.
pub open spec fn run_lines(s: StateModel, lines: Seq<Seq<u8>>) -> StateModel
    decreases lines.len(),
{
    if lines.len() == 0 {
        s
    } else {
        run_lines(step_state(s, lines[0]), lines.drop_first())
    }
}

/// The concatenation, in order, of every reply the machine sends while the
/// lines are applied.
pub open spec fn replies_of(s: StateModel, lines: Seq<Seq<u8>>) -> Seq<u8>
    decreases lines.len(),
{
    if lines.len() == 0 {
        Seq::empty()
    } else {
        step_reply(s, lines[0]) + replies_of(step_state(s, lines[0]), lines.drop_first())
    }
}

/// The protocol-violation lines among the applied lines, in order.
pub open spec fn diags_of(s: StateModel, lines: Seq<Seq<u8>>) -> Seq<Seq<u8>>
    decreases lines.len(),
{
    if lines.len() == 0 {
        Seq::empty()
    } else {
        let head: Seq<Seq<u8>> = if step_diag(s, lines[0]) {
            seq![lines[0]]
        } else {
            Seq::empty()
        };
        head + diags_of(step_state(s, lines[0]), lines.drop_first())
    }
}

pub proof fn lemma_run_lines_push(s: StateModel, lines: Seq<Seq<u8>>, x: Seq<u8>)
    ensures
        run_lines(s, lines.push(x)) == step_state(run_lines(s, lines), x),
        replies_of(s, lines.push(x)) == replies_of(s, lines) + step_reply(run_lines(s, lines), x),
        diags_of(s, lines.push(x)) == diags_of(s, lines) + (if step_diag(run_lines(s, lines), x) {
            seq![x]
        } else {
            Seq::<Seq<u8>>::empty()
        }),
    decreases lines.len(),
{
    if lines.len() == 0 {
        let empty_lines = Seq::<Seq<u8>>::empty();
        let l1 = lines.push(x);
        let s1 = step_state(s, x);
        assert(l1[0] == x);
        assert(l1.drop_first() =~= empty_lines);
        assert(run_lines(s1, empty_lines) == s1);
        assert(replies_of(s1, empty_lines) == Seq::<u8>::empty());
        assert(diags_of(s1, empty_lines) == empty_lines);
        assert(run_lines(s, l1) == s1);
        assert(replies_of(s, l1) =~= step_reply(s, x));
        let dtail: Seq<Seq<u8>> = if step_diag(s, x) {
            seq![x]
        } else {
            empty_lines
        };
        assert(diags_of(s, l1) =~= dtail);
        assert(replies_of(s, lines) + step_reply(s, x) =~= step_reply(s, x));
        assert(diags_of(s, lines) + dtail =~= dtail);
    } else {
        let s1 = step_state(s, lines[0]);
        assert(lines.push(x)[0] == lines[0]);
        assert(lines.push(x).drop_first() =~= lines.drop_first().push(x));
        lemma_run_lines_push(s1, lines.drop_first(), x);
        assert(run_lines(s, lines) == run_lines(s1, lines.drop_first()));
        assert(replies_of(s, lines.push(x)) == step_reply(s, lines[0]) + replies_of(
            s1,
            lines.drop_first().push(x),
        ));
        assert(step_reply(s, lines[0]) + (replies_of(s1, lines.drop_first()) + step_reply(
            run_lines(s, lines),
            x,
        )) =~= (step_reply(s, lines[0]) + replies_of(s1, lines.drop_first())) + step_reply(
            run_lines(s, lines),
            x,
        ));
        let dhead: Seq<Seq<u8>> = if step_diag(s, lines[0]) {
            seq![lines[0]]
        } else {
            Seq::empty()
        };
        let dtail: Seq<Seq<u8>> = if step_diag(run_lines(s, lines), x) {
            seq![x]
        } else {
            Seq::empty()
        };
        assert(dhead + (diags_of(s1, lines.drop_first()) + dtail) =~= (dhead + diags_of(
            s1,
            lines.drop_first(),
        )) + dtail);
    }
}

/// Applying one line raises the message counter by at most one.
pub proof fn lemma_step_count(s: StateModel, line: Seq<u8>)
    ensures
        count_of(step_state(s, line)) <= count_of(s) + 1,
{
}

proof fn lemma_strip_nulls_all_space(s: Seq<u8>)
    requires
        forall|k: int| 0 <= k < s.len() ==> s[k] == 0 || crate::protocol::is_space(s[k]),
    ensures
        forall|k: int|
            0 <= k < crate::protocol::strip_nulls(s).len() ==> crate::protocol::is_space(
                crate::protocol::strip_nulls(s)[k],
            ),
    decreases s.len(),
{
    if s.len() > 0 {
        let t = s.drop_last();
        assert(forall|k: int| 0 <= k < t.len() ==> t[k] == s[k]);
        lemma_strip_nulls_all_space(t);
        let r = crate::protocol::strip_nulls(s);
        if s.last() == 0 {
        } else {
            assert(s.last() == s[s.len() - 1]);
            assert(crate::protocol::is_space(s.last()));
            assert forall|k: int| 0 <= k < r.len() implies crate::protocol::is_space(r[k]) by {
                let p = crate::protocol::strip_nulls(t);
                if k < p.len() {
                    assert(r[k] == p[k]);
                } else {
                    assert(r[k] == s.last());
                }
            }
        }
    }
}

proof fn lemma_trim_front_all_space(s: Seq<u8>)
    requires
        forall|k: int| 0 <= k < s.len() ==> crate::protocol::is_space(s[k]),
    ensures
        crate::protocol::trim_front(s).len() == 0,
    decreases s.len(),
{
    if s.len() > 0 {
        let t = s.subrange(1, s.len() as int);
        assert(forall|k: int| 0 <= k < t.len() ==> t[k] == s[k + 1]);
        lemma_trim_front_all_space(t);
    }
}

/// Law: a line holding only whitespace and null bytes, received before the
/// handshake, leaves the state at `AwaitingHandshake` and produces no
/// protocol-violation diagnostic and no reply.
pub proof fn lemma_blank_line_ignored(line: Seq<u8>)
    requires
        forall|k: int| 0 <= k < line.len() ==> line[k] == 0 || crate::protocol::is_space(line[k]),
    ensures
        step_state(StateModel::AwaitingHandshake, line) == StateModel::AwaitingHandshake,
        !step_diag(StateModel::AwaitingHandshake, line),
        step_reply(StateModel::AwaitingHandshake, line) == Seq::<u8>::empty(),
{
    lemma_strip_nulls_all_space(line);
    lemma_trim_front_all_space(crate::protocol::strip_nulls(line));
    assert(clean_line(line).len() == 0);
    assert(command_of(line).len() == 0);
    assert(name_command().len() == 4);
}

/// Feeds one complete line to the state machine: advances the state and
/// returns the violation flag and the bytes to send in answer.
pub fn handle_line(state: &mut ProtocolState, line: &[u8]) -> (r: LineOutcome)
    requires
        count_of(old(state)@) < u64::MAX,
    ensures
        final(state)@ == step_state(old(state)@, line@),
        r.diag == step_diag(old(state)@, line@),
        r.reply@ == step_reply(old(state)@, line@),
{
    match state {
        ProtocolState::AwaitingHandshake => {
            let mut name: Vec<u8> = Vec::new();
            if get_name(line, &mut name) {
                *state = ProtocolState::Established { name, count: 1 };
                LineOutcome { diag: false, reply: Vec::new() }
            } else {
                let cleaned = crate::protocol::clean_line_exec(line);
                LineOutcome { diag: cleaned.len() > 0, reply: Vec::new() }
            }
        },
        ProtocolState::Established { name, count } => {
            let reply = if *count == 2 {
                reply_for_exec(name.as_slice())
            } else {
                Vec::new()
            };
            *count = *count + 1;
            LineOutcome { diag: false, reply }
        },
    }
}

} // verus!
