use line_reactor::driver::{
    classify_read, on_read_event, process_chunk, Connection, ReadClass, ReadEvent, ResumeStep,
};
use line_reactor::session::{FlushStatus, WriteAttempt};
use line_reactor::state::ProtocolState;
use line_reactor::table::ConnTable;

#[test]
fn zero_length_read_is_clean_shutdown() {
    assert_eq!(classify_read(&ReadEvent::Data(Vec::new())), ReadClass::Shutdown);
    assert_eq!(classify_read(&ReadEvent::WouldBlock), ReadClass::Suspend);
    assert_eq!(classify_read(&ReadEvent::Failed), ReadClass::Fatal);
    assert_eq!(classify_read(&ReadEvent::Data(b"x".to_vec())), ReadClass::Delivered);
}

#[test]
fn blank_line_before_handshake_is_ignored() {
    let mut conn = Connection::new(b"");
    let diags = process_chunk(&mut conn, b" \0\t \0 \n");
    assert_eq!(diags, Vec::<Vec<u8>>::new());
    assert_eq!(conn.state, ProtocolState::AwaitingHandshake);
    assert_eq!(conn.out.pending_len(), 0);
}

/// Scenario: the peer sends `name GREEN`, then two more lines, then
/// closes; the final state before closure is `Established("GREEN", 3)`.
#[test]
fn handshake_then_two_lines() {
    let mut conn = Connection::new(b"");
    for chunk in [&b"name GREEN\n"[..], b"hello\n", b"world\n"] {
        let step = on_read_event(&mut conn, &ReadEvent::Data(chunk.to_vec()));
        assert!(matches!(step, ResumeStep::KeepReading { .. }));
    }
    assert_eq!(
        conn.state,
        ProtocolState::Established { name: b"GREEN".to_vec(), count: 3 }
    );
    // The second established message drew the scripted reply.
    assert_eq!(conn.out.unsent(), b"echo Hello from GREEN peer!\nexit\n".to_vec());

    // Drain the queue, then the clean shutdown closes the connection.
    let pending = conn.out.pending_len();
    assert_eq!(conn.out.flush_if_pending(WriteAttempt::Wrote(pending)), FlushStatus::Complete);
    let step = on_read_event(&mut conn, &ReadEvent::Data(Vec::new()));
    assert!(matches!(step, ResumeStep::Closed));
}

/// Scenario: `garbage` first leaves the state untouched and records a
/// protocol-violation diagnostic; `name X` afterwards still establishes.
#[test]
fn garbage_then_handshake() {
    let mut conn = Connection::new(b"");
    let step = on_read_event(&mut conn, &ReadEvent::Data(b"garbage\n".to_vec()));
    match step {
        ResumeStep::KeepReading { diags } => assert_eq!(diags, vec![b"garbage".to_vec()]),
        _ => panic!("expected more reading"),
    }
    assert_eq!(conn.state, ProtocolState::AwaitingHandshake);

    let step = on_read_event(&mut conn, &ReadEvent::Data(b"name X\n".to_vec()));
    match step {
        ResumeStep::KeepReading { diags } => assert_eq!(diags, Vec::<Vec<u8>>::new()),
        _ => panic!("expected more reading"),
    }
    assert_eq!(conn.state, ProtocolState::Established { name: b"X".to_vec(), count: 1 });
}

#[test]
fn one_chunk_may_carry_many_lines() {
    let mut conn = Connection::new(b"");
    let diags = process_chunk(&mut conn, b"bad\nname B\nx\ny\nz");
    assert_eq!(diags, vec![b"bad".to_vec()]);
    assert_eq!(conn.state, ProtocolState::Established { name: b"B".to_vec(), count: 4 });
    assert_eq!(conn.out.unsent(), b"echo Hello from B peer!\nexit\n".to_vec());
}

#[test]
fn shutdown_with_pending_bytes_is_truncation() {
    let mut conn = Connection::new(b"tail");
    let step = on_read_event(&mut conn, &ReadEvent::Data(Vec::new()));
    match step {
        ResumeStep::ClosedTruncated { unsent } => assert_eq!(unsent, b"tail".to_vec()),
        _ => panic!("expected a truncation"),
    }
}

#[test]
fn would_block_suspends_and_failure_fails() {
    let mut conn = Connection::new(b"queued");
    let step = on_read_event(&mut conn, &ReadEvent::WouldBlock);
    assert!(matches!(step, ResumeStep::Suspend));
    assert_eq!(conn.out.unsent(), b"queued".to_vec());
    let step = on_read_event(&mut conn, &ReadEvent::Failed);
    assert!(matches!(step, ResumeStep::Failed));
}

/// Scenario: two connections run side by side; clearing slot 0 must not
/// disturb connection 1's state, buffered output, or later resumption.
#[test]
fn clearing_one_slot_leaves_the_other_alone() {
    let mut table = ConnTable::new();
    let id0 = table.add(Connection::new(b"zero"));
    let id1 = table.add(Connection::new(b"one"));
    assert_eq!(id0, 0);
    assert_eq!(id1, 1);

    // Advance connection 1 past its handshake.
    let mut conn1 = table.take_conn(id1);
    let step = on_read_event(&mut conn1, &ReadEvent::Data(b"name RED\n".to_vec()));
    assert!(matches!(step, ResumeStep::KeepReading { .. }));
    table.put_conn(id1, conn1);

    // Connection 0 closes; its slot is cleared for good.
    table.clear(id0);
    assert!(!table.is_occupied(id0));
    assert!(table.is_occupied(id1));
    assert!(table.any_occupied());

    // Connection 1 still holds its state and buffered output, and can be
    // resumed.
    let mut conn1 = table.take_conn(id1);
    assert_eq!(conn1.state, ProtocolState::Established { name: b"RED".to_vec(), count: 1 });
    assert_eq!(conn1.out.unsent(), b"one".to_vec());
    let step = on_read_event(&mut conn1, &ReadEvent::Data(b"still alive\n".to_vec()));
    assert!(matches!(step, ResumeStep::KeepReading { .. }));
    assert_eq!(conn1.state, ProtocolState::Established { name: b"RED".to_vec(), count: 2 });
    table.put_conn(id1, conn1);

    table.clear(id1);
    assert!(!table.any_occupied());
}

#[test]
fn established_counts_every_line() {
    let mut conn = Connection::new(b"");
    process_chunk(&mut conn, b"name N\n");
    let diags = process_chunk(&mut conn, b"\n\n");
    assert_eq!(diags, Vec::<Vec<u8>>::new());
    assert_eq!(conn.state, ProtocolState::Established { name: b"N".to_vec(), count: 3 });
}
