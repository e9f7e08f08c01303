use line_reactor::session::{FlushStatus, SendQueue, WriteAttempt};

#[test]
fn flush_on_empty_queue_is_complete_without_io() {
    let mut q = SendQueue::new();
    assert_eq!(q.flush_if_pending(WriteAttempt::NotAttempted), FlushStatus::Complete);
    assert_eq!(q.flush_if_pending(WriteAttempt::NotAttempted), FlushStatus::Complete);
    assert_eq!(q.pending_len(), 0);
    assert_eq!(q.unsent(), Vec::<u8>::new());
}

#[test]
fn would_block_loses_nothing() {
    let mut q = SendQueue::new();
    q.append_to_write(b"hello");
    assert_eq!(q.flush_if_pending(WriteAttempt::WouldBlock), FlushStatus::StillPending);
    assert_eq!(q.unsent(), b"hello".to_vec());
}

#[test]
fn enqueue_during_flush_keeps_order() {
    let mut q = SendQueue::new();
    q.append_to_write(b"abc");
    assert_eq!(q.flush_if_pending(WriteAttempt::Wrote(2)), FlushStatus::StillPending);
    q.append_to_write(b"def");
    assert_eq!(q.unsent(), b"cdef".to_vec());
    assert_eq!(q.flush_if_pending(WriteAttempt::Wrote(4)), FlushStatus::Complete);
    assert_eq!(q.pending_len(), 0);
}

#[test]
fn zero_byte_write_stays_pending() {
    let mut q = SendQueue::new();
    q.append_to_write(b"xy");
    assert_eq!(q.flush_if_pending(WriteAttempt::Wrote(0)), FlushStatus::StillPending);
    assert_eq!(q.unsent(), b"xy".to_vec());
}

/// An enqueue of 5000 bytes against a stream that accepts at most 1500
/// bytes per write call drains to empty across exactly 4 successful
/// partial writes (1500 + 1500 + 1500 + 500), no byte lost or duplicated.
#[test]
fn partial_writes_drain_in_four_steps() {
    let payload: Vec<u8> = (0..5000).map(|i| (i % 251) as u8).collect();
    let mut q = SendQueue::new();
    q.append_to_write(&payload);

    let mut transmitted: Vec<u8> = Vec::new();
    let mut statuses: Vec<FlushStatus> = Vec::new();
    let mut writes = 0;
    loop {
        let pending = q.unsent();
        if pending.is_empty() {
            assert_eq!(q.flush_if_pending(WriteAttempt::NotAttempted), FlushStatus::Complete);
            break;
        }
        let accepted = pending.len().min(1500);
        transmitted.extend_from_slice(&pending[..accepted]);
        statuses.push(q.flush_if_pending(WriteAttempt::Wrote(accepted)));
        writes += 1;
        assert!(writes <= 4);
    }
    assert_eq!(writes, 4);
    assert_eq!(
        statuses,
        vec![
            FlushStatus::StillPending,
            FlushStatus::StillPending,
            FlushStatus::StillPending,
            FlushStatus::Complete,
        ]
    );
    assert_eq!(transmitted, payload);
    assert_eq!(q.pending_len(), 0);
}

#[test]
fn interleaved_enqueues_and_partial_writes_preserve_order() {
    let mut q = SendQueue::new();
    let mut transmitted: Vec<u8> = Vec::new();
    let mut enqueued: Vec<u8> = Vec::new();

    let pieces: [&[u8]; 3] = [b"first ", b"second ", b"third"];
    for (round, piece) in pieces.iter().enumerate() {
        q.append_to_write(piece);
        enqueued.extend_from_slice(piece);
        let pending = q.unsent();
        let accepted = pending.len().min(round * 2 + 1);
        transmitted.extend_from_slice(&pending[..accepted]);
        q.flush_if_pending(WriteAttempt::Wrote(accepted));
    }
    loop {
        let pending = q.unsent();
        if pending.is_empty() {
            break;
        }
        let accepted = pending.len().min(3);
        transmitted.extend_from_slice(&pending[..accepted]);
        q.flush_if_pending(WriteAttempt::Wrote(accepted));
    }
    assert_eq!(transmitted, enqueued);
}
