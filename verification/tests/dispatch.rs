//! The dispatch state machine: drain discipline and completion counting.

use epoll_mux::dispatch::{ConnState, Dispatcher, DrainAction, ReadOutcome};
use epoll_mux::event::{Event, EPOLLIN};
use epoll_mux::poll::Error;

#[test]
fn new_dispatcher_all_pending() {
    let d = Dispatcher::new(3);
    assert_eq!(d.total_connections(), 3);
    assert_eq!(d.finished_count(), 0);
    assert!(!d.done());
    for token in 0..3 {
        assert_eq!(d.connection_state(token), ConnState::Pending);
    }
}

#[test]
fn data_keeps_the_drain_going() {
    let mut d = Dispatcher::new(1);
    let a = d.drain_step(0, ReadOutcome::Data(4096));
    assert_eq!(a, DrainAction::Continue);
    assert_eq!(d.finished_count(), 0);
    assert_eq!(d.connection_state(0), ConnState::Pending);
}

#[test]
fn would_block_stops_the_pass() {
    let mut d = Dispatcher::new(1);
    assert_eq!(d.drain_step(0, ReadOutcome::WouldBlock), DrainAction::Stop);
    assert_eq!(d.connection_state(0), ConnState::Pending);
}

#[test]
fn interruption_stops_the_pass() {
    let mut d = Dispatcher::new(1);
    assert_eq!(d.drain_step(0, ReadOutcome::Interrupted), DrainAction::Stop);
    assert_eq!(d.connection_state(0), ConnState::Pending);
}

#[test]
fn first_eof_finishes_the_connection() {
    let mut d = Dispatcher::new(2);
    assert_eq!(d.drain_step(1, ReadOutcome::Eof), DrainAction::Stop);
    assert_eq!(d.finished_count(), 1);
    assert_eq!(d.connection_state(1), ConnState::Finished);
    assert_eq!(d.connection_state(0), ConnState::Pending);
}

#[test]
fn repeated_eof_is_counted_once() {
    // Notifications can repeat end-of-stream for a closed connection across
    // cycles; only the first one moves the count.
    let mut d = Dispatcher::new(1);
    for _ in 0..4 {
        assert_eq!(d.drain_step(0, ReadOutcome::Eof), DrainAction::Stop);
    }
    assert_eq!(d.finished_count(), 1);
    assert!(d.done());
}

#[test]
fn fatal_read_aborts_the_cycle() {
    let mut d = Dispatcher::new(1);
    assert_eq!(d.drain_step(0, ReadOutcome::Fatal(104)), DrainAction::Fail(104));
    assert_eq!(d.finished_count(), 0);
}

#[test]
fn drain_reads_every_chunk_before_blocking() {
    // Edge-triggered discipline: the pass never ends just because one read
    // succeeded; it goes on until the read would block.
    let mut d = Dispatcher::new(1);
    let script = vec![
        ReadOutcome::Data(100),
        ReadOutcome::Data(50),
        ReadOutcome::Data(1),
        ReadOutcome::WouldBlock,
    ];
    assert_eq!(d.drain(0, &script), Ok(0));
    assert_eq!(d.connection_state(0), ConnState::Pending);
}

#[test]
fn drain_continues_past_data_to_eof() {
    // An implementation that stopped after the first successful read would
    // return no completion here.
    let mut d = Dispatcher::new(1);
    let script = vec![ReadOutcome::Data(10), ReadOutcome::Eof];
    assert_eq!(d.drain(0, &script), Ok(1));
    assert_eq!(d.connection_state(0), ConnState::Finished);
    assert!(d.done());
}

#[test]
fn drain_fatal_surfaces_error_and_changes_nothing() {
    let mut d = Dispatcher::new(1);
    let script = vec![ReadOutcome::Data(10), ReadOutcome::Fatal(5)];
    assert_eq!(d.drain(0, &script), Err(Error { code: 5 }));
    assert_eq!(d.finished_count(), 0);
    assert_eq!(d.connection_state(0), ConnState::Pending);
}

#[test]
fn drain_second_pass_after_eof_adds_nothing() {
    let mut d = Dispatcher::new(1);
    let script = vec![ReadOutcome::Eof];
    assert_eq!(d.drain(0, &script), Ok(1));
    assert_eq!(d.drain(0, &script), Ok(0));
    assert_eq!(d.finished_count(), 1);
}

#[test]
fn five_connections_drain_and_finish() {
    // Five non-blocking connections, each delivering one chunk of data and
    // then an orderly close.  The first cycle reads every chunk in full and
    // leaves every connection pending; the second records each close once.
    let mut d = Dispatcher::new(5);
    let records: Vec<Event> = (0..5).map(|t| Event::new(EPOLLIN, t)).collect();

    let first_cycle: Vec<Vec<ReadOutcome>> =
        (0..5).map(|_| vec![ReadOutcome::Data(512), ReadOutcome::WouldBlock]).collect();
    assert_eq!(d.handle_events(&records, &first_cycle), Ok(0));
    assert_eq!(d.finished_count(), 0);

    let second_cycle: Vec<Vec<ReadOutcome>> = (0..5).map(|_| vec![ReadOutcome::Eof]).collect();
    assert_eq!(d.handle_events(&records, &second_cycle), Ok(5));
    assert_eq!(d.finished_count(), 5);
    assert!(d.done());
    for token in 0..5 {
        assert_eq!(d.connection_state(token), ConnState::Finished);
    }
}

#[test]
fn cycle_with_no_records_finishes_nothing() {
    let mut d = Dispatcher::new(2);
    let records: Vec<Event> = Vec::new();
    let scripts = vec![vec![ReadOutcome::WouldBlock], vec![ReadOutcome::WouldBlock]];
    assert_eq!(d.handle_events(&records, &scripts), Ok(0));
    assert_eq!(d.finished_count(), 0);
}

#[test]
fn fatal_read_aborts_cycle_but_keeps_earlier_completions() {
    let mut d = Dispatcher::new(2);
    let records = vec![Event::new(EPOLLIN, 0), Event::new(EPOLLIN, 1)];
    let scripts = vec![vec![ReadOutcome::Eof], vec![ReadOutcome::Data(8), ReadOutcome::Fatal(7)]];
    assert_eq!(d.handle_events(&records, &scripts), Err(Error { code: 7 }));
    assert_eq!(d.finished_count(), 1);
    assert_eq!(d.connection_state(0), ConnState::Finished);
    assert_eq!(d.connection_state(1), ConnState::Pending);
}

#[test]
fn dispatch_loop_terminates_once_all_close() {
    // The loop guard runs while the finished count is below the total; once
    // every peer has closed, each connection reaches Finished exactly once
    // and the guard fails.
    let mut d = Dispatcher::new(3);
    let records: Vec<Event> = (0..3).map(|t| Event::new(EPOLLIN, t)).collect();
    let mut cycles = 0;
    while d.finished_count() < d.total_connections() {
        // Every cycle repeats end-of-stream for every connection.
        let scripts: Vec<Vec<ReadOutcome>> = (0..3).map(|_| vec![ReadOutcome::Eof]).collect();
        d.handle_events(&records, &scripts).unwrap();
        cycles += 1;
        assert!(cycles < 10, "dispatch loop failed to terminate");
    }
    assert_eq!(d.finished_count(), 3);
    assert_eq!(cycles, 1);
}
