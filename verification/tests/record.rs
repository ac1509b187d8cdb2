//! Readiness records, queue creation, registration and the wait path.

use epoll_mux::event::{Event, EPOLLET, EPOLLIN, EPOLL_CTL_ADD};
use epoll_mux::poll::{Error, Poll, Registry};

#[test]
fn record_round_trip_token_and_mask() {
    let e = Event::new(EPOLLIN | EPOLLET, 3);
    assert_eq!(e.token(), 3);
    assert_eq!(e.mask(), EPOLLIN | EPOLLET);
}

#[test]
fn record_round_trip_maximum_token() {
    let e = Event::new(EPOLLIN, usize::MAX);
    assert_eq!(e.token(), usize::MAX);
}

#[test]
fn record_round_trip_zero() {
    let e = Event::new(0, 0);
    assert_eq!(e.token(), 0);
    assert_eq!(e.mask(), 0);
}

#[test]
fn interest_flags_match_kernel_abi() {
    assert_eq!(EPOLLIN, 0x1);
    assert_eq!(EPOLLET, 1u32 << 31);
    assert_eq!(EPOLL_CTL_ADD, 1);
}

#[test]
fn queue_creation_adopts_descriptor() {
    let p = Poll::new(5, 0).unwrap();
    assert_eq!(p.registry().raw_fd(), 5);
}

#[test]
fn queue_creation_failure_surfaces_error() {
    let r = Poll::new(-1, 12);
    assert_eq!(r.err(), Some(Error { code: 12 }));
}

#[test]
fn registration_record_carries_interest_and_token() {
    let p = Poll::new(4, 0).unwrap();
    let reg: &Registry = p.registry();
    let e = reg.registration(2, EPOLLIN | EPOLLET);
    assert_eq!(e, Event::new(EPOLLIN | EPOLLET, 2));
}

#[test]
fn registration_success() {
    let p = Poll::new(4, 0).unwrap();
    assert_eq!(p.registry().register(0, 0), Ok(()));
}

#[test]
fn registration_against_closed_queue_fails() {
    // A control call on a closed queue handle returns a negative status and
    // leaves the platform's "bad descriptor" code; the error is surfaced and
    // the record buffer is untouched (no wait completion happens at all).
    let p = Poll::new(4, 0).unwrap();
    let r = p.registry().register(-1, 9);
    assert_eq!(r, Err(Error { code: 9 }));
}

#[test]
fn close_failure_is_reported_not_propagated() {
    assert_eq!(Registry::close_report(-1, 9), Some(Error { code: 9 }));
    assert_eq!(Registry::close_report(0, 0), None);
}

#[test]
fn wait_timeout_argument() {
    assert_eq!(Poll::wait_timeout_arg(None), -1);
    assert_eq!(Poll::wait_timeout_arg(Some(0)), 0);
    assert_eq!(Poll::wait_timeout_arg(Some(2500)), 2500);
}

#[test]
fn wait_zero_records_is_empty_not_error() {
    // Zero registered connections and a finite timeout: the kernel reports
    // zero records, which is a timeout, not an error.
    let p = Poll::new(3, 0).unwrap();
    let mut buf = vec![Event::new(0, 0); 10];
    let r = p.poll(&mut buf, 0, 0);
    assert_eq!(r, Ok(()));
    assert!(buf.is_empty());
}

#[test]
fn wait_keeps_exactly_the_returned_records() {
    let p = Poll::new(3, 0).unwrap();
    let mut buf = vec![Event::new(EPOLLIN, 0), Event::new(EPOLLIN, 1), Event::new(0, 9)];
    let r = p.poll(&mut buf, 2, 0);
    assert_eq!(r, Ok(()));
    assert_eq!(buf.len(), 2);
    assert_eq!(buf[0].token(), 0);
    assert_eq!(buf[1].token(), 1);
}

#[test]
fn wait_never_returns_more_than_capacity() {
    // Even if the kernel claimed more ready descriptors than the buffer has
    // slots, no record past the capacity is ever handed out.
    let p = Poll::new(3, 0).unwrap();
    let mut buf = vec![Event::new(EPOLLIN, 0); 4];
    let r = p.poll(&mut buf, 9, 0);
    assert_eq!(r, Ok(()));
    assert_eq!(buf.len(), 4);
}

#[test]
fn wait_failure_surfaces_error_and_keeps_slots() {
    let p = Poll::new(3, 0).unwrap();
    let mut buf = vec![Event::new(EPOLLIN, 7); 2];
    let r = p.poll(&mut buf, -1, 4);
    assert_eq!(r, Err(Error { code: 4 }));
    assert_eq!(buf.len(), 2);
    assert_eq!(buf[0].token(), 7);
}
