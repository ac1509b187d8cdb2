//! The registry and the poller: the verified side of the four kernel calls.
//!
//! The queue itself is an operating-system resource, reached only through
//! raw calls that the surrounding program makes.  The functions here do
//! everything around those calls: they build the record handed to the
//! control call, pick the timeout argument of the wait call, and interpret
//! each call's raw return, surfacing a negative status as the platform
//! error that was current at that moment.

use vstd::prelude::*;

use crate::event::{record_of, Event};

verus! {

/// A platform error code surfaced from a failed kernel call.
#[derive(Clone, Copy, Debug, PartialEq, Eq, Structural)]
pub struct Error {
    pub code: i32,
}

/// Owns the queue handle and registers interest on descriptors.  The handle
/// is a valid (non-negative) descriptor for the registry's whole lifetime;
/// the program that made the queue closes it exactly once, on scope exit.
pub struct Registry {
    raw_fd: i32,
}

impl Registry {
    /// The queue descriptor the registry owns.
    pub closed spec fn spec_fd(&self) -> int {
        self.raw_fd as int
    }

    /// The handle is a valid descriptor.
    pub open spec fn wf(&self) -> bool {
        0 <= self.spec_fd()
    }

    /// The raw queue descriptor, for the caller that makes the kernel calls.
    pub fn raw_fd(&self) -> (fd: i32)
        ensures
            fd as int == self.spec_fd(),
    {
        self.raw_fd
    }

    /// The readiness record handed to the control call when interest in
    /// `token`'s connection is registered: exactly `interests` and `token`.
    pub fn registration(&self, token: usize, interests: u32) -> (e: Event)
        ensures
            e == record_of(interests, token),
    {
        Event::new(interests, token)
    }

    /// Interprets the status the control call returned for a registration.
    /// A negative status is a failure (an invalid descriptor, a descriptor
    /// already registered, a closed queue), surfaced as the platform error
    /// `err` that was current after the call; nothing else fails.
    pub fn register(&self, status: i32, err: i32) -> (r: Result<(), Error>)
        ensures
            status >= 0 <==> r is Ok,
            status < 0 ==> (r matches Err(e) && e.code == err),
    {
        if status < 0 {
            Err(Error { code: err })
        } else {
            Ok(())
        }
    }

    /// Classifies the status of the close call made when the queue handle is
    /// released: a failure is reported as a diagnostic, never propagated, so
    /// the surrounding teardown always goes on.
    pub fn close_report(status: i32, err: i32) -> (r: Option<Error>)
        ensures
            status < 0 <==> r is Some,
            r matches Some(e) ==> e.code == err,
    {
        if status < 0 {
            Some(Error { code: err })
        } else {
            None
        }
    }
}

/// How many records a wait call that returned `res` leaves in a buffer of
/// `cap` slots: the kernel never fills more slots than it was handed.
pub open spec fn returned_count(res: int, cap: int) -> int {
    if res <= cap {
        res
    } else {
        cap
    }
}

/// Owns a registry, one to one, and completes the blocking wait operation.
pub struct Poll {
    registry: Registry,
}

impl Poll {
    /// The registry the poller owns.
    pub closed spec fn spec_registry(&self) -> Registry {
        self.registry
    }

    /// The owned registry holds a valid queue descriptor.
    pub open spec fn wf(&self) -> bool {
        self.spec_registry().wf()
    }

    /// The queue descriptor of the owned registry.
    pub open spec fn spec_fd(&self) -> int {
        self.spec_registry().spec_fd()
    }

    /// Builds the poller around `fd`, the descriptor the queue-creation call
    /// returned.  A negative descriptor is the creation failure, surfaced as
    /// the platform error `err` current after the call; any other descriptor
    /// is adopted as the queue handle.
    pub fn new(fd: i32, err: i32) -> (r: Result<Poll, Error>)
        ensures
            fd >= 0 ==> (r matches Ok(p) && p.wf() && p.spec_fd() == fd),
            fd < 0 ==> (r matches Err(e) && e.code == err),
    {
        if fd < 0 {
            Err(Error { code: err })
        } else {
            Ok(Poll { registry: Registry { raw_fd: fd } })
        }
    }

    /// Read-only access to the registry, for registration calls.
    pub fn registry(&self) -> (r: &Registry)
        ensures
            *r == self.spec_registry(),
    {
        &self.registry
    }

    /// The timeout argument handed to the wait call: `-1`, block
    /// indefinitely, when the caller gave none; otherwise the caller's
    /// milliseconds unchanged.
    pub fn wait_timeout_arg(timeout: Option<i32>) -> (t: i32)
        ensures
            timeout matches Some(ms) ==> t == ms,
            timeout is None ==> t == -1,
    {
        match timeout {
            Some(ms) => ms,
            None => -1,
        }
    }

    /// Completes a wait call.  `events` holds the record slots that were
    /// handed to the kernel (their number was the call's capacity), `res`
    /// the call's raw return, and `err` the platform error current when
    /// `res` is negative.  A negative return surfaces the error and leaves
    /// the slots as they were handed in; otherwise exactly the returned
    /// records are kept, never more than the capacity, and no stale slot
    /// survives past the returned length.  A return of zero is a timeout or
    /// an idle wake, not an error: the buffer comes back empty.
    pub fn poll(&self, events: &mut Vec<Event>, res: i32, err: i32) -> (r: Result<(), Error>)
        ensures
            res < 0 ==> (r matches Err(e) && e.code == err && final(events)@ == old(events)@),
            res >= 0 ==> r is Ok && final(events)@ == old(events)@.take(
                returned_count(res as int, old(events)@.len() as int),
            ),
            res >= 0 ==> final(events)@.len() <= old(events)@.len(),
            res == 0 ==> final(events)@.len() == 0,
    {
        if res < 0 {
            return Err(Error { code: err });
        }
        let count = res as usize;
        events.truncate(count);
        proof {
            if count > old(events)@.len() {
                assert(old(events)@.take(old(events)@.len() as int) =~= old(events)@);
            }
        }
        Ok(())
    }
}

} // verus!
