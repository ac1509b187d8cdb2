//! The readiness record and the interest flags of the notification queue.

use vstd::prelude::*;

verus! {

/// Operation code of the control call that adds a new interest to the queue.
pub const EPOLL_CTL_ADD: i32 = 1;

/// Condition flag: the descriptor is ready for reading.
pub const EPOLLIN: u32 = 0x1;

/// Condition flag: deliver notifications in edge-triggered mode, that is only
/// on a transition from not-ready to ready.
pub const EPOLLET: u32 = 0x8000_0000;

/// A readiness record: a 32-bit condition mask followed by a caller-assigned
/// token.  The wait call fills a buffer of these; the token maps each
/// notification back to its connection.
#[derive(Clone, Copy, Debug, PartialEq, Eq, Structural)]
pub struct Event {
    events: u32,
    epoll_data: usize,
}

/// The readiness record that carries `mask` and `token`.
pub closed spec fn record_of(mask: u32, token: usize) -> Event {
    Event { events: mask, epoll_data: token }
}

impl Event {
    /// The record's condition mask.
    pub closed spec fn spec_mask(self) -> u32 {
        self.events
    }

    /// The record's token.
    pub closed spec fn spec_token(self) -> usize {
        self.epoll_data
    }

    /// Builds the record registered for a connection: its interest mask and
    /// its token.
    pub fn new(mask: u32, token: usize) -> (e: Event)
        ensures
            e == record_of(mask, token),
            e.spec_mask() == mask,
            e.spec_token() == token,
    {
        Event { events: mask, epoll_data: token }
    }

    /// The token the record was registered with, as the raw integer.
    pub fn token(&self) -> (t: usize)
        ensures
            t == self.spec_token(),
    {
        self.epoll_data
    }

    /// The condition mask of the record.
    pub fn mask(&self) -> (m: u32)
        ensures
            m == self.spec_mask(),
    {
        self.events
    }
}

/// Round trip: a record built from a mask and a token hands both back
/// unchanged, for every mask and every token.
pub proof fn lemma_record_round_trip(mask: u32, token: usize)
    ensures
        record_of(mask, token).spec_token() == token,
        record_of(mask, token).spec_mask() == mask,
{
}

} // verus!
