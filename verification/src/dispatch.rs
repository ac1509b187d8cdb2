//! The dispatch state machine: drain-to-exhaustion under edge-triggered
//! notifications, with each completion counted exactly once.
//!
//! Edge-triggered mode notifies only on a transition to readiness, so a
//! connection must be read repeatedly until the read would block or the
//! stream ends; data left undrained would never be announced again.  A
//! closed connection may keep announcing end-of-stream across cycles, so
//! each connection carries a pending/finished state and only the first
//! end-of-stream moves the finished count.
//!
//! The reads themselves are made by the surrounding program on non-blocking
//! sockets; each read's result reaches the machine as a [`ReadOutcome`].

use vstd::prelude::*;

use crate::event::Event;
use crate::poll::Error;

verus! {

/// Completion state of one registered connection, indexed by its token.
#[derive(Clone, Copy, Debug, PartialEq, Eq, Structural)]
pub enum ConnState {
    /// End-of-stream has not been observed yet.
    Pending,
    /// End-of-stream was observed and counted, once.
    Finished,
}

/// The result of one read call on a non-blocking connection.
#[derive(Clone, Copy, Debug, PartialEq, Eq, Structural)]
pub enum ReadOutcome {
    /// The read returned this many bytes; more may still be buffered.
    Data(usize),
    /// The read returned zero bytes: the peer closed its write side.
    Eof,
    /// The read would have blocked: the connection is drained for now.
    WouldBlock,
    /// The read was interrupted; it is retried on the next notification.
    Interrupted,
    /// Any other read failure, with its platform error code.
    Fatal(i32),
}

/// What the drain loop does after one read outcome.
#[derive(Clone, Copy, Debug, PartialEq, Eq, Structural)]
pub enum DrainAction {
    /// Keep reading: data arrived, and more may be buffered behind it.
    Continue,
    /// Stop draining this connection for this cycle.
    Stop,
    /// Abort the whole cycle with this platform error code.
    Fail(i32),
}

/// How many of the states are `Finished`.
pub open spec fn count_finished(s: Seq<ConnState>) -> nat
    decreases s.len(),
{
    if s.len() == 0 {
        0
    } else {
        count_finished(s.drop_last()) + if s.last() is Finished {
            1nat
        } else {
            0nat
        }
    }
}

/// The connection states after one read outcome for `token`: only the first
/// end-of-stream changes anything, marking that connection finished.
pub open spec fn step_states(s: Seq<ConnState>, token: int, outcome: ReadOutcome) -> Seq<
    ConnState,
> {
    if outcome is Eof && s[token] is Pending {
        s.update(token, ConnState::Finished)
    } else {
        s
    }
}

/// How many connections the outcome newly finishes: one for the first
/// end-of-stream of a pending token, zero for everything else.
pub open spec fn step_newly(s: Seq<ConnState>, token: int, outcome: ReadOutcome) -> int {
    if outcome is Eof && s[token] is Pending {
        1
    } else {
        0
    }
}

/// What the drain loop does next: data keeps it reading, end-of-stream and
/// the transient failures stop this connection's pass, anything else aborts
/// the cycle.
pub open spec fn step_action(s: Seq<ConnState>, token: int, outcome: ReadOutcome) -> DrainAction {
    match outcome {
        ReadOutcome::Data(_) => DrainAction::Continue,
        ReadOutcome::Eof => DrainAction::Stop,
        ReadOutcome::WouldBlock => DrainAction::Stop,
        ReadOutcome::Interrupted => DrainAction::Stop,
        ReadOutcome::Fatal(c) => DrainAction::Fail(c),
    }
}

/// An outcome that ends a drain pass: everything except data.
pub open spec fn is_terminal(o: ReadOutcome) -> bool {
    !(o is Data)
}

/// Some outcome in the sequence ends the pass.  True of every real read
/// sequence: a non-blocking read eventually blocks, ends, or fails.
pub open spec fn has_terminal(s: Seq<ReadOutcome>) -> bool {
    exists|i: int| 0 <= i < s.len() && #[trigger] is_terminal(s[i])
}

/// The index of the first outcome that ends a drain pass.
pub open spec fn first_terminal(s: Seq<ReadOutcome>) -> int
    decreases s.len(),
{
    if s.len() <= 0 {
        0
    } else if is_terminal(s[0]) {
        0
    } else {
        1 + first_terminal(s.skip(1))
    }
}

/// The view of each connection's outcome script.
pub open spec fn script_views(scripts: Seq<Vec<ReadOutcome>>) -> Seq<Seq<ReadOutcome>> {
    scripts.map_values(|v: Vec<ReadOutcome>| v@)
}

/// A whole cycle's effect, folded over the readiness records in order; each
/// record's token selects its connection's script, whose first terminal
/// outcome ends that connection's drain pass.  Yields the connection states
/// afterwards, how many connections the cycle newly finished, and the error
/// code of the first fatal read, if any; the fold stops where that failure
/// aborts the cycle.
pub open spec fn cycle_result(
    s: Seq<ConnState>,
    events: Seq<Event>,
    scripts: Seq<Seq<ReadOutcome>>,
) -> (Seq<ConnState>, int, Option<i32>)
    decreases events.len(),
{
    if events.len() <= 0 {
        (s, 0, Option::None)
    } else {
        let token = events[0].spec_token() as int;
        let script = scripts[token];
        let outcome = script[first_terminal(script)];
        match outcome {
            ReadOutcome::Fatal(c) => (s, 0, Option::Some(c)),
            _ => {
                let rest = cycle_result(step_states(s, token, outcome), events.skip(1), scripts);
                (rest.0, step_newly(s, token, outcome) + rest.1, rest.2)
            },
        }
    }
}

proof fn lemma_count_le(s: Seq<ConnState>)
    ensures
        count_finished(s) <= s.len(),
    decreases s.len(),
{
    if s.len() > 0 {
        lemma_count_le(s.drop_last());
    }
}

proof fn lemma_count_pending_bound(s: Seq<ConnState>, i: int)
    requires
        0 <= i < s.len(),
        s[i] is Pending,
    ensures
        count_finished(s) < s.len(),
    decreases s.len(),
{
    if i == s.len() - 1 {
        lemma_count_le(s.drop_last());
    } else {
        lemma_count_pending_bound(s.drop_last(), i);
    }
}

proof fn lemma_count_update(s: Seq<ConnState>, i: int)
    requires
        0 <= i < s.len(),
        s[i] is Pending,
    ensures
        count_finished(s.update(i, ConnState::Finished)) == count_finished(s) + 1,
    decreases s.len(),
{
    let t = s.update(i, ConnState::Finished);
    if i == s.len() - 1 {
        assert(t.drop_last() =~= s.drop_last());
    } else {
        assert(t.drop_last() =~= s.drop_last().update(i, ConnState::Finished));
        lemma_count_update(s.drop_last(), i);
    }
}

proof fn lemma_first_terminal_at(s: Seq<ReadOutcome>, i: int)
    requires
        0 <= i < s.len(),
        is_terminal(s[i]),
        forall|j: int| 0 <= j < i ==> !is_terminal(s[j]),
    ensures
        first_terminal(s) == i,
    decreases s.len(),
{
    if i > 0 {
        assert(!is_terminal(s[0]));
        let tail = s.skip(1);
        assert(tail[i - 1] == s[i]);
        assert forall|j: int| 0 <= j < i - 1 implies !is_terminal(tail[j]) by {
            assert(tail[j] == s[j + 1]);
        }
        lemma_first_terminal_at(tail, i - 1);
    }
}

proof fn lemma_count_all_finished(s: Seq<ConnState>)
    requires
        forall|i: int| 0 <= i < s.len() ==> s[i] is Finished,
    ensures
        count_finished(s) == s.len(),
    decreases s.len(),
{
    if s.len() > 0 {
        assert forall|i: int| 0 <= i < s.drop_last().len() implies s.drop_last()[i] is Finished by {
            assert(s.drop_last()[i] == s[i]);
        }
        lemma_count_all_finished(s.drop_last());
    }
}

/// Tracks every registered connection's completion state, indexed by token,
/// and the count of connections confirmed finished.
pub struct Dispatcher {
    states: Vec<ConnState>,
    finished: usize,
}

impl Dispatcher {
    /// The per-token connection states.
    pub closed spec fn spec_states(&self) -> Seq<ConnState> {
        self.states@
    }

    /// The count of connections confirmed finished.
    pub closed spec fn spec_finished(&self) -> int {
        self.finished as int
    }

    /// How many connections are registered.
    pub open spec fn total(&self) -> int {
        self.spec_states().len() as int
    }

    /// The finished count is exactly the number of `Finished` states.
    pub open spec fn wf(&self) -> bool {
        self.spec_finished() == count_finished(self.spec_states())
    }

    /// Every connection has been confirmed finished: the dispatch loop's
    /// exit condition.
    pub open spec fn is_done(&self) -> bool {
        self.spec_finished() == self.total()
    }

    /// A dispatcher for `connections` registered connections, with tokens
    /// `0` up to `connections`, all still pending.
    pub fn new(connections: usize) -> (d: Dispatcher)
        ensures
            d.wf(),
            d.total() == connections,
            d.spec_finished() == 0,
            forall|i: int| 0 <= i < connections ==> d.spec_states()[i] is Pending,
    {
        let mut states: Vec<ConnState> = Vec::new();
        let mut i: usize = 0;
        while i < connections
            invariant
                i <= connections,
                states@.len() == i,
                count_finished(states@) == 0,
                forall|j: int| 0 <= j < i ==> states@[j] is Pending,
            decreases connections - i,
        {
            let ghost prev = states@;
            states.push(ConnState::Pending);
            proof {
                assert(states@.drop_last() =~= prev);
            }
            i = i + 1;
        }
        Dispatcher { states, finished: 0 }
    }

    /// How many connections are registered.
    pub fn total_connections(&self) -> (n: usize)
        ensures
            n as int == self.total(),
    {
        self.states.len()
    }

    /// How many connections have been confirmed finished so far.
    pub fn finished_count(&self) -> (n: usize)
        ensures
            n as int == self.spec_finished(),
    {
        self.finished
    }

    /// Whether every registered connection has been confirmed finished.
    pub fn done(&self) -> (b: bool)
        ensures
            b == self.is_done(),
    {
        self.finished == self.states.len()
    }

    /// The completion state recorded for `token`.
    pub fn connection_state(&self, token: usize) -> (s: ConnState)
        requires
            (token as int) < self.total(),
        ensures
            s == self.spec_states()[token as int],
    {
        self.states[token]
    }

    /// Applies one read outcome for `token`'s connection and decides how the
    /// drain goes on.  Data keeps the pass reading; the first end-of-stream
    /// of a pending token marks it finished and counts it, a repeated one
    /// changes nothing; would-block and an interruption end the pass; any
    /// other failure aborts the cycle.
    pub fn drain_step(&mut self, token: usize, outcome: ReadOutcome) -> (a: DrainAction)
        requires
            old(self).wf(),
            (token as int) < old(self).total(),
        ensures
            final(self).wf(),
            final(self).total() == old(self).total(),
            final(self).spec_states() == step_states(
                old(self).spec_states(),
                token as int,
                outcome,
            ),
            final(self).spec_finished() == old(self).spec_finished() + step_newly(
                old(self).spec_states(),
                token as int,
                outcome,
            ),
            a == step_action(old(self).spec_states(), token as int, outcome),
    {
        match outcome {
            ReadOutcome::Data(_) => DrainAction::Continue,
            ReadOutcome::Eof => {
                let state = self.states[token];
                match state {
                    ConnState::Pending => {
                        let total = self.states.len();
                        proof {
                            lemma_count_pending_bound(self.states@, token as int);
                            lemma_count_update(self.states@, token as int);
                        }
                        self.states.set(token, ConnState::Finished);
                        assert(self.finished < total);
                        self.finished = self.finished + 1;
                        DrainAction::Stop
                    },
                    ConnState::Finished => DrainAction::Stop,
                }
            },
            ReadOutcome::WouldBlock => DrainAction::Stop,
            ReadOutcome::Interrupted => DrainAction::Stop,
            ReadOutcome::Fatal(c) => DrainAction::Fail(c),
        }
    }

    /// One drain pass over `token`'s connection: applies the read outcomes
    /// in order, reading on after every chunk of data, until the first
    /// outcome that ends the pass.  Ends as that outcome says: a fatal
    /// failure aborts with its error and changes no state; anything else
    /// stops the pass and returns how many connections it newly finished
    /// (one for a first end-of-stream, zero otherwise).
    pub fn drain(&mut self, token: usize, outcomes: &Vec<ReadOutcome>) -> (r: Result<
        usize,
        Error,
    >)
        requires
            old(self).wf(),
            (token as int) < old(self).total(),
            has_terminal(outcomes@),
        ensures
            final(self).wf(),
            final(self).total() == old(self).total(),
            ({
                let outcome = outcomes@[first_terminal(outcomes@)];
                match outcome {
                    ReadOutcome::Fatal(c) => {
                        &&& r matches Err(e) && e.code == c
                        &&& final(self).spec_states() == old(self).spec_states()
                        &&& final(self).spec_finished() == old(self).spec_finished()
                    },
                    _ => {
                        &&& r matches Ok(n) && n as int == step_newly(
                            old(self).spec_states(),
                            token as int,
                            outcome,
                        )
                        &&& final(self).spec_states() == step_states(
                            old(self).spec_states(),
                            token as int,
                            outcome,
                        )
                        &&& final(self).spec_finished() == old(self).spec_finished()
                            + step_newly(old(self).spec_states(), token as int, outcome)
                    },
                }
            }),
    {
        let mut i: usize = 0;
        loop
            invariant
                i <= outcomes@.len(),
                forall|j: int| 0 <= j < i ==> !is_terminal(outcomes@[j]),
                has_terminal(outcomes@),
                self.wf(),
                self.spec_states() == old(self).spec_states(),
                self.spec_finished() == old(self).spec_finished(),
                (token as int) < self.total(),
            decreases outcomes@.len() - i,
        {
            proof {
                let t = choose|t: int|
                    0 <= t < outcomes@.len() && #[trigger] is_terminal(outcomes@[t]);
                assert(i as int <= t);
                assert(i < outcomes@.len());
            }
            let bound = outcomes.len();
            let outcome = outcomes[i];
            let before = self.finished_count();
            let action = self.drain_step(token, outcome);
            match action {
                DrainAction::Continue => {
                    assert(outcome is Data);
                    assert(i < bound);
                    i = i + 1;
                },
                DrainAction::Stop => {
                    let after = self.finished_count();
                    proof {
                        lemma_first_terminal_at(outcomes@, i as int);
                    }
                    return Ok(after - before);
                },
                DrainAction::Fail(code) => {
                    proof {
                        lemma_first_terminal_at(outcomes@, i as int);
                    }
                    return Err(Error { code });
                },
            }
        }
    }

    /// One polling cycle over a batch of readiness records.  Each record's
    /// token selects its connection's outcome script in `scripts`, and that
    /// connection is drained to exhaustion.  Returns how many connections
    /// the cycle newly finished; the first fatal read aborts the cycle with
    /// its error, keeping the completions recorded before it.
    pub fn handle_events(&mut self, events: &Vec<Event>, scripts: &Vec<Vec<ReadOutcome>>) -> (r:
        Result<usize, Error>)
        requires
            old(self).wf(),
            scripts@.len() == old(self).total(),
            forall|i: int|
                0 <= i < events@.len() ==> ((#[trigger] events@[i]).spec_token() as int) < old(
                    self).total(),
            forall|i: int| 0 <= i < scripts@.len() ==> has_terminal((#[trigger] scripts@[i])@),
        ensures
            final(self).wf(),
            final(self).total() == old(self).total(),
            ({
                let folded = cycle_result(
                    old(self).spec_states(),
                    events@,
                    script_views(scripts@),
                );
                &&& final(self).spec_states() == folded.0
                &&& (folded.2 matches Some(c) ==> (r matches Err(e) && e.code == c))
                &&& (folded.2 is None ==> (r matches Ok(n) && n as int == folded.1 && final(
                    self).spec_finished() == old(self).spec_finished() + folded.1))
            }),
    {
        let ghost sv = script_views(scripts@);
        let ghost s0 = self.spec_states();
        let ghost f0 = self.spec_finished();
        let ghost full = cycle_result(s0, events@, sv);
        let mut newly: usize = 0;
        let mut i: usize = 0;
        let count = events.len();
        proof {
            assert(events@.skip(0) =~= events@);
        }
        while i < count
            invariant
                s0 == old(self).spec_states(),
                f0 == old(self).spec_finished(),
                0 <= f0,
                count == events@.len(),
                i <= count,
                self.wf(),
                self.total() == s0.len(),
                scripts@.len() == self.total(),
                forall|k: int|
                    0 <= k < events@.len() ==> ((#[trigger] events@[k]).spec_token() as int)
                        < self.total(),
                forall|k: int| 0 <= k < scripts@.len() ==> has_terminal((#[trigger] scripts@[k])@),
                sv == script_views(scripts@),
                full == cycle_result(s0, events@, sv),
                self.spec_finished() == f0 + newly,
                ({
                    let rest = cycle_result(self.spec_states(), events@.skip(i as int), sv);
                    full == (rest.0, newly + rest.1, rest.2)
                }),
            decreases count - i,
        {
            let ev = events[i];
            let token = ev.token();
            proof {
                assert(events@.skip(i as int)[0] == events@[i as int]);
                assert(sv[token as int] == scripts@[token as int]@);
            }
            let outcome_result = self.drain(token, &scripts[token]);
            proof {
                assert(events@.skip(i as int).skip(1) =~= events@.skip(i as int + 1));
            }
            match outcome_result {
                Ok(just_finished) => {
                    assert(newly + just_finished <= usize::MAX) by {
                        assert(self.spec_finished() <= usize::MAX);
                        assert(f0 >= 0);
                    }
                    newly = newly + just_finished;
                    i = i + 1;
                },
                Err(e) => {
                    return Err(e);
                },
            }
        }
        proof {
            assert(events@.skip(count as int) =~= Seq::<Event>::empty());
        }
        Ok(newly)
    }
}

/// A recorded completion is stable: no read outcome for any token, on any
/// connection, ever moves a finished connection back to pending.
pub proof fn lemma_finished_is_stable(
    s: Seq<ConnState>,
    token: int,
    outcome: ReadOutcome,
    i: int,
)
    requires
        0 <= token < s.len(),
        0 <= i < s.len(),
        s[i] is Finished,
    ensures
        step_states(s, token, outcome)[i] is Finished,
{
}

/// Edge-triggered drain discipline: a drain pass never ends while reads
/// return data.  It ends exactly at the first end-of-stream, would-block,
/// interruption or failure, and every outcome before that point is a chunk
/// of data that the pass has read, so no delivered data is left behind.
pub proof fn lemma_drain_stops_only_at_terminal(outcomes: Seq<ReadOutcome>)
    requires
        has_terminal(outcomes),
    ensures
        0 <= first_terminal(outcomes) < outcomes.len(),
        is_terminal(outcomes[first_terminal(outcomes)]),
        forall|j: int| 0 <= j < first_terminal(outcomes) ==> outcomes[j] is Data,
    decreases outcomes.len(),
{
    let t = choose|t: int| 0 <= t < outcomes.len() && #[trigger] is_terminal(outcomes[t]);
    if !is_terminal(outcomes[0]) {
        let tail = outcomes.skip(1);
        assert(t >= 1);
        assert(is_terminal(tail[t - 1]));
        lemma_drain_stops_only_at_terminal(tail);
        assert forall|j: int| 0 <= j < first_terminal(outcomes) implies outcomes[j] is Data by {
            if j > 0 {
                assert(tail[j - 1] is Data);
                assert(outcomes[j] == tail[j - 1]);
            }
        }
    }
}

/// Some record in the batch carries token `t`.
pub open spec fn token_notified(events: Seq<Event>, t: int) -> bool {
    exists|i: int| 0 <= i < events.len() && (#[trigger] events[i]).spec_token() == t
}

/// A cycle after every peer has closed: when every connection's script ends
/// in end-of-stream, no fatal error occurs, the connection count is kept,
/// and every connection that was already finished or is notified by the
/// batch comes out finished.
pub proof fn lemma_closing_cycle_finishes(
    s: Seq<ConnState>,
    events: Seq<Event>,
    scripts: Seq<Seq<ReadOutcome>>,
)
    requires
        scripts.len() == s.len(),
        forall|i: int| 0 <= i < events.len() ==> ((#[trigger] events[i]).spec_token() as int)
            < s.len(),
        forall|t: int| 0 <= t < s.len() ==> has_terminal(#[trigger] scripts[t]),
        forall|t: int|
            0 <= t < s.len() ==> (#[trigger] scripts[t])[first_terminal(scripts[t])] is Eof,
    ensures
        cycle_result(s, events, scripts).2 is None,
        cycle_result(s, events, scripts).0.len() == s.len(),
        forall|t: int|
            0 <= t < s.len() && (s[t] is Finished || token_notified(events, t)) ==> (
            #[trigger] cycle_result(s, events, scripts).0[t]) is Finished,
    decreases events.len(),
{
    if events.len() == 0 {
        assert(forall|t: int| !token_notified(events, t));
    } else {
        let token = events[0].spec_token() as int;
        let script = scripts[token];
        let outcome = script[first_terminal(script)];
        let s1 = step_states(s, token, outcome);
        let tail = events.skip(1);
        assert forall|i: int| 0 <= i < tail.len() implies ((#[trigger] tail[i]).spec_token() as int)
            < s1.len() by {
            assert(tail[i] == events[i + 1]);
        }
        lemma_closing_cycle_finishes(s1, tail, scripts);
        let folded = cycle_result(s, events, scripts);
        let rest = cycle_result(s1, tail, scripts);
        assert(folded.0 == rest.0 && folded.2 == rest.2);
        assert forall|t: int|
            0 <= t < s.len() && (s[t] is Finished || token_notified(events, t)) implies folded.0[t]
            is Finished by {
            assert(s1.len() == s.len());
            if s[t] is Finished {
                lemma_finished_is_stable(s, token, outcome, t);
                assert(s1[t] is Finished);
            } else {
                let i = choose|i: int|
                    0 <= i < events.len() && (#[trigger] events[i]).spec_token() == t;
                if i == 0 {
                    assert(s1[t] is Finished);
                } else {
                    assert(tail[i - 1] == events[i]);
                    assert(token_notified(tail, t));
                }
            }
            assert(0 <= t < s1.len());
            assert(s1[t] is Finished || token_notified(tail, t));
            assert(cycle_result(s1, tail, scripts).0[t] is Finished);
        }
    }
}

/// The dispatch loop terminates once every peer closes its write side: a
/// cycle whose batch notifies every connection, with every script ending in
/// end-of-stream, finishes them all, so a loop that runs while the finished
/// count is below the total exits.
pub proof fn lemma_closing_cycle_is_done(
    s: Seq<ConnState>,
    events: Seq<Event>,
    scripts: Seq<Seq<ReadOutcome>>,
)
    requires
        scripts.len() == s.len(),
        forall|i: int| 0 <= i < events.len() ==> ((#[trigger] events[i]).spec_token() as int)
            < s.len(),
        forall|t: int| 0 <= t < s.len() ==> has_terminal(#[trigger] scripts[t]),
        forall|t: int|
            0 <= t < s.len() ==> (#[trigger] scripts[t])[first_terminal(scripts[t])] is Eof,
        forall|t: int| 0 <= t < s.len() ==> token_notified(events, t),
    ensures
        cycle_result(s, events, scripts).2 is None,
        count_finished(cycle_result(s, events, scripts).0) == s.len(),
{
    lemma_closing_cycle_finishes(s, events, scripts);
    let folded = cycle_result(s, events, scripts).0;
    assert forall|i: int| 0 <= i < folded.len() implies folded[i] is Finished by {
        assert(token_notified(events, i));
    }
    lemma_count_all_finished(folded);
}

/// Liveness of the dispatch loop: once every connection's state is
/// `Finished`, the finished count equals the connection total, so a loop
/// that runs while the count is below the total exits.
pub proof fn lemma_all_finished_is_done(d: Dispatcher)
    requires
        d.wf(),
        forall|i: int| 0 <= i < d.total() ==> d.spec_states()[i] is Finished,
    ensures
        d.is_done(),
{
    lemma_count_all_finished(d.spec_states());
}

/// Exactly one completion per token: the first end-of-stream of a pending
/// token counts one; after it the token is finished, and every further
/// end-of-stream for it counts nothing and changes no state, however many
/// notifications repeat it.
pub proof fn lemma_completion_counted_once(s: Seq<ConnState>, token: int)
    requires
        0 <= token < s.len(),
        s[token] is Pending,
    ensures
        step_newly(s, token, ReadOutcome::Eof) == 1,
        ({
            let once = step_states(s, token, ReadOutcome::Eof);
            &&& once[token] is Finished
            &&& step_newly(once, token, ReadOutcome::Eof) == 0
            &&& step_states(once, token, ReadOutcome::Eof) == once
        }),
{
}

} // verus!
