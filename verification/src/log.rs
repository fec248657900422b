//! The log client: a heartbeat loop and a stop loop under one activation
//! flag.

use crate::client_state::ClientState;
use crate::event_handler::{
    arrivals,
    dispatched_on,
    drained,
    lemma_all_dispatched_once,
    lemma_drained_in_range,
    lemma_played_in_range,
    played,
    Event,
    EventHandler,
    EventHandlerError,
    Message,
};
use crate::pub_sub::{Action, PubSub};
use crate::subject::tick_subject;
use vstd::prelude::*;

verus! {

/// The stream of the heartbeat subscription.
pub const TICK_STREAM: usize = 0;

/// The stream of the stop subscription.
pub const STOP_STREAM: usize = 1;

/// The stream of the sporadic subscription, where a client races it against
/// the heartbeat in one select loop.
pub const SPORADIC_STREAM: usize = 1;

/// The line under which a dispatch on `stream` is made observable.
pub open spec fn line_of(stream: usize) -> Seq<char> {
    if stream == TICK_STREAM {
        "handling tick"@
    } else {
        "handling spor_1"@
    }
}

/// The heartbeat stream and the sporadic stream with nothing pending.
pub open spec fn two_idle() -> Seq<Seq<Message>> {
    seq![Seq::<Message>::empty(), Seq::<Message>::empty()]
}

/// The dispatches of the loop that races the heartbeat against the sporadic
/// subject, when the bus and the loop take turns as `steps` says (an event
/// is an arrival, `None` lets the loop race once) and the loop then runs
/// until nothing is pending.
pub open spec fn select_dispatches(steps: Seq<Option<Event>>) -> Seq<Event> {
    played(two_idle(), steps).1 + drained(played(two_idle(), steps).0, 0)
}

/// `lines` makes the dispatches `events` observable, one line for each, in
/// order, under the name of its stream.
pub open spec fn shown(lines: Seq<Action>, events: Seq<Event>) -> bool {
    &&& lines.len() == events.len()
    &&& forall|i: int|
        0 <= i < lines.len() ==> ((#[trigger] lines[i]) matches Action::Emit { line } && line@
            == line_of(events[i].stream))
}

proof fn lemma_two_streams(events: Seq<Event>)
    requires
        forall|i: int| 0 <= i < events.len() ==> (#[trigger] events[i]).stream < 2,
    ensures
        events.len() == dispatched_on(events, TICK_STREAM).len() + dispatched_on(
            events,
            SPORADIC_STREAM,
        ).len(),
    decreases events.len(),
{
    if events.len() > 0 {
        let front = events.drop_last();
        assert forall|i: int| 0 <= i < front.len() implies (#[trigger] front[i]).stream < 2 by {
            assert(front[i] == events[i]);
        }
        lemma_two_streams(front);
        assert(events.last() == events[events.len() - 1]);
    }
}

/// The loop that races the heartbeat against the sporadic subject loses
/// nothing and handles nothing twice: however arrivals and races follow
/// each other, the handler of each of the two streams is handed exactly
/// what arrived on that stream, in the order of arrival, and nothing else
/// is handled at all.
pub proof fn lemma_select_loop_handles_each_once(steps: Seq<Option<Event>>)
    ensures
        dispatched_on(select_dispatches(steps), TICK_STREAM) == dispatched_on(
            arrivals(steps),
            TICK_STREAM,
        ),
        dispatched_on(select_dispatches(steps), SPORADIC_STREAM) == dispatched_on(
            arrivals(steps),
            SPORADIC_STREAM,
        ),
        select_dispatches(steps).len() == dispatched_on(arrivals(steps), TICK_STREAM).len()
            + dispatched_on(arrivals(steps), SPORADIC_STREAM).len(),
{
    let start = two_idle();
    let (left, out) = played(start, steps);
    lemma_all_dispatched_once(start, steps, TICK_STREAM);
    lemma_all_dispatched_once(start, steps, SPORADIC_STREAM);
    assert(start[0] + dispatched_on(arrivals(steps), TICK_STREAM) =~= dispatched_on(
        arrivals(steps),
        TICK_STREAM,
    ));
    assert(start[1] + dispatched_on(arrivals(steps), SPORADIC_STREAM) =~= dispatched_on(
        arrivals(steps),
        SPORADIC_STREAM,
    ));
    lemma_played_in_range(start, steps);
    lemma_drained_in_range(left, 0);
    let all = select_dispatches(steps);
    assert forall|i: int| 0 <= i < all.len() implies (#[trigger] all[i]).stream < 2 by {
        if i < out.len() {
            assert(all[i] == out[i]);
        } else {
            assert(all[i] == drained(left, 0)[i - out.len()]);
        }
    }
    lemma_two_streams(all);
}

/// The handler of a client that races the heartbeat against a sporadic
/// subject in one select loop: each dispatch is made observable under the
/// name of its stream, and one from any other stream is refused with its
/// subject.
pub fn selected(event: Event) -> (res: Result<Action, EventHandlerError>)
    ensures
        event.stream == TICK_STREAM ==> (res matches Ok(Action::Emit { line }) && line@
            == "handling tick"@),
        event.stream == SPORADIC_STREAM ==> (res matches Ok(Action::Emit { line }) && line@
            == "handling spor_1"@),
        event.stream > SPORADIC_STREAM ==> res == Err::<Action, EventHandlerError>(
            EventHandlerError::Io(event.message.subject),
        ),
{
    if event.stream == TICK_STREAM {
        Ok(Action::Emit { line: String::from_str("handling tick") })
    } else if event.stream == SPORADIC_STREAM {
        Ok(Action::Emit { line: String::from_str("handling spor_1") })
    } else {
        Err(EventHandlerError::Io(event.message.subject))
    }
}

/// A log client.
///
/// Its heartbeat loop looks at the flag, waits for a heartbeat, handles it,
/// and looks again. Its stop loop waits for one message on the client's own
/// stop subject and clears the flag. Clearing the flag does not interrupt the
/// wait that the heartbeat loop is in: that loop ends after the heartbeat it
/// is waiting for.
#[derive(Debug)]
pub struct Log {
    stop_subject: String,
    state: ClientState,
    ticking: bool,
}

impl Log {
    /// The subject on which this client is told to stop.
    pub closed spec fn stop_subject(&self) -> Seq<char> {
        self.stop_subject@
    }

    /// Whether the flag is set: no stop message has arrived.
    pub closed spec fn active(&self) -> bool {
        self.state.active()
    }

    /// Whether the heartbeat loop is waiting for a heartbeat.
    pub closed spec fn ticking(&self) -> bool {
        self.ticking
    }

    /// A message on `stream` is a heartbeat that the heartbeat loop handles.
    pub open spec fn handles(&self, stream: usize) -> bool {
        stream == TICK_STREAM && self.ticking()
    }

    /// A message on `stream` is the stop message that the stop loop waits
    /// for.
    pub open spec fn stops(&self, stream: usize) -> bool {
        stream == STOP_STREAM && self.active()
    }

    /// A message on `stream` is a further stop message, which nothing waits
    /// for while the heartbeat loop finishes.
    pub open spec fn ignores(&self, stream: usize) -> bool {
        stream == STOP_STREAM && !self.active() && self.ticking()
    }

    /// The client after a message on `stream`.
    pub closed spec fn after(self, stream: usize) -> Log {
        if stream == TICK_STREAM && self.ticking {
            Log { stop_subject: self.stop_subject, state: self.state, ticking: self.state.active() }
        } else if stream == STOP_STREAM && self.state.active() {
            Log {
                stop_subject: self.stop_subject,
                state: self.state.inactivated(),
                ticking: self.ticking,
            }
        } else {
            self
        }
    }

    /// How many of the messages that arrive on `streams`, in that order, the
    /// heartbeat loop handles.
    pub open spec fn handled(self, streams: Seq<usize>) -> nat
        decreases streams.len(),
    {
        if streams.len() == 0 {
            0
        } else {
            let now: nat = if self.handles(streams[0]) {
                1
            } else {
                0
            };
            now + self.after(streams[0]).handled(streams.drop_first())
        }
    }

    /// A message changes the client as its stream says: a handled heartbeat
    /// ends the heartbeat loop unless the flag is still set, the stop
    /// message clears the flag, and the stop subject stays.
    pub proof fn lemma_after(self, stream: usize)
        ensures
            self.after(stream).stop_subject() == self.stop_subject(),
            self.after(stream).active() == (self.active() && stream != STOP_STREAM),
            self.after(stream).ticking() == (self.ticking() && (stream == TICK_STREAM
                ==> self.active())),
    {
        self.state.lemma_inactivate_idempotent();
    }

    /// Once the flag is cleared, the heartbeat loop handles at most one more
    /// heartbeat, whatever arrives afterwards and in whatever order, and
    /// none once it has left its wait.
    pub proof fn lemma_bounded_after_stop(self, streams: Seq<usize>)
        requires
            !self.active(),
        ensures
            self.handled(streams) <= 1,
            !self.ticking() ==> self.handled(streams) == 0,
        decreases streams.len(),
    {
        if streams.len() > 0 {
            self.lemma_after(streams[0]);
            self.after(streams[0]).lemma_bounded_after_stop(streams.drop_first());
        }
    }

    /// A fresh client that stops on `stop_subject`: its flag is set and its
    /// heartbeat loop waits.
    pub fn new(stop_subject: String) -> (log: Log)
        ensures
            log.stop_subject() == stop_subject@,
            log.active(),
            log.ticking(),
    {
        Log { stop_subject, state: ClientState::new(), ticking: true }
    }

    /// Whether the flag is still set.
    pub fn is_active(&self) -> (active: bool)
        ensures
            active == self.active(),
    {
        self.state.is_active()
    }

    /// Whether the heartbeat loop is waiting for a heartbeat.
    pub fn is_ticking(&self) -> (ticking: bool)
        ensures
            ticking == self.ticking(),
    {
        self.ticking
    }

    /// The client loop that races the heartbeat against the sporadic subject
    /// in one select loop, on what the bus delivers.
    ///
    /// `steps` is the course of events: an event is a message that arrives
    /// on its stream, `None` is a turn of the loop, in which it races the
    /// two streams once and handles the winner. When the steps are over the
    /// loop runs until nothing is pending. The result holds one line for
    /// each dispatch, in order. An arrival on neither stream is refused.
    ///
    /// Whatever the interleaving, each message that arrived on one of the
    /// two streams is handled exactly once, by the handler of its stream.
    pub fn select_loop(steps: Vec<Option<Event>>) -> (lines: Vec<Action>)
        ensures
            shown(lines@, select_dispatches(steps@)),
            dispatched_on(select_dispatches(steps@), TICK_STREAM) == dispatched_on(
                arrivals(steps@),
                TICK_STREAM,
            ),
            dispatched_on(select_dispatches(steps@), SPORADIC_STREAM) == dispatched_on(
                arrivals(steps@),
                SPORADIC_STREAM,
            ),
            lines@.len() == dispatched_on(arrivals(steps@), TICK_STREAM).len() + dispatched_on(
                arrivals(steps@),
                SPORADIC_STREAM,
            ).len(),
    {
        let ghost all = steps@;
        let mut steps = steps;
        let n: usize = steps.len();
        let mut handler = EventHandler::new(2);
        let mut lines: Vec<Action> = Vec::new();
        assert(handler.queues()[0] =~= Seq::<Message>::empty());
        assert(handler.queues()[1] =~= Seq::<Message>::empty());
        assert(handler.queues() =~= two_idle());
        let mut i: usize = 0;
        while i < n
            invariant
                i <= n,
                n == all.len(),
                steps@ == all.subrange(i as int, n as int),
                handler.queues() == played(two_idle(), all.subrange(0, i as int)).0,
                shown(lines@, played(two_idle(), all.subrange(0, i as int)).1),
            decreases n - i,
        {
            let ghost seen = all.subrange(0, i as int);
            let ghost out = played(two_idle(), seen).1;
            let step = steps.remove(0);
            proof {
                assert(step == all[i as int]);
                assert(steps@ =~= all.subrange(i + 1, n as int));
                assert(all.subrange(0, i + 1).drop_last() =~= seen);
                assert(all.subrange(0, i + 1).last() == all[i as int]);
                lemma_played_in_range(two_idle(), seen);
            }
            match step {
                Some(event) => {
                    let _ = handler.register(event);
                },
                None => {
                    match handler.next() {
                        Some(event) => {
                            assert(event.stream < 2);
                            match selected(event) {
                                Ok(action) => {
                                    lines.push(action);
                                },
                                Err(_) => {},
                            }
                            assert(shown(lines@, out.push(event)));
                        },
                        None => {},
                    }
                },
            }
            i = i + 1;
        }
        assert(all.subrange(0, n as int) =~= all);
        let ghost out = played(two_idle(), all).1;
        let ghost left = handler.queues();
        let (rest, _) = handler.run();
        let mut rest = rest;
        let ghost tail = rest@;
        let m: usize = rest.len();
        let mut k: usize = 0;
        proof {
            lemma_played_in_range(two_idle(), all);
            lemma_drained_in_range(left, 0);
            assert(out + tail.subrange(0, 0) =~= out);
        }
        while k < m
            invariant
                k <= m,
                m == tail.len(),
                rest@ == tail.subrange(k as int, m as int),
                forall|j: int| 0 <= j < tail.len() ==> (#[trigger] tail[j]).stream < 2,
                shown(lines@, out + tail.subrange(0, k as int)),
            decreases m - k,
        {
            let event = rest.remove(0);
            proof {
                assert(event == tail[k as int]);
                assert(rest@ =~= tail.subrange(k + 1, m as int));
                assert(out + tail.subrange(0, k + 1) =~= (out + tail.subrange(0, k as int)).push(
                    event,
                ));
            }
            match selected(event) {
                Ok(action) => {
                    lines.push(action);
                },
                Err(_) => {},
            }
            k = k + 1;
        }
        proof {
            assert(tail.subrange(0, m as int) =~= tail);
            lemma_select_loop_handles_each_once(all);
        }
        lines
    }
}

impl PubSub for Log {
    /// The heartbeat, then the client's own stop subject.
    closed spec fn subjects(&self) -> Seq<Seq<char>> {
        seq!["tick"@, self.stop_subject@]
    }

    /// Running until both loops have ended.
    closed spec fn running(&self) -> bool {
        self.ticking || self.state.active()
    }

    fn subscriptions(&self) -> (subjects: Vec<String>)
        ensures
            subjects@.len() == 2,
            subjects@[0]@ == "tick"@,
            subjects@[1]@ == self.stop_subject(),
    {
        let mut subjects: Vec<String> = Vec::new();
        subjects.push(tick_subject());
        subjects.push(self.stop_subject.clone());
        subjects
    }

    fn is_running(&self) -> (running: bool)
        ensures
            running == (self.ticking() || self.active()),
    {
        self.ticking || self.state.is_active()
    }

    /// A heartbeat that the heartbeat loop waits for is handled; then the
    /// loop looks at the flag and waits again or ends. The stop message
    /// clears the flag. A further stop message is passed over while the
    /// heartbeat loop finishes. Anything else is refused with its subject.
    fn client_loop(&mut self, event: Event) -> (res: Result<Action, EventHandlerError>)
        ensures
            *final(self) == old(self).after(event.stream),
            final(self).stop_subject() == old(self).stop_subject(),
            final(self).active() == (old(self).active() && event.stream != STOP_STREAM),
            final(self).ticking() == (old(self).ticking() && (event.stream == TICK_STREAM
                ==> old(self).active())),
            old(self).handles(event.stream) ==> (res matches Ok(Action::Emit { line }) && line@
                == "handling tick"@),
            old(self).stops(event.stream) ==> (res matches Ok(Action::Emit { line }) && line@
                == "Stopping log client."@),
            old(self).ignores(event.stream) ==> res == Ok::<Action, EventHandlerError>(
                Action::Continue,
            ),
            !old(self).handles(event.stream) && !old(self).stops(event.stream) && !old(
                self,
            ).ignores(event.stream) ==> res == Err::<Action, EventHandlerError>(
                EventHandlerError::Io(event.message.subject),
            ),
    {
        proof {
            old(self).lemma_after(event.stream);
        }
        if event.stream == TICK_STREAM && self.ticking {
            self.ticking = self.state.is_active();
            Ok(Action::Emit { line: String::from_str("handling tick") })
        } else if event.stream == STOP_STREAM && self.state.is_active() {
            self.state.inactivate();
            Ok(Action::Emit { line: String::from_str("Stopping log client.") })
        } else if event.stream == STOP_STREAM && self.ticking {
            Ok(Action::Continue)
        } else {
            Err(EventHandlerError::Io(event.message.subject))
        }
    }
}

} // verus!
