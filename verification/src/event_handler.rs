//! The multiplexed select loop: several message streams raced into one
//! sequence of dispatches, with nothing lost on the streams that did not win.

use vstd::prelude::*;

verus! {

/// What the bus delivers: the subject a message arrived on and its payload.
#[derive(Clone, Debug, PartialEq, Eq)]
pub struct Message {
    pub subject: String,
    pub payload: Vec<u8>,
}

/// A completed wait: the stream whose pending operation resolved, which also
/// names the handler to call, and the message it resolved with.
#[derive(Clone, Debug, PartialEq, Eq)]
pub struct Event {
    pub stream: usize,
    pub message: Message,
}

/// Why the select loop, or a client driven by it, gave up.
#[derive(Clone, Debug, PartialEq, Eq)]
pub enum EventHandlerError {
    /// A message for a stream that was never registered; holds its subject.
    Io(String),
    /// The loop ran until nothing was pending on any stream: this is how
    /// every run ends.
    NoEvents(String),
    /// A subject that does not carry what the protocol expects of it.
    Parse(String),
}

impl EventHandlerError {
    /// The text that `describe` produces.
    pub open spec fn text(&self) -> Seq<char> {
        match self {
            EventHandlerError::Io(s) => "'"@ + s@ + "' is not an active client"@,
            EventHandlerError::NoEvents(s) => "No Events: "@ + s@,
            EventHandlerError::Parse(s) => "Parse error: "@ + s@,
        }
    }

    /// The error as a line of text.
    pub fn describe(&self) -> (line: String)
        ensures
            line@ == self.text(),
    {
        match self {
            EventHandlerError::Io(s) => String::from_str("'").concat(s.as_str()).concat(
                "' is not an active client",
            ),
            EventHandlerError::NoEvents(s) => String::from_str("No Events: ").concat(s.as_str()),
            EventHandlerError::Parse(s) => String::from_str("Parse error: ").concat(s.as_str()),
        }
    }
}

/// The messages of `queue` as events of stream `stream`.
pub open spec fn tagged(queue: Seq<Message>, stream: usize) -> Seq<Event> {
    queue.map_values(|m: Message| (Event { stream: stream, message: m }))
}

/// The order in which a run dispatches what is pending on the streams from
/// `from` on: stream by stream, each in the order of arrival.
pub open spec fn drained(queues: Seq<Seq<Message>>, from: nat) -> Seq<Event>
    decreases queues.len() - from,
{
    if from >= queues.len() {
        Seq::empty()
    } else {
        tagged(queues[from as int], from as usize) + drained(queues, from + 1)
    }
}

/// The messages that `events` hands to the handler of stream `stream`, in
/// order.
pub open spec fn dispatched_on(events: Seq<Event>, stream: usize) -> Seq<Message>
    decreases events.len(),
{
    if events.len() == 0 {
        Seq::empty()
    } else if events.last().stream == stream {
        dispatched_on(events.drop_last(), stream).push(events.last().message)
    } else {
        dispatched_on(events.drop_last(), stream)
    }
}

/// Nothing is pending on any stream.
pub open spec fn idle(queues: Seq<Seq<Message>>) -> bool {
    forall|s: int| 0 <= s < queues.len() ==> (#[trigger] queues[s]).len() == 0
}

/// Stream `s` wins the race: it has a message pending and no stream before
/// it has one.
pub open spec fn wins(queues: Seq<Seq<Message>>, s: int) -> bool {
    &&& 0 <= s < queues.len()
    &&& queues[s].len() > 0
    &&& forall|j: int| 0 <= j < s ==> (#[trigger] queues[j]).len() == 0
}

/// The streams after the winner `s` gave up its first message and was armed
/// again: every other stream is as it was.
pub open spec fn rearmed(queues: Seq<Seq<Message>>, s: int) -> Seq<Seq<Message>> {
    queues.update(s, queues[s].drop_first())
}

/// The streams after the wait on `event.stream` resolved with
/// `event.message`: the message stands behind what was pending there. An
/// event for a stream that is not there leaves everything as it was.
pub open spec fn arrived(queues: Seq<Seq<Message>>, event: Event) -> Seq<Seq<Message>> {
    if event.stream < queues.len() {
        queues.update(event.stream as int, queues[event.stream as int].push(event.message))
    } else {
        queues
    }
}

/// The stream that wins a race, if anything is pending.
pub open spec fn raced(queues: Seq<Seq<Message>>) -> Option<int> {
    if exists|s: int| wins(queues, s) {
        Some(choose|s: int| wins(queues, s))
    } else {
        None
    }
}

/// The streams, and the dispatches made so far, after `steps`: an event is
/// an arrival, `None` is a race.
pub open spec fn played(queues: Seq<Seq<Message>>, steps: Seq<Option<Event>>) -> (
    Seq<Seq<Message>>,
    Seq<Event>,
)
    decreases steps.len(),
{
    if steps.len() == 0 {
        (queues, Seq::empty())
    } else {
        let (before, out) = played(queues, steps.drop_last());
        match steps.last() {
            Some(event) => (arrived(before, event), out),
            None => match raced(before) {
                Some(s) => (
                    rearmed(before, s),
                    out.push(Event { stream: s as usize, message: before[s][0] }),
                ),
                None => (before, out),
            },
        }
    }
}

/// The arrivals among `steps`, in order.
pub open spec fn arrivals(steps: Seq<Option<Event>>) -> Seq<Event>
    decreases steps.len(),
{
    if steps.len() == 0 {
        Seq::empty()
    } else {
        match steps.last() {
            Some(event) => arrivals(steps.drop_last()).push(event),
            None => arrivals(steps.drop_last()),
        }
    }
}

/// At most one stream wins a race.
pub proof fn lemma_one_winner(queues: Seq<Seq<Message>>, a: int, b: int)
    requires
        wins(queues, a),
        wins(queues, b),
    ensures
        a == b,
{
    if a < b {
        assert(queues[a].len() == 0);
    } else if b < a {
        assert(queues[b].len() == 0);
    }
}

/// However arrivals and races follow each other, no message is lost and
/// none is dispatched twice: on every stream, what was dispatched so far
/// followed by what is still pending is what was pending at first followed
/// by what arrived since, in that order.
pub proof fn lemma_nothing_dropped(
    queues: Seq<Seq<Message>>,
    steps: Seq<Option<Event>>,
    stream: usize,
)
    requires
        queues.len() <= usize::MAX,
        stream < queues.len(),
    ensures
        played(queues, steps).0.len() == queues.len(),
        dispatched_on(played(queues, steps).1, stream) + played(queues, steps).0[stream as int]
            == queues[stream as int] + dispatched_on(arrivals(steps), stream),
    decreases steps.len(),
{
    let now = played(queues, steps);
    if steps.len() == 0 {
        assert(dispatched_on(now.1, stream) + now.0[stream as int] =~= queues[stream as int]
            + dispatched_on(arrivals(steps), stream));
    } else {
        lemma_nothing_dropped(queues, steps.drop_last(), stream);
        let (before, out) = played(queues, steps.drop_last());
        let came = arrivals(steps.drop_last());
        match steps.last() {
            Some(event) => {
                assert(arrivals(steps) == came.push(event));
                assert(came.push(event).drop_last() =~= came);
                assert(came.push(event).last() == event);
                assert(now.0 == arrived(before, event) && now.1 == out);
                if event.stream == stream {
                    assert(dispatched_on(arrivals(steps), stream) == dispatched_on(
                        came,
                        stream,
                    ).push(event.message));
                    assert(now.0[stream as int] == before[stream as int].push(event.message));
                    let d = dispatched_on(out, stream);
                    let c = dispatched_on(came, stream);
                    assert(d + before[stream as int].push(event.message) =~= (d
                        + before[stream as int]).push(event.message));
                    assert(queues[stream as int] + c.push(event.message) =~= (queues[stream as int]
                        + c).push(event.message));
                } else {
                    assert(dispatched_on(arrivals(steps), stream) == dispatched_on(came, stream));
                    assert(now.0[stream as int] == before[stream as int]);
                }
                assert(dispatched_on(now.1, stream) + now.0[stream as int]
                    =~= queues[stream as int] + dispatched_on(arrivals(steps), stream));
            },
            None => {
                match raced(before) {
                    Some(s) => {
                        let e = Event { stream: s as usize, message: before[s][0] };
                        assert(wins(before, s));
                        assert(out.push(e).drop_last() =~= out);
                        assert(dispatched_on(now.1, stream) + now.0[stream as int]
                            =~= queues[stream as int] + dispatched_on(arrivals(steps), stream));
                    },
                    None => {},
                }
            },
        }
    }
}

proof fn lemma_drained_suffix(a: Seq<Seq<Message>>, b: Seq<Seq<Message>>, from: nat)
    requires
        a.len() == b.len(),
        forall|j: int| from <= j < a.len() ==> a[j] == b[j],
    ensures
        drained(a, from) == drained(b, from),
    decreases a.len() - from,
{
    if from < a.len() {
        lemma_drained_suffix(a, b, from + 1);
    }
}

proof fn lemma_drained_step(queues: Seq<Seq<Message>>, s: int, from: nat)
    requires
        wins(queues, s),
        from <= s,
        s <= usize::MAX,
    ensures
        drained(queues, from) == seq![
            (Event { stream: s as usize, message: queues[s][0] }),
        ] + drained(rearmed(queues, s), from),
    decreases s - from,
{
    let after = rearmed(queues, s);
    if from < s {
        lemma_drained_step(queues, s, from + 1);
        assert(queues[from as int].len() == 0);
        assert(after[from as int] == queues[from as int]);
        assert(tagged(queues[from as int], from as usize) =~= Seq::<Event>::empty());
        assert(drained(queues, from) =~= drained(queues, from + 1));
        assert(drained(after, from) =~= drained(after, from + 1));
    } else {
        lemma_drained_suffix(queues, after, from + 1);
        assert(tagged(queues[s], s as usize) =~= seq![
            (Event { stream: s as usize, message: queues[s][0] }),
        ] + tagged(after[s], s as usize));
        assert(drained(queues, from) =~= seq![
            (Event { stream: s as usize, message: queues[s][0] }),
        ] + drained(after, from));
    }
}

proof fn lemma_drained_idle(queues: Seq<Seq<Message>>, from: nat)
    requires
        idle(queues),
    ensures
        drained(queues, from).len() == 0,
    decreases queues.len() - from,
{
    if from < queues.len() {
        lemma_drained_idle(queues, from + 1);
        assert(queues[from as int].len() == 0);
    }
}

proof fn lemma_dispatched_concat(a: Seq<Event>, b: Seq<Event>, stream: usize)
    ensures
        dispatched_on(a + b, stream) == dispatched_on(a, stream) + dispatched_on(b, stream),
    decreases b.len(),
{
    if b.len() == 0 {
        assert(a + b =~= a);
        assert(dispatched_on(a, stream) + dispatched_on(b, stream) =~= dispatched_on(a, stream));
    } else {
        lemma_dispatched_concat(a, b.drop_last(), stream);
        assert((a + b).drop_last() =~= a + b.drop_last());
        assert((a + b).last() == b.last());
        if b.last().stream == stream {
            assert(dispatched_on(a, stream) + dispatched_on(b.drop_last(), stream).push(
                b.last().message,
            ) =~= (dispatched_on(a, stream) + dispatched_on(b.drop_last(), stream)).push(
                b.last().message,
            ));
        }
    }
}

proof fn lemma_dispatched_tagged(queue: Seq<Message>, tag: usize, stream: usize)
    ensures
        dispatched_on(tagged(queue, tag), stream) == if tag == stream {
            queue
        } else {
            Seq::empty()
        },
    decreases queue.len(),
{
    if queue.len() > 0 {
        lemma_dispatched_tagged(queue.drop_last(), tag, stream);
        assert(tagged(queue, tag).drop_last() =~= tagged(queue.drop_last(), tag));
        assert(tagged(queue, tag).last().message == queue.last());
        if tag == stream {
            assert(queue.drop_last().push(queue.last()) =~= queue);
        }
    }
}

/// No message is lost and none is dispatched twice: what a run hands to the
/// handler of a stream is exactly what was pending on that stream, in the
/// order of arrival, however many other streams had messages pending too.
pub proof fn lemma_no_message_lost(queues: Seq<Seq<Message>>, stream: usize)
    requires
        queues.len() <= usize::MAX,
    ensures
        stream < queues.len() ==> dispatched_on(drained(queues, 0), stream) == queues[
            stream as int
        ],
        stream >= queues.len() ==> dispatched_on(drained(queues, 0), stream).len() == 0,
{
    lemma_dispatched_from(queues, 0, stream);
}

/// A race hands out events of streams that are there, and leaves the number
/// of streams as it is.
pub proof fn lemma_played_in_range(queues: Seq<Seq<Message>>, steps: Seq<Option<Event>>)
    requires
        queues.len() <= usize::MAX,
    ensures
        played(queues, steps).0.len() == queues.len(),
        forall|i: int|
            0 <= i < played(queues, steps).1.len() ==> (#[trigger] played(
                queues,
                steps,
            ).1[i]).stream < queues.len(),
    decreases steps.len(),
{
    if steps.len() > 0 {
        lemma_played_in_range(queues, steps.drop_last());
    }
}

/// A run hands out events of streams that are there.
pub proof fn lemma_drained_in_range(queues: Seq<Seq<Message>>, from: nat)
    requires
        queues.len() <= usize::MAX,
    ensures
        forall|i: int|
            0 <= i < drained(queues, from).len() ==> (#[trigger] drained(
                queues,
                from,
            )[i]).stream < queues.len(),
    decreases queues.len() - from,
{
    if from < queues.len() {
        lemma_drained_in_range(queues, from + 1);
        let head = tagged(queues[from as int], from as usize);
        let rest = drained(queues, from + 1);
        assert forall|i: int| 0 <= i < drained(queues, from).len() implies (#[trigger] drained(
            queues,
            from,
        )[i]).stream < queues.len() by {
            if i < head.len() {
                assert(drained(queues, from)[i] == head[i]);
            } else {
                assert(drained(queues, from)[i] == rest[i - head.len()]);
            }
        }
    }
}

/// Every message is dispatched exactly once in the end: after any sequence
/// of arrivals and races, followed by a run, the handler of each stream has
/// been handed what was pending on the stream at first and what arrived on
/// it since, each message once and in the order of arrival.
pub proof fn lemma_all_dispatched_once(
    queues: Seq<Seq<Message>>,
    steps: Seq<Option<Event>>,
    stream: usize,
)
    requires
        queues.len() <= usize::MAX,
        stream < queues.len(),
    ensures
        dispatched_on(played(queues, steps).1 + drained(played(queues, steps).0, 0), stream)
            == queues[stream as int] + dispatched_on(arrivals(steps), stream),
{
    let (left, out) = played(queues, steps);
    lemma_nothing_dropped(queues, steps, stream);
    lemma_no_message_lost(left, stream);
    lemma_dispatched_concat(out, drained(left, 0), stream);
}

proof fn lemma_dispatched_from(queues: Seq<Seq<Message>>, from: nat, stream: usize)
    requires
        queues.len() <= usize::MAX,
    ensures
        dispatched_on(drained(queues, from), stream) == if from <= stream < queues.len() {
            queues[stream as int]
        } else {
            Seq::empty()
        },
    decreases queues.len() - from,
{
    if from < queues.len() {
        lemma_dispatched_from(queues, from + 1, stream);
        lemma_dispatched_tagged(queues[from as int], from as usize, stream);
        lemma_dispatched_concat(
            tagged(queues[from as int], from as usize),
            drained(queues, from + 1),
            stream,
        );
        assert(dispatched_on(drained(queues, from), stream) =~= if from <= stream < queues.len() {
            queues[stream as int]
        } else {
            Seq::empty()
        });
    }
}

/// The select loop over a fixed set of streams.
///
/// Each stream keeps the messages that arrived on it and were not dispatched
/// yet. A race takes one message from one stream and leaves the others alone.
pub struct EventHandler {
    streams: Vec<Vec<Message>>,
}

impl EventHandler {
    /// What is pending on each stream, oldest first.
    pub closed spec fn queues(&self) -> Seq<Seq<Message>> {
        Seq::new(self.streams@.len(), |i: int| self.streams@[i]@)
    }

    /// A loop over `streams` streams, with nothing pending.
    pub fn new(streams: usize) -> (handler: EventHandler)
        ensures
            handler.queues().len() == streams,
            idle(handler.queues()),
    {
        let mut queues: Vec<Vec<Message>> = Vec::new();
        let mut i: usize = 0;
        while i < streams
            invariant
                i <= streams,
                queues@.len() == i,
                forall|j: int| 0 <= j < i ==> (#[trigger] queues@[j])@.len() == 0,
            decreases streams - i,
        {
            queues.push(Vec::new());
            i = i + 1;
        }
        EventHandler { streams: queues }
    }

    /// The number of streams.
    pub fn streams(&self) -> (n: usize)
        ensures
            n == self.queues().len(),
    {
        self.streams.len()
    }

    /// How many messages are pending on `stream`, if the loop has it.
    pub fn pending(&self, stream: usize) -> (n: Option<usize>)
        ensures
            stream < self.queues().len() ==> n == Some(
                self.queues()[stream as int].len() as usize,
            ),
            stream >= self.queues().len() ==> n.is_none(),
    {
        if stream < self.streams.len() {
            Some(self.streams[stream].len())
        } else {
            None
        }
    }

    /// Records that the wait on `event.stream` resolved with `event.message`.
    /// The message joins that stream behind what is pending there. An event
    /// for a stream that the loop does not have is refused and changes
    /// nothing.
    pub fn register(&mut self, event: Event) -> (res: Result<(), EventHandlerError>)
        ensures
            final(self).queues() == arrived(old(self).queues(), event),
            event.stream < old(self).queues().len() ==> res == Ok::<(), EventHandlerError>(()),
            event.stream >= old(self).queues().len() ==> res == Err::<(), EventHandlerError>(
                EventHandlerError::Io(event.message.subject),
            ),
    {
        if event.stream < self.streams.len() {
            let stream: usize = event.stream;
            self.streams[stream].push(event.message);
            assert(self.queues() =~= old(self).queues().update(
                stream as int,
                old(self).queues()[stream as int].push(event.message),
            ));
            Ok(())
        } else {
            Err(EventHandlerError::Io(event.message.subject))
        }
    }

    /// One race. The first stream with a message pending wins: its oldest
    /// message is handed out and the stream is armed again. Every other
    /// stream keeps what is pending on it. With nothing pending anywhere
    /// there is no winner and nothing changes.
    pub fn next(&mut self) -> (event: Option<Event>)
        ensures
            match event {
                Some(e) => {
                    &&& wins(old(self).queues(), e.stream as int)
                    &&& raced(old(self).queues()) == Some(e.stream as int)
                    &&& e.message == old(self).queues()[e.stream as int][0]
                    &&& final(self).queues() == rearmed(old(self).queues(), e.stream as int)
                },
                None => {
                    &&& idle(old(self).queues())
                    &&& raced(old(self).queues()).is_none()
                    &&& final(self).queues() == old(self).queues()
                },
            },
    {
        let n: usize = self.streams.len();
        let mut i: usize = 0;
        while i < n && self.streams[i].len() == 0
            invariant
                i <= n,
                n == self.streams@.len(),
                *self == *old(self),
                forall|j: int| 0 <= j < i ==> (#[trigger] self.queues()[j]).len() == 0,
            decreases n - i,
        {
            i = i + 1;
        }
        if i == n {
            assert forall|s: int| !wins(self.queues(), s) by {
                if 0 <= s < n {
                    assert(self.queues()[s].len() == 0);
                }
            }
            None
        } else {
            proof {
                assert(wins(self.queues(), i as int));
                lemma_one_winner(self.queues(), i as int, raced(self.queues()).unwrap());
            }
            let message = self.streams[i].remove(0);
            assert(self.queues() =~= rearmed(old(self).queues(), i as int));
            Some(Event { stream: i, message })
        }
    }

    /// Races until nothing is pending. Every dispatch is handed out, in
    /// order, for the handler of its stream; the outcome beside them is
    /// always that no event is left, whether or not anything was pending to
    /// begin with.
    pub fn run(&mut self) -> (res: (Vec<Event>, EventHandlerError))
        ensures
            final(self).queues().len() == old(self).queues().len(),
            idle(final(self).queues()),
            res.0@ == drained(old(self).queues(), 0),
            res.1 matches EventHandlerError::NoEvents(s) && s@ == "nothing is pending"@,
    {
        let mut events: Vec<Event> = Vec::new();
        loop
            invariant
                self.queues().len() == old(self).queues().len(),
                events@ + drained(self.queues(), 0) == drained(old(self).queues(), 0),
            decreases drained(self.queues(), 0).len(),
        {
            let ghost before = self.queues();
            let ghost done = events@;
            match self.next() {
                Some(e) => {
                    proof {
                        lemma_drained_step(before, e.stream as int, 0);
                        assert(done.push(e) + drained(self.queues(), 0) =~= done + drained(
                            before,
                            0,
                        ));
                    }
                    events.push(e);
                },
                None => {
                    proof {
                        lemma_drained_idle(before, 0);
                        assert(events@ =~= drained(old(self).queues(), 0));
                    }
                    return (
                        events,
                        EventHandlerError::NoEvents(String::from_str("nothing is pending")),
                    );
                },
            }
        }
    }
}

} // verus!
