//! The supervisor: it starts workers on request, keeps track of them, and
//! tells them to stop by a message addressed to one of them.

use crate::event_handler::{Event, EventHandlerError};
use crate::pub_sub::{Action, PubSub};
use crate::subject::{
    decimal,
    decimal_of,
    kill_subject,
    start_subject,
    stop_subject,
    stop_subject_of,
    trailing_segment,
    worker_id,
};
use vstd::prelude::*;

verus! {

/// The stream of the requests to start a log client.
pub const START_STREAM: usize = 0;

/// The stream of the requests to stop a worker.
pub const KILL_STREAM: usize = 1;

/// An entry of the registry: the handle of a worker task and whether the
/// task is still going.
#[derive(Clone, Copy, Debug, PartialEq, Eq)]
pub struct Worker {
    pub id: usize,
    pub running: bool,
}

/// The handles that a wait on all of `registry` waits for: those of the
/// workers that are still going, in the order in which they were started.
pub open spec fn awaited(registry: Seq<Worker>) -> Seq<usize>
    decreases registry.len(),
{
    if registry.len() == 0 {
        Seq::empty()
    } else if registry.last().running {
        awaited(registry.drop_last()).push(registry.last().id)
    } else {
        awaited(registry.drop_last())
    }
}

/// The registry after `n` more workers were started.
pub open spec fn spawned(registry: Seq<Worker>, n: nat) -> Seq<Worker>
    decreases n,
{
    if n == 0 {
        registry
    } else {
        let before = spawned(registry, (n - 1) as nat);
        before.push(Worker { id: before.len() as usize, running: true })
    }
}

/// Every worker that is started is waited for: after `n` starts the wait
/// covers what it covered before and the `n` new handles, in the order in
/// which they were started, and the registry has kept every earlier entry.
pub proof fn lemma_spawned_are_awaited(registry: Seq<Worker>, n: nat)
    requires
        registry.len() + n <= usize::MAX,
    ensures
        spawned(registry, n).len() == registry.len() + n,
        spawned(registry, n).subrange(0, registry.len() as int) == registry,
        awaited(spawned(registry, n)) == awaited(registry) + Seq::new(
            n,
            |k: int| (registry.len() + k) as usize,
        ),
    decreases n,
{
    let fresh = Seq::new(n, |k: int| (registry.len() + k) as usize);
    if n == 0 {
        assert(spawned(registry, n).subrange(0, registry.len() as int) =~= registry);
        assert(awaited(registry) + fresh =~= awaited(registry));
    } else {
        let before = spawned(registry, (n - 1) as nat);
        let earlier = Seq::new((n - 1) as nat, |k: int| (registry.len() + k) as usize);
        lemma_spawned_are_awaited(registry, (n - 1) as nat);
        let now = spawned(registry, n);
        assert(now.drop_last() =~= before);
        assert(now.subrange(0, registry.len() as int) =~= before.subrange(
            0,
            registry.len() as int,
        ));
        assert((awaited(registry) + earlier).push(before.len() as usize) =~= awaited(registry)
            + fresh);
    }
}

/// The supervisor is running from the moment it is made; it has no state to
/// end in.
pub struct Supervisor {
    clients: Vec<Worker>,
    millis: u64,
}

impl Supervisor {
    /// The registry: one entry for each worker ever started, in order.
    pub closed spec fn registry(&self) -> Seq<Worker> {
        self.clients@
    }

    /// The interval of the ticker, in milliseconds.
    pub closed spec fn millis(&self) -> u64 {
        self.millis
    }

    /// A supervisor whose registry holds its ticker, as worker 0.
    pub fn new(millis: u64) -> (supervisor: Supervisor)
        ensures
            supervisor.millis() == millis,
            supervisor.registry() == seq![(Worker { id: 0, running: true })],
    {
        let mut clients: Vec<Worker> = Vec::new();
        clients.push(Worker { id: 0, running: true });
        Supervisor { clients, millis }
    }

    /// What to do on entry: start the ticker.
    pub fn on_entry(&self) -> (action: Action)
        ensures
            action == (Action::StartTicker { worker: 0, millis: self.millis() }),
    {
        Action::StartTicker { worker: 0, millis: self.millis }
    }

    /// The number of workers ever started.
    pub fn registered(&self) -> (n: usize)
        ensures
            n == self.registry().len(),
    {
        self.clients.len()
    }

    /// The entry of the worker with handle `worker`, if there is one.
    pub fn worker(&self, worker: usize) -> (entry: Option<Worker>)
        ensures
            worker < self.registry().len() ==> entry == Some(self.registry()[worker as int]),
            worker >= self.registry().len() ==> entry.is_none(),
    {
        if worker < self.clients.len() {
            Some(self.clients[worker])
        } else {
            None
        }
    }

    /// A request to start a log client. The new worker gets the next handle,
    /// is entered in the registry behind all earlier ones, and is to be
    /// started with the stop subject that its handle gives.
    pub fn start_request(&mut self) -> (action: Action)
        ensures
            final(self).millis() == old(self).millis(),
            final(self).registry() == spawned(old(self).registry(), 1),
            action matches Action::StartLog { worker, stop_subject } && worker == old(
                self,
            ).registry().len() && stop_subject@ == stop_subject_of(decimal_of(worker as nat)),
    {
        let worker: usize = self.clients.len();
        self.clients.push(Worker { id: worker, running: true });
        assert(spawned(old(self).registry(), 1) == spawned(old(self).registry(), 0).push(
            Worker { id: worker, running: true },
        ));
        let id = decimal(worker);
        Action::StartLog { worker, stop_subject: stop_subject(id.as_str()) }
    }

    /// A request to stop a worker, which arrived on `subject`. The id of the
    /// worker is the trailing segment of the subject, and the answer is one
    /// message, with an empty payload, on the stop subject of that worker.
    /// The registry and the worker itself are not touched. A subject that
    /// ends without an id is refused.
    pub fn kill_request(&self, subject: &str) -> (res: Result<Action, EventHandlerError>)
        ensures
            trailing_segment(subject@).len() > 0 ==> (res matches Ok(
                Action::Publish { subject: to, payload },
            ) && to@ == stop_subject_of(trailing_segment(subject@)) && payload@.len() == 0),
            trailing_segment(subject@).len() == 0 ==> (res matches Err(
                EventHandlerError::Parse(s),
            ) && s@ == subject@),
    {
        let id = worker_id(subject);
        if id.as_str().unicode_len() == 0 {
            Err(EventHandlerError::Parse(String::from_str(subject)))
        } else {
            Ok(Action::Publish { subject: stop_subject(id.as_str()), payload: String::new() })
        }
    }

    /// The task of worker `worker` completed: its entry is marked, and the
    /// wait no longer covers it. Says whether there is such an entry.
    pub fn worker_done(&mut self, worker: usize) -> (known: bool)
        ensures
            final(self).millis() == old(self).millis(),
            known == (worker < old(self).registry().len()),
            known ==> final(self).registry() == old(self).registry().update(
                worker as int,
                Worker { id: old(self).registry()[worker as int].id, running: false },
            ),
            !known ==> final(self).registry() == old(self).registry(),
    {
        if worker < self.clients.len() {
            let id: usize = self.clients[worker].id;
            self.clients.set(worker, Worker { id, running: false });
            true
        } else {
            false
        }
    }

    /// The handles to wait for now: every worker in the registry that is
    /// still going, late arrivals included.
    pub fn waiting_on(&self) -> (handles: Vec<usize>)
        ensures
            handles@ == awaited(self.registry()),
    {
        let mut handles: Vec<usize> = Vec::new();
        let mut i: usize = 0;
        while i < self.clients.len()
            invariant
                i <= self.clients@.len(),
                handles@ == awaited(self.clients@.subrange(0, i as int)),
            decreases self.clients@.len() - i,
        {
            assert(self.clients@.subrange(0, i + 1).drop_last() =~= self.clients@.subrange(
                0,
                i as int,
            ));
            if self.clients[i].running {
                handles.push(self.clients[i].id);
            }
            i = i + 1;
        }
        assert(self.clients@.subrange(0, i as int) =~= self.clients@);
        handles
    }
}

impl PubSub for Supervisor {
    /// The start requests, then the stop requests for any worker.
    open spec fn subjects(&self) -> Seq<Seq<char>> {
        seq!["command.start_log"@, "command.kill_client.*"@]
    }

    /// A supervisor never ends.
    open spec fn running(&self) -> bool {
        true
    }

    fn subscriptions(&self) -> (subjects: Vec<String>) {
        let mut subjects: Vec<String> = Vec::new();
        subjects.push(start_subject());
        subjects.push(kill_subject());
        subjects
    }

    fn is_running(&self) -> (running: bool) {
        true
    }

    /// A message on the start stream starts a log client, one on the kill
    /// stream is answered with the directed stop message, and one on any
    /// other stream is refused with its subject.
    fn client_loop(&mut self, event: Event) -> (res: Result<Action, EventHandlerError>)
        ensures
            final(self).millis() == old(self).millis(),
            event.stream == START_STREAM ==> final(self).registry() == spawned(
                old(self).registry(),
                1,
            ) && (res matches Ok(Action::StartLog { worker, stop_subject }) && worker == old(
                self,
            ).registry().len() && stop_subject@ == stop_subject_of(decimal_of(worker as nat))),
            event.stream != START_STREAM ==> final(self).registry() == old(self).registry(),
            event.stream == KILL_STREAM && trailing_segment(event.message.subject@).len() > 0
                ==> (res matches Ok(Action::Publish { subject: to, payload }) && to@
                == stop_subject_of(trailing_segment(event.message.subject@)) && payload@.len()
                == 0),
            event.stream == KILL_STREAM && trailing_segment(event.message.subject@).len() == 0
                ==> res == Err::<Action, EventHandlerError>(
                EventHandlerError::Parse(event.message.subject),
            ),
            event.stream > KILL_STREAM ==> res == Err::<Action, EventHandlerError>(
                EventHandlerError::Io(event.message.subject),
            ),
    {
        if event.stream == START_STREAM {
            Ok(self.start_request())
        } else if event.stream == KILL_STREAM {
            match self.kill_request(event.message.subject.as_str()) {
                Ok(action) => Ok(action),
                Err(_) => Err(EventHandlerError::Parse(event.message.subject)),
            }
        } else {
            Err(EventHandlerError::Io(event.message.subject))
        }
    }
}

} // verus!
