//! The ticker: a heartbeat on a fixed subject at a fixed interval.

use crate::event_handler::{Event, EventHandlerError};
use crate::pub_sub::{Action, PubSub};
use crate::subject::tick_subject;
use vstd::prelude::*;

verus! {

/// The interval of the heartbeat where nothing else is configured.
pub const HEARTBEAT_MILLIS: u64 = 1000;

/// A ticker is idle until its interval elapses, publishes, and is idle
/// again. It has no way to stop.
#[derive(Debug)]
pub struct Ticker {
    millis: u64,
    publishing: bool,
}

impl Ticker {
    /// The configured interval, in milliseconds.
    pub closed spec fn millis(&self) -> u64 {
        self.millis
    }

    /// Whether a heartbeat is being published right now.
    pub closed spec fn publishing(&self) -> bool {
        self.publishing
    }

    /// An idle ticker with the given interval.
    pub fn new(millis: u64) -> (ticker: Ticker)
        ensures
            ticker.millis() == millis,
            !ticker.publishing(),
    {
        Ticker { millis, publishing: false }
    }

    /// The configured interval, in milliseconds.
    pub fn interval(&self) -> (millis: u64)
        ensures
            millis == self.millis(),
    {
        self.millis
    }

    /// The interval elapsed. An idle ticker starts to publish its heartbeat;
    /// one that is still publishing lets the tick pass.
    pub fn interval_elapsed(&mut self) -> (action: Action)
        ensures
            final(self).millis() == old(self).millis(),
            final(self).publishing(),
            !old(self).publishing() ==> (action matches Action::Publish { subject, payload }
                && subject@ == "tick"@ && payload@ == "aba"@),
            old(self).publishing() ==> action == Action::Continue,
    {
        if self.publishing {
            Action::Continue
        } else {
            self.publishing = true;
            Action::Publish { subject: tick_subject(), payload: String::from_str("aba") }
        }
    }

    /// The heartbeat went out. The ticker is idle again and asks to be told
    /// when its interval has elapsed. An idle ticker has nothing to finish.
    pub fn published(&mut self) -> (action: Action)
        ensures
            final(self).millis() == old(self).millis(),
            !final(self).publishing(),
            old(self).publishing() ==> action == (Action::Sleep { millis: old(self).millis() }),
            !old(self).publishing() ==> action == Action::Continue,
    {
        if self.publishing {
            self.publishing = false;
            Action::Sleep { millis: self.millis }
        } else {
            Action::Continue
        }
    }
}

impl PubSub for Ticker {
    /// A ticker listens on nothing.
    open spec fn subjects(&self) -> Seq<Seq<char>> {
        Seq::empty()
    }

    /// A ticker never ends.
    open spec fn running(&self) -> bool {
        true
    }

    fn subscriptions(&self) -> (subjects: Vec<String>) {
        Vec::new()
    }

    fn is_running(&self) -> (running: bool) {
        true
    }

    /// A ticker has no use for any message.
    fn client_loop(&mut self, event: Event) -> (res: Result<Action, EventHandlerError>)
        ensures
            res == Err::<Action, EventHandlerError>(EventHandlerError::Io(event.message.subject)),
    {
        Err(EventHandlerError::Io(event.message.subject))
    }
}

} // verus!
