//! What every client role has in common, and the configuration they share.

use crate::event_handler::{Event, EventHandlerError};
use vstd::prelude::*;

verus! {

/// What a client asks its surroundings to do after one turn of its loop.
#[derive(Clone, Debug, PartialEq, Eq)]
pub enum Action {
    /// Nothing: wait for the next event.
    Continue,
    /// Wait for the given number of milliseconds, then report that they
    /// elapsed.
    Sleep { millis: u64 },
    /// Publish `payload` on `subject`.
    Publish { subject: String, payload: String },
    /// Start a ticker as worker `worker`, with the given interval.
    StartTicker { worker: usize, millis: u64 },
    /// Start a log client as worker `worker`; it stops on a message on
    /// `stop_subject`.
    StartLog { worker: usize, stop_subject: String },
    /// Make `line` observable.
    Emit { line: String },
}

/// A client role on the bus, one turn at a time.
///
/// The surroundings subscribe to `subscriptions()`, in that order, race the
/// streams, and hand each completed wait to `client_loop` as an event whose
/// stream is the index of the subscription.
pub trait PubSub: Sized {
    /// The subjects that the client listens on, by stream.
    spec fn subjects(&self) -> Seq<Seq<char>>;

    /// Whether any loop of the client is still going.
    spec fn running(&self) -> bool;

    /// The subjects to subscribe to.
    fn subscriptions(&self) -> (subjects: Vec<String>)
        ensures
            subjects@.len() == self.subjects().len(),
            forall|i: int| 0 <= i < subjects@.len() ==> (#[trigger] subjects@[i])@ == self.subjects()[i],
    ;

    /// Whether any loop of the client is still going.
    fn is_running(&self) -> (running: bool)
        ensures
            running == self.running(),
    ;

    /// One turn: reacts to `event`. An event that is refused changes
    /// nothing.
    fn client_loop(&mut self, event: Event) -> (res: Result<Action, EventHandlerError>)
        ensures
            res is Err ==> *final(self) == *old(self),
    ;
}

/// Why a configuration could not be had.
#[derive(Clone, Debug, PartialEq, Eq)]
pub enum ConfigError {
    /// The file could not be read; holds the reason.
    Io(String),
    /// The configuration was read but is not acceptable.
    Config(String),
    /// The file does not hold a configuration.
    Parse(String),
}

impl ConfigError {
    /// The text that `describe` produces.
    pub open spec fn text(&self) -> Seq<char> {
        match self {
            ConfigError::Io(s) => "'"@ + s@ + "' is not an active client"@,
            ConfigError::Config(s) => "Config error: "@ + s@,
            ConfigError::Parse(s) => "Parse error: "@ + s@,
        }
    }

    /// The error as a line of text.
    pub fn describe(&self) -> (line: String)
        ensures
            line@ == self.text(),
    {
        match self {
            ConfigError::Io(s) => String::from_str("'").concat(s.as_str()).concat(
                "' is not an active client",
            ),
            ConfigError::Config(s) => String::from_str("Config error: ").concat(s.as_str()),
            ConfigError::Parse(s) => String::from_str("Parse error: ").concat(s.as_str()),
        }
    }
}

/// How to reach the bus: created once, never changed, handed by value to
/// every connection.
#[derive(Clone, Debug, PartialEq, Eq)]
pub struct Config {
    pub server: String,
    pub user: String,
    pub pass: String,
}

impl Config {
    /// Accepts a configuration that was read. Every configuration passes:
    /// nothing is asked of its fields yet, not even that the server address
    /// is there.
    pub fn validate(pres: Config) -> (res: Result<Config, ConfigError>)
        ensures
            res == Ok::<Config, ConfigError>(pres),
    {
        Ok(pres)
    }
}

} // verus!
