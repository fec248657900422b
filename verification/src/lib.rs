//! A pub/sub-driven process supervisor, as pure decision logic.
//!
//! Every client role of the system (the ticker, the log client, the
//! supervisor) is a state machine: it is handed the event that completed and
//! answers with the action to perform on the message bus. The surrounding
//! program owns the bus connection and the tasks; nothing in here waits.

pub mod box_pin;
pub mod client_state;
pub mod event_handler;
pub mod log;
pub mod pub_sub;
pub mod subject;
pub mod supervisor;
pub mod ticker;
