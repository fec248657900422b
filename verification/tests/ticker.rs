use pubsub_supervisor::event_handler::{Event, EventHandlerError, Message};
use pubsub_supervisor::pub_sub::{Action, PubSub};
use pubsub_supervisor::ticker::{Ticker, HEARTBEAT_MILLIS};

fn heartbeat() -> Action {
    Action::Publish { subject: "tick".to_string(), payload: "aba".to_string() }
}

#[test]
fn ticker_keeps_its_interval() {
    assert_eq!(HEARTBEAT_MILLIS, 1000);
    assert_eq!(Ticker::new(HEARTBEAT_MILLIS).interval(), 1000);
    assert_eq!(Ticker::new(10000).interval(), 10000);
    assert_eq!(Ticker::new(0).interval(), 0);
}

#[test]
fn ticker_publishes_when_its_interval_elapses() {
    let mut ticker = Ticker::new(1000);
    assert_eq!(ticker.interval_elapsed(), heartbeat());
    assert_eq!(ticker.published(), Action::Sleep { millis: 1000 });
    assert_eq!(ticker.interval_elapsed(), heartbeat());
    assert_eq!(ticker.published(), Action::Sleep { millis: 1000 });
    assert_eq!(ticker.interval(), 1000);
}

#[test]
fn ticker_lets_a_tick_pass_while_it_publishes() {
    let mut ticker = Ticker::new(10000);
    assert_eq!(ticker.interval_elapsed(), heartbeat());
    assert_eq!(ticker.interval_elapsed(), Action::Continue);
    assert_eq!(ticker.published(), Action::Sleep { millis: 10000 });
    assert_eq!(ticker.published(), Action::Continue);
    assert_eq!(ticker.interval_elapsed(), heartbeat());
}

#[test]
fn ticker_listens_on_nothing_and_never_ends() {
    let mut ticker = Ticker::new(1000);
    assert!(ticker.subscriptions().is_empty());
    assert!(ticker.is_running());
    let event = Event {
        stream: 0,
        message: Message { subject: "tick".to_string(), payload: b"aba".to_vec() },
    };
    assert_eq!(ticker.client_loop(event), Err(EventHandlerError::Io("tick".to_string())));
    assert!(ticker.is_running());
    assert_eq!(ticker.interval_elapsed(), heartbeat());
}
