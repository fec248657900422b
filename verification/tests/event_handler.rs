use pubsub_supervisor::event_handler::{Event, EventHandler, EventHandlerError, Message};

fn message(subject: &str, payload: &[u8]) -> Message {
    Message { subject: subject.to_string(), payload: payload.to_vec() }
}

fn event(stream: usize, subject: &str, payload: &[u8]) -> Event {
    Event { stream, message: message(subject, payload) }
}

#[test]
fn fresh_loop_is_idle() {
    let handler = EventHandler::new(3);
    assert_eq!(handler.streams(), 3);
    assert_eq!(handler.pending(0), Some(0));
    assert_eq!(handler.pending(1), Some(0));
    assert_eq!(handler.pending(2), Some(0));
    assert_eq!(handler.pending(3), None);
}

#[test]
fn loop_without_streams() {
    let mut handler = EventHandler::new(0);
    assert_eq!(handler.streams(), 0);
    assert_eq!(handler.next(), None);
    assert_eq!(
        handler.register(event(0, "tick", b"")),
        Err(EventHandlerError::Io("tick".to_string()))
    );
}

#[test]
fn register_queues_behind_what_is_pending() {
    let mut handler = EventHandler::new(2);
    assert_eq!(handler.register(event(1, "spor_1", b"a")), Ok(()));
    assert_eq!(handler.register(event(1, "spor_1", b"b")), Ok(()));
    assert_eq!(handler.pending(0), Some(0));
    assert_eq!(handler.pending(1), Some(2));
    assert_eq!(handler.next(), Some(event(1, "spor_1", b"a")));
    assert_eq!(handler.next(), Some(event(1, "spor_1", b"b")));
    assert_eq!(handler.next(), None);
}

#[test]
fn register_refuses_an_unknown_stream() {
    let mut handler = EventHandler::new(2);
    assert_eq!(handler.register(event(0, "tick", b"1")), Ok(()));
    assert_eq!(
        handler.register(event(2, "elsewhere", b"x")),
        Err(EventHandlerError::Io("elsewhere".to_string()))
    );
    assert_eq!(handler.pending(0), Some(1));
    assert_eq!(handler.pending(1), Some(0));
    assert_eq!(handler.streams(), 2);
}

#[test]
fn next_on_an_idle_loop_is_none() {
    let mut handler = EventHandler::new(2);
    assert_eq!(handler.next(), None);
    assert_eq!(handler.next(), None);
    assert_eq!(handler.pending(0), Some(0));
}

#[test]
fn race_takes_one_message_and_keeps_the_rest() {
    let mut handler = EventHandler::new(3);
    handler.register(event(2, "c", b"c1")).unwrap();
    handler.register(event(1, "b", b"b1")).unwrap();
    handler.register(event(1, "b", b"b2")).unwrap();
    assert_eq!(handler.next(), Some(event(1, "b", b"b1")));
    assert_eq!(handler.pending(0), Some(0));
    assert_eq!(handler.pending(1), Some(1));
    assert_eq!(handler.pending(2), Some(1));
    handler.register(event(0, "a", b"a1")).unwrap();
    assert_eq!(handler.next(), Some(event(0, "a", b"a1")));
    assert_eq!(handler.next(), Some(event(1, "b", b"b2")));
    assert_eq!(handler.next(), Some(event(2, "c", b"c1")));
    assert_eq!(handler.next(), None);
}

#[test]
fn two_streams_in_rapid_succession_lose_nothing() {
    let mut handler = EventHandler::new(2);
    handler.register(event(0, "tick", b"t1")).unwrap();
    handler.register(event(1, "spor_1", b"s1")).unwrap();
    let first = handler.next().unwrap();
    handler.register(event(0, "tick", b"t2")).unwrap();
    let second = handler.next().unwrap();
    let third = handler.next().unwrap();
    assert_eq!(handler.next(), None);
    assert_eq!(first, event(0, "tick", b"t1"));
    assert_eq!(second, event(0, "tick", b"t2"));
    assert_eq!(third, event(1, "spor_1", b"s1"));
}

#[test]
fn run_dispatches_everything_once() {
    let mut handler = EventHandler::new(3);
    handler.register(event(2, "c", b"c1")).unwrap();
    handler.register(event(0, "a", b"a1")).unwrap();
    handler.register(event(2, "c", b"c2")).unwrap();
    handler.register(event(0, "a", b"a2")).unwrap();
    handler.register(event(1, "b", b"b1")).unwrap();
    let (events, outcome) = handler.run();
    assert_eq!(outcome, EventHandlerError::NoEvents("nothing is pending".to_string()));
    assert_eq!(
        events,
        vec![
            event(0, "a", b"a1"),
            event(0, "a", b"a2"),
            event(1, "b", b"b1"),
            event(2, "c", b"c1"),
            event(2, "c", b"c2"),
        ]
    );
    assert_eq!(handler.pending(0), Some(0));
    assert_eq!(handler.pending(1), Some(0));
    assert_eq!(handler.pending(2), Some(0));
    assert_eq!(handler.streams(), 3);
}

#[test]
fn run_keeps_the_order_of_each_stream() {
    let mut handler = EventHandler::new(2);
    let mut sent: Vec<Vec<Message>> = vec![Vec::new(), Vec::new()];
    for i in 0..20u8 {
        let stream = usize::from(i % 3 == 0);
        let m = message(if stream == 0 { "tick" } else { "spor_1" }, &[i]);
        sent[stream].push(m.clone());
        handler.register(Event { stream, message: m }).unwrap();
    }
    let (events, outcome) = handler.run();
    assert_eq!(outcome, EventHandlerError::NoEvents("nothing is pending".to_string()));
    assert_eq!(events.len(), 20);
    for stream in 0..2 {
        let got: Vec<Message> = events
            .iter()
            .filter(|e| e.stream == stream)
            .map(|e| e.message.clone())
            .collect();
        assert_eq!(got, sent[stream]);
    }
}

#[test]
fn run_always_ends_with_no_events() {
    let no_events = EventHandlerError::NoEvents("nothing is pending".to_string());
    let mut handler = EventHandler::new(2);
    assert_eq!(handler.run(), (Vec::new(), no_events.clone()));
    handler.register(event(1, "b", b"")).unwrap();
    assert_eq!(handler.run(), (vec![event(1, "b", b"")], no_events.clone()));
    assert_eq!(handler.run(), (Vec::new(), no_events.clone()));
    for n in 1..=4u8 {
        for k in 0..n {
            handler.register(event(usize::from(k % 2), "s", &[k])).unwrap();
        }
        let (events, outcome) = handler.run();
        assert_eq!(events.len(), usize::from(n));
        assert_eq!(outcome, no_events);
    }
}

#[test]
fn errors_describe_themselves() {
    assert_eq!(
        EventHandlerError::Io("tick".to_string()).describe(),
        "'tick' is not an active client"
    );
    assert_eq!(
        EventHandlerError::NoEvents("nothing is pending".to_string()).describe(),
        "No Events: nothing is pending"
    );
    assert_eq!(
        EventHandlerError::Parse("command.kill_client.".to_string()).describe(),
        "Parse error: command.kill_client."
    );
    assert_eq!(EventHandlerError::Parse(String::new()).describe(), "Parse error: ");
}
