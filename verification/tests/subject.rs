use pubsub_supervisor::subject::{
    decimal, kill_subject, start_subject, stop_subject, tick_subject, worker_id,
};

#[test]
fn worker_id_is_the_trailing_segment() {
    assert_eq!(worker_id("command.kill_client.7"), "7");
    assert_eq!(worker_id("command.kill_client.log"), "log");
    assert_eq!(worker_id("a.b"), "b");
}

#[test]
fn worker_id_of_a_subject_without_dot_is_the_subject() {
    assert_eq!(worker_id("tick"), "tick");
}

#[test]
fn worker_id_of_a_subject_that_ends_in_a_dot_is_empty() {
    assert_eq!(worker_id("command.kill_client."), "");
    assert_eq!(worker_id("."), "");
    assert_eq!(worker_id(""), "");
}

#[test]
fn worker_id_counts_characters_not_bytes() {
    assert_eq!(worker_id("früh.später"), "später");
    assert_eq!(worker_id("ü.é.ß"), "ß");
}

#[test]
fn stop_subject_addresses_one_worker() {
    assert_eq!(stop_subject("7"), "supervisor.kill_client.7");
    assert_eq!(stop_subject("log"), "supervisor.kill_client.log");
    assert_eq!(stop_subject(""), "supervisor.kill_client.");
}

#[test]
fn decimal_writes_handles() {
    assert_eq!(decimal(0), "0");
    assert_eq!(decimal(7), "7");
    assert_eq!(decimal(9), "9");
    assert_eq!(decimal(10), "10");
    assert_eq!(decimal(109), "109");
    assert_eq!(decimal(1234567890), "1234567890");
    assert_eq!(decimal(usize::MAX), usize::MAX.to_string());
}

#[test]
fn fixed_subjects() {
    assert_eq!(tick_subject(), "tick");
    assert_eq!(start_subject(), "command.start_log");
    assert_eq!(kill_subject(), "command.kill_client.*");
}

#[test]
fn stop_subject_of_a_kill_request() {
    let id = worker_id("command.kill_client.42");
    assert_eq!(stop_subject(&id), "supervisor.kill_client.42");
}
