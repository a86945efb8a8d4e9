use tailor::{reply_outcome, CommandGateway, OrchestratorError, Reply};

#[test]
fn out_of_order_responses_match_callers() {
    let mut g: CommandGateway<&str> = CommandGateway::new();
    let first = g.begin("first caller").unwrap();
    let second = g.begin("second caller").unwrap();
    assert_eq!(first, 1);
    assert_eq!(second, 2);
    assert_eq!(g.complete(second), Some("second caller"));
    assert_eq!(g.complete(first), Some("first caller"));
    assert!(!g.is_waiting(first));
    assert!(!g.is_waiting(second));
}

#[test]
fn late_response_finds_nobody() {
    let mut g: CommandGateway<u32> = CommandGateway::new();
    let id = g.begin(7).unwrap();
    assert_eq!(g.complete(id), Some(7));
    assert_eq!(g.complete(id), None);
    assert_eq!(g.complete(99), None);
}

#[test]
fn timeout_resolves_with_timeout_error() {
    let mut g: CommandGateway<u32> = CommandGateway::new();
    let slow = g.begin(1).unwrap();
    let other = g.begin(2).unwrap();
    assert_eq!(g.expire(slow), Some(1));
    assert_eq!(reply_outcome::<u32>(Reply::TimedOut), Err((OrchestratorError::Timeout, None)));
    assert!(g.needs_reconnect());
    assert!(g.is_waiting(other));
    let next = g.begin(3).unwrap();
    assert_eq!(next, 3);
    assert_eq!(g.complete(other), Some(2));
    assert_eq!(g.complete(next), Some(3));
    assert_eq!(g.complete(slow), None);
}

#[test]
fn reconnect_hands_back_every_waiting_caller() {
    let mut g: CommandGateway<u32> = CommandGateway::new();
    let a = g.begin(10).unwrap();
    g.begin(20).unwrap();
    g.begin(30).unwrap();
    g.complete(a);
    g.expire(99);
    assert!(g.needs_reconnect());
    assert_eq!(g.reconnected(), vec![20, 30]);
    assert!(!g.needs_reconnect());
    assert_eq!(g.begin(40), Some(4));
}

#[test]
fn drain_empties_the_queue() {
    let mut g: CommandGateway<u32> = CommandGateway::new();
    g.begin(5).unwrap();
    g.begin(6).unwrap();
    assert_eq!(g.drain(), vec![5, 6]);
    assert!(g.drain().is_empty());
    assert!(!g.needs_reconnect());
}

#[test]
fn reply_outcomes() {
    assert_eq!(reply_outcome(Reply::Answered(5)), Ok(5));
    assert_eq!(reply_outcome(Reply::Refused(6)), Err((OrchestratorError::Worker, Some(6))));
    assert_eq!(reply_outcome::<u8>(Reply::Closed), Err((OrchestratorError::SessionNotFound, None)));
}
