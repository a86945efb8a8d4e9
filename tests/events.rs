use tailor::{EventBus, EventScope};

fn sorted(mut v: Vec<String>) -> Vec<String> {
    v.sort();
    v
}

fn three_sessions() -> EventBus {
    let mut bus = EventBus::new();
    bus.register_window("A".to_string(), "W1".to_string());
    bus.register_window("B".to_string(), "W1".to_string());
    bus.register_window("C".to_string(), "W2".to_string());
    bus
}

#[test]
fn workspace_scoped_event_reaches_its_workspace_only() {
    let bus = three_sessions();
    let r = bus.recipients("A", &EventScope::Vault("W1".to_string()));
    assert_eq!(sorted(r), vec!["A".to_string(), "B".to_string()]);
}

#[test]
fn global_event_reaches_every_session() {
    let bus = three_sessions();
    let r = bus.recipients("A", &EventScope::Global);
    assert_eq!(sorted(r), vec!["A".to_string(), "B".to_string(), "C".to_string()]);
}

#[test]
fn session_local_event_reaches_its_origin_only() {
    let bus = three_sessions();
    assert_eq!(bus.recipients("A", &EventScope::Window), vec!["A".to_string()]);
}

#[test]
fn workspace_scoped_event_reaches_other_sessions_too() {
    let bus = three_sessions();
    let r = bus.recipients("C", &EventScope::Vault("W1".to_string()));
    assert_eq!(sorted(r), vec!["A".to_string(), "B".to_string()]);
}

#[test]
fn no_registered_sessions_means_no_recipients() {
    let bus = EventBus::new();
    assert!(bus.recipients("A", &EventScope::Global).is_empty());
    assert!(bus.recipients("A", &EventScope::Vault("W1".to_string())).is_empty());
}

#[test]
fn unknown_workspace_has_no_recipients() {
    let bus = three_sessions();
    assert!(bus.recipients("A", &EventScope::Vault("W3".to_string())).is_empty());
}

#[test]
fn unregistered_session_no_longer_receives() {
    let mut bus = three_sessions();
    bus.unregister_window("B");
    bus.unregister_window("missing");
    let r = bus.recipients("A", &EventScope::Vault("W1".to_string()));
    assert_eq!(r, vec!["A".to_string()]);
    assert!(bus.vault_of("B").is_none());
}

#[test]
fn registering_again_moves_a_session() {
    let mut bus = three_sessions();
    bus.register_window("C".to_string(), "W1".to_string());
    let r = bus.recipients("A", &EventScope::Vault("W1".to_string()));
    assert_eq!(sorted(r), vec!["A".to_string(), "B".to_string(), "C".to_string()]);
    assert_eq!(bus.recipients("A", &EventScope::Global).len(), 3);
}
