use tailor::{EventBus, OrchestratorError, SidecarManager, WindowManager, PORT_BASE, PORT_LIMIT};

fn always_free(_: u16) -> bool {
    true
}

fn spawn(m: &mut SidecarManager, label: &str, vault: &str) -> u16 {
    let port = m.allocate_port(always_free).unwrap();
    m.register_sidecar(label.to_string(), vault.to_string(), port).unwrap();
    port
}

#[test]
fn live_ports_never_shared() {
    let mut m = SidecarManager::new();
    let a = spawn(&mut m, "a", "/w1");
    let b = spawn(&mut m, "b", "/w1");
    assert_ne!(a, b);
    assert!(m.terminate_sidecar("a").is_some());
    let c = spawn(&mut m, "c", "/w2");
    let d = spawn(&mut m, "d", "/w2");
    let mut live = Vec::new();
    for id in m.session_ids() {
        live.push(m.get_ws_port(&id).unwrap());
    }
    assert_eq!(live.len(), 3);
    assert_ne!(live[0], live[1]);
    assert_ne!(live[0], live[2]);
    assert_ne!(live[1], live[2]);
    assert!(c != b && d != b && c != d);
}

#[test]
fn spawn_then_terminate_leaves_no_trace() {
    let mut m = SidecarManager::new();
    let mut bus = EventBus::new();
    let kept = spawn(&mut m, "kept", "/w");
    bus.register_window("kept".to_string(), "/w".to_string());

    let port = spawn(&mut m, "gone", "/w");
    bus.register_window("gone".to_string(), "/w".to_string());
    let record = m.terminate_sidecar("gone").unwrap();
    bus.unregister_window("gone");

    assert_eq!(record.ws_port, port);
    assert_eq!(record.vault_path, "/w");
    assert!(!m.is_running("gone"));
    assert_eq!(m.get_ws_port("gone"), None);
    assert!(!m.is_leased(port));
    assert!(m.is_leased(kept));
    assert_eq!(m.session_ids(), vec!["kept".to_string()]);
    assert!(bus.vault_of("gone").is_none());
    assert_eq!(bus.vault_of("kept").unwrap(), "/w");
}

#[test]
fn terminate_unknown_session_is_noop() {
    let mut m = SidecarManager::new();
    let port = spawn(&mut m, "a", "/w");
    assert!(m.terminate_sidecar("missing").is_none());
    assert!(m.is_running("a"));
    assert_eq!(m.get_ws_port("a"), Some(port));
    assert!(m.is_leased(port));
    assert!(m.terminate_sidecar("a").is_some());
    assert!(m.terminate_sidecar("a").is_none());
}

#[test]
fn open_two_sessions_then_close_both() {
    let mut m = SidecarManager::new();
    let mut windows = WindowManager::new();
    let first = WindowManager::new_window_label();
    windows.track_window(first.clone(), "/vaults/demo".to_string());
    let first_port = spawn(&mut m, &first, "/vaults/demo");
    assert!(!first.is_empty());
    assert!(first_port >= 9000 && first_port < 19000);

    let second = WindowManager::new_window_label();
    windows.track_window(second.clone(), "/vaults/demo".to_string());
    let second_port = spawn(&mut m, &second, "/vaults/demo");
    assert_ne!(first, second);
    assert_ne!(first_port, second_port);
    assert!(second_port >= 9000 && second_port < 19000);

    assert!(m.terminate_sidecar(&first).is_some());
    windows.remove_window(&first);
    assert!(m.terminate_sidecar(&second).is_some());
    windows.remove_window(&second);
    assert!(!m.is_leased(first_port));
    assert!(!m.is_leased(second_port));
    assert!(windows.get_active_windows().is_empty());

    let third = m.allocate_port(|p: u16| p == first_port || p == second_port);
    assert_eq!(third, Ok(first_port));
}

#[test]
fn register_refuses_a_duplicate_session() {
    let mut m = SidecarManager::new();
    spawn(&mut m, "a", "/w");
    let port = m.allocate_port(always_free).unwrap();
    assert_eq!(
        m.register_sidecar("a".to_string(), "/other".to_string(), port),
        Err(OrchestratorError::SessionExists)
    );
    assert_eq!(m.get_vault_path("a").unwrap(), "/w");
}

#[test]
fn register_refuses_an_unleased_port() {
    let mut m = SidecarManager::new();
    assert_eq!(
        m.register_sidecar("a".to_string(), "/w".to_string(), PORT_BASE),
        Err(OrchestratorError::PortUnavailable)
    );
    assert!(!m.is_running("a"));
}

#[test]
fn register_refuses_a_port_in_use() {
    let mut m = SidecarManager::new();
    let port = spawn(&mut m, "a", "/w");
    assert!(m.port_in_use(port));
    assert_eq!(
        m.register_sidecar("b".to_string(), "/w".to_string(), port),
        Err(OrchestratorError::PortUnavailable)
    );
    assert!(!m.is_running("b"));
}

#[test]
fn abandoned_port_is_released_unless_in_use() {
    let mut m = SidecarManager::new();
    let used = spawn(&mut m, "a", "/w");
    let spare = m.allocate_port(always_free).unwrap();
    m.abandon_port(used);
    assert!(m.is_leased(used));
    m.abandon_port(spare);
    assert!(!m.is_leased(spare));
    assert!(spare < PORT_LIMIT);
}

#[test]
fn runtime_is_remembered() {
    let mut m = SidecarManager::new();
    assert!(m.cached_runtime().is_none());
    m.remember_runtime("python3".to_string());
    assert_eq!(m.cached_runtime().unwrap(), "python3");
}

#[test]
fn session_info_reports_id_workspace_and_port() {
    let mut m = SidecarManager::new();
    let port = spawn(&mut m, "a", "/vaults/demo");
    let info = m.session_info("a").unwrap();
    assert_eq!(info.window_label, "a");
    assert_eq!(info.vault_path, "/vaults/demo");
    assert_eq!(info.ws_port, port);
    assert!(m.session_info("b").is_none());
}
