use tailor::WindowManager;

#[test]
fn window_labels_are_prefixed_uuids() {
    let label = WindowManager::new_window_label();
    assert_eq!(label.len(), 42);
    assert!(label.starts_with("vault_"));
    let id: Vec<char> = label[6..].chars().collect();
    for (i, c) in id.iter().enumerate() {
        if i == 8 || i == 13 || i == 18 || i == 23 {
            assert_eq!(*c, '-');
        } else {
            assert!(c.is_ascii_hexdigit() && !c.is_ascii_uppercase());
        }
    }
    assert_ne!(label, WindowManager::new_window_label());
}

#[test]
fn vault_name_is_the_last_component() {
    assert_eq!(WindowManager::extract_vault_name("/vaults/demo"), "demo");
    assert_eq!(WindowManager::extract_vault_name("/vaults/demo/"), "demo");
    assert_eq!(WindowManager::extract_vault_name("notes"), "notes");
}

#[test]
fn vault_name_falls_back_without_a_component() {
    assert_eq!(WindowManager::extract_vault_name("/"), "Vault");
    assert_eq!(WindowManager::extract_vault_name(""), "Vault");
    assert_eq!(WindowManager::extract_vault_name("/vaults/.."), "Vault");
}

#[test]
fn window_title_names_the_vault() {
    assert_eq!(WindowManager::window_title("/vaults/demo"), "Tailor - demo");
}

#[test]
fn windows_are_tracked_and_removed() {
    let mut w = WindowManager::new();
    w.track_window("one".to_string(), "/a".to_string());
    w.track_window("two".to_string(), "/b".to_string());
    assert_eq!(w.get_vault_path("one").unwrap(), "/a");
    let mut active = w.get_active_windows();
    active.sort();
    assert_eq!(active, vec!["one".to_string(), "two".to_string()]);
    w.remove_window("one");
    w.remove_window("missing");
    assert!(w.get_vault_path("one").is_none());
    assert_eq!(w.get_active_windows(), vec!["two".to_string()]);
}

#[test]
fn tracking_a_label_again_replaces_its_vault() {
    let mut w = WindowManager::new();
    w.track_window("one".to_string(), "/a".to_string());
    w.track_window("one".to_string(), "/b".to_string());
    assert_eq!(w.get_vault_path("one").unwrap(), "/b");
    assert_eq!(w.get_active_windows().len(), 1);
}
