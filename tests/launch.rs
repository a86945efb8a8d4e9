use tailor::{runtime_candidates, worker_args, DependencyChecker, InstallPlan, LabelTable};

#[test]
fn worker_arguments() {
    let args = worker_args("/app/sidecar/main.py", "/vaults/demo", 9000);
    assert_eq!(
        args,
        vec!["-u", "/app/sidecar/main.py", "--workspace", "/vaults/demo", "--port", "9000"]
    );
}

#[test]
fn worker_port_is_written_in_decimal() {
    assert_eq!(worker_args("s", "w", 18999)[5], "18999");
    assert_eq!(worker_args("s", "w", 7)[5], "7");
}

#[test]
fn runtime_candidates_per_platform() {
    assert_eq!(runtime_candidates(false), vec!["python3", "python"]);
    assert_eq!(runtime_candidates(true), vec!["python.exe", "python3.exe"]);
}

#[test]
fn install_plan_decisions() {
    assert_eq!(DependencyChecker::install_plan(false, false), InstallPlan::NoPlugins);
    assert_eq!(DependencyChecker::install_plan(false, true), InstallPlan::NoPlugins);
    assert_eq!(DependencyChecker::install_plan(true, false), InstallPlan::NoRequirements);
    assert_eq!(DependencyChecker::install_plan(true, true), InstallPlan::Install);
}

#[test]
fn needs_update_decisions() {
    assert!(!DependencyChecker::needs_update(false, false));
    assert!(!DependencyChecker::needs_update(false, true));
    assert!(DependencyChecker::needs_update(true, false));
    assert!(!DependencyChecker::needs_update(true, true));
}

#[test]
fn installer_arguments_and_candidates() {
    assert_eq!(
        DependencyChecker::install_args("/v/lib", "/v/plugins/requirements.txt"),
        vec!["install", "-t", "/v/lib", "-r", "/v/plugins/requirements.txt", "--upgrade"]
    );
    assert_eq!(DependencyChecker::installer_candidates(false), vec!["pip3", "pip"]);
    assert_eq!(DependencyChecker::installer_candidates(true), vec!["pip.exe", "pip3.exe"]);
}

#[test]
fn label_table_keeps_keys_unique() {
    let mut t: LabelTable<u32> = LabelTable::new();
    assert_eq!(t.insert("a".to_string(), 1), None);
    assert_eq!(t.insert("b".to_string(), 2), None);
    assert_eq!(t.insert("a".to_string(), 3), Some(1));
    assert_eq!(t.len(), 2);
    assert_eq!(t.get("a"), Some(&3));
    assert_eq!(t.keys(), vec!["a".to_string(), "b".to_string()]);
    assert_eq!(t.remove("a"), Some(3));
    assert_eq!(t.remove("a"), None);
    assert!(!t.contains_key("a"));
    assert_eq!(t.position("b"), Some(0));
}

#[test]
fn first_answering_candidate_is_chosen() {
    let candidates = runtime_candidates(false);
    let found = tailor::find_executable(&candidates, |c: &String| c == "python");
    assert_eq!(found, Some("python".to_string()));
    let first = tailor::find_executable(&candidates, |_: &String| true);
    assert_eq!(first, Some("python3".to_string()));
}

#[test]
fn no_answering_candidate_gives_none() {
    let candidates = runtime_candidates(true);
    assert_eq!(tailor::find_executable(&candidates, |_: &String| false), None);
    assert_eq!(tailor::find_executable(&Vec::new(), |_: &String| true), None);
}
