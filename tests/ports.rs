use tailor::{OrchestratorError, PortAllocator, PortStep, SidecarManager, PORT_BASE, PORT_LIMIT};

fn always_free(_: u16) -> bool {
    true
}

#[test]
fn first_port_is_the_base() {
    let mut m = SidecarManager::new();
    assert_eq!(m.allocate_port(always_free), Ok(PORT_BASE));
    assert!(m.is_leased(PORT_BASE));
}

#[test]
fn cursor_moves_on_after_each_allocation() {
    let mut m = SidecarManager::new();
    assert_eq!(m.allocate_port(always_free), Ok(9000));
    assert_eq!(m.allocate_port(always_free), Ok(9001));
    assert_eq!(m.allocate_port(always_free), Ok(9002));
}

#[test]
fn ports_the_probe_refuses_are_skipped() {
    let mut m = SidecarManager::new();
    let r = m.allocate_port(|p: u16| p >= 9003);
    assert_eq!(r, Ok(9003));
    assert!(!m.is_leased(9000));
    assert!(!m.is_leased(9002));
    assert!(m.is_leased(9003));
}

#[test]
fn exhausted_when_the_probe_refuses_everything() {
    let mut m = SidecarManager::new();
    assert_eq!(m.allocate_port(always_free), Ok(9000));
    let r = m.allocate_port(|_: u16| false);
    assert_eq!(r, Err(OrchestratorError::Exhausted));
    assert!(m.is_leased(9000));
    assert!(!m.is_leased(9001));
}

#[test]
fn leased_ports_are_never_probed() {
    let mut a = PortAllocator::new(10, 13);
    a.begin_search();
    assert!(matches!(a.next_probe(), PortStep::Probe(10)));
    assert!(a.grant(10));
    a.begin_search();
    assert!(matches!(a.next_probe(), PortStep::Probe(11)));
    assert!(a.grant(11));
    assert!(a.grant(12));
    a.begin_search();
    assert!(matches!(a.next_probe(), PortStep::Exhausted));
}

#[test]
fn cursor_wraps_back_to_the_base() {
    let mut a = PortAllocator::new(10, 13);
    a.begin_search();
    assert!(matches!(a.next_probe(), PortStep::Probe(10)));
    assert!(matches!(a.next_probe(), PortStep::Probe(11)));
    assert!(matches!(a.next_probe(), PortStep::Probe(12)));
    assert!(matches!(a.next_probe(), PortStep::Exhausted));
    a.begin_search();
    assert!(matches!(a.next_probe(), PortStep::Probe(10)));
}

#[test]
fn grant_refuses_out_of_range_and_leased_ports() {
    let mut a = PortAllocator::new(10, 13);
    assert!(!a.grant(9));
    assert!(!a.grant(13));
    assert!(a.grant(12));
    assert!(!a.grant(12));
    assert!(a.is_leased(12));
    a.release(12);
    assert!(!a.is_leased(12));
    a.release(12);
    assert!(!a.is_leased(12));
}

#[test]
fn exhausted_after_the_last_port_of_the_range() {
    let mut m = SidecarManager::new();
    let n = (PORT_LIMIT - PORT_BASE) as usize;
    let mut seen = 0usize;
    while seen < n {
        let p = m.allocate_port(always_free).unwrap();
        assert!(p >= PORT_BASE && p < PORT_LIMIT);
        seen += 1;
    }
    assert_eq!(m.allocate_port(always_free), Err(OrchestratorError::Exhausted));
    assert!(m.is_leased(PORT_LIMIT - 1));
    assert!(!m.is_leased(PORT_LIMIT));
}
