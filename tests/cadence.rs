use radvisor::cadence::{Cadence, CadenceAction, CadenceEvent, ContainerMetadata};

fn container(id: &str) -> ContainerMetadata {
    ContainerMetadata { id: id.to_string(), info: format!("# ID: {}\n", id) }
}

#[test]
fn ticks_send_snapshots_in_order() {
    let mut c = Cadence::new();
    assert!(c.is_running());
    match c.step(CadenceEvent::Tick(Some(vec![container("a"), container("b")]))) {
        CadenceAction::Send(s) => {
            assert_eq!(s.len(), 2);
            assert_eq!(s[0].id, "a");
            assert_eq!(s[1].id, "b");
        }
        _ => panic!("expected a send"),
    }
}

#[test]
fn discovery_failure_sends_empty_snapshot() {
    let mut c = Cadence::new();
    match c.step(CadenceEvent::Tick(None)) {
        CadenceAction::Send(s) => assert!(s.is_empty()),
        _ => panic!("expected a send"),
    }
    assert!(c.is_running());
}

#[test]
fn termination_skips_later_sends() {
    let mut c = Cadence::new();
    assert!(matches!(c.step(CadenceEvent::Terminated), CadenceAction::Skip));
    assert!(!c.is_running());
    assert!(matches!(c.step(CadenceEvent::Tick(Some(vec![container("a")]))), CadenceAction::Skip));
}

#[test]
fn failed_send_exits() {
    let mut c = Cadence::new();
    assert!(matches!(c.step(CadenceEvent::SendFailed), CadenceAction::Exit));
    assert!(!c.is_running());
    assert!(matches!(c.step(CadenceEvent::Tick(None)), CadenceAction::Exit));
}
