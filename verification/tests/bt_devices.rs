use soundsync::bluetooth::devices::{connection_changed, events_of, BluezEvent, DeviceFacts, Watched, Watching};

fn facts(addr: &str, paired: bool, connected: bool) -> DeviceFacts {
    DeviceFacts {
        addr: addr.to_string(),
        paired,
        connected,
        name: Some("Phone".to_string()),
        icon: None,
    }
}

#[test]
fn only_paired_or_connected_devices_are_announced() {
    assert!(events_of(&facts("a", false, false)).is_empty());
    assert_eq!(events_of(&facts("a", true, false)).len(), 1);
    assert_eq!(
        events_of(&facts("a", false, true))[1],
        BluezEvent::Connected { addr: "a".to_string() }
    );
}

#[test]
fn event_added_carries_optional_name() {
    match &events_of(&facts("1", true, false))[0] {
        BluezEvent::DeviceAdded { name, .. } => assert_eq!(name.as_deref(), Some("Phone")),
        other => panic!("unexpected event: {other:?}"),
    }
}

#[test]
fn each_device_is_watched_once() {
    let mut w = Watched::new();
    assert!(!w.seeded(&facts("a", false, false)).0);
    assert!(w.seeded(&facts("b", true, false)).0);
    assert!(w.added(&facts("a", false, false)).0);
    assert!(!w.added(&facts("a", false, false)).0);
    assert!(!w.added(&facts("b", false, true)).0);
}

#[test]
fn a_connection_announces_the_device_again() {
    let addr = "a".to_string();
    assert_eq!(connection_changed(&addr, true, None, None).len(), 2);
    assert_eq!(
        connection_changed(&addr, false, None, None),
        vec![BluezEvent::Disconnected { addr: "a".to_string() }]
    );
}

#[test]
fn a_second_start_or_stop_changes_nothing() {
    let mut w = Watching::new();
    assert!(!w.stop());
    assert!(w.start());
    assert!(!w.start());
    assert!(w.stop());
    assert!(!w.stop());
    assert!(w.start());
}
