use soundsync::bluetooth::device::DeviceState;
use soundsync::bluetooth::devices::BluezEvent;
use soundsync::bluetooth::manager::BtManager;
use soundsync::sys::command::CommandOutput;
use soundsync::sys::testing::FakeCommandRunner;

fn added(addr: &str) -> BluezEvent {
    BluezEvent::DeviceAdded {
        addr: addr.to_string(),
        name: Some("Phone".to_string()),
        icon: Some("phone".to_string()),
    }
}

#[test]
fn discovered_device_is_tracked_not_connected() {
    let mut m = BtManager::new();
    m.on_event(&added("AA:BB:CC:DD:EE:FF"));
    assert_eq!(
        m.state_of("AA:BB:CC:DD:EE:FF"),
        Some(DeviceState::Discovered)
    );
}

#[test]
fn connected_event_sets_connected_even_without_discovery() {
    let mut m = BtManager::new();
    m.on_event(&BluezEvent::Connected {
        addr: "11:22:33:44:55:66".to_string(),
    });
    assert_eq!(
        m.state_of("11:22:33:44:55:66"),
        Some(DeviceState::Connected)
    );
}

#[test]
fn disconnect_sets_disconnected_and_remove_drops_device() {
    let mut m = BtManager::new();
    m.on_event(&BluezEvent::Connected { addr: "x".into() });
    m.on_event(&BluezEvent::Disconnected { addr: "x".into() });
    assert_eq!(m.state_of("x"), Some(DeviceState::Disconnected));
    m.on_event(&BluezEvent::DeviceRemoved { addr: "x".into() });
    assert_eq!(m.state_of("x"), None);
}

#[test]
fn reconcile_audio_drives_connected_to_audio_active_and_back() {
    let mut m = BtManager::new();
    m.on_event(&BluezEvent::Connected {
        addr: "AA:BB:CC:DD:EE:FF".into(),
    });
    let mut active = Vec::new();
    active.push("AA:BB:CC:DD:EE:FF".to_string());
    m.reconcile_audio(&active);
    assert_eq!(
        m.state_of("AA:BB:CC:DD:EE:FF"),
        Some(DeviceState::AudioActive)
    );
    m.reconcile_audio(&Vec::new());
    assert_eq!(
        m.state_of("AA:BB:CC:DD:EE:FF"),
        Some(DeviceState::Connected)
    );
}

#[test]
fn reconcile_audio_does_not_activate_discovered_device() {
    let mut m = BtManager::new();
    m.on_event(&added("c"));
    let mut active = Vec::new();
    active.push("c".to_string());
    m.reconcile_audio(&active);
    assert_eq!(m.state_of("c"), Some(DeviceState::Discovered));
}

#[test]
fn snapshot_is_sorted_and_carries_name() {
    let mut m = BtManager::new();
    m.on_event(&added("BB:..."));
    m.on_event(&added("AA:..."));
    let snap = m.snapshot();
    assert_eq!(snap.len(), 2);
    assert_eq!(snap[0].addr, "AA:...");
    assert_eq!(snap[0].name.as_deref(), Some("Phone"));
}

fn pactl_with(node_line: &str) -> FakeCommandRunner {
    FakeCommandRunner::new().on(
        "pactl",
        &["list", "short", "sources"],
        CommandOutput {
            status: 0,
            stdout: node_line.to_string(),
            stderr: String::new(),
        },
    )
}

#[test]
fn discovered_device_published_without_connecting() {
    let mut m = BtManager::new();
    let mut runner = pactl_with("");
    m.on_event(&added("AA:BB:CC:DD:EE:FF"));
    m.probe(&mut runner).unwrap();
    let snap = m.snapshot();
    assert_eq!(snap.len(), 1);
    assert_eq!(snap[0].state, DeviceState::Discovered);
}

#[test]
fn probe_tick_marks_connected_device_audio_active() {
    let mut m = BtManager::new();
    let mut runner =
        pactl_with("9\tbluez_input.AA_BB_CC_DD_EE_FF.a2dp-source\tPipeWire\ts16le\tRUNNING");
    m.on_event(&BluezEvent::Connected { addr: "AA:BB:CC:DD:EE:FF".into() });
    m.probe(&mut runner).unwrap();
    assert_eq!(m.state_of("AA:BB:CC:DD:EE:FF"), Some(DeviceState::AudioActive));
}

#[test]
fn a_failed_probe_changes_nothing() {
    let mut m = BtManager::new();
    m.on_event(&BluezEvent::Connected { addr: "x".into() });
    assert!(m.probe(&mut FakeCommandRunner::new()).is_err());
    assert_eq!(m.state_of("x"), Some(DeviceState::Connected));
}

#[test]
fn a_later_announcement_without_a_name_keeps_the_name() {
    let mut m = BtManager::new();
    m.on_event(&added("AA"));
    m.on_event(&BluezEvent::DeviceAdded { addr: "AA".into(), name: None, icon: None });
    let snap = m.snapshot();
    assert_eq!(snap[0].name.as_deref(), Some("Phone"));
    assert_eq!(snap[0].icon.as_deref(), Some("phone"));
}

#[test]
fn no_device_is_ever_shown_as_connecting() {
    let mut m = BtManager::new();
    let addr = || "AA:BB:CC:DD:EE:FF".to_string();
    let events = [
        added("AA:BB:CC:DD:EE:FF"),
        BluezEvent::Connected { addr: addr() },
        added("AA:BB:CC:DD:EE:FF"),
        BluezEvent::Disconnected { addr: addr() },
        BluezEvent::Connected { addr: addr() },
    ];
    for ev in &events {
        m.on_event(ev);
        assert!(m.snapshot().iter().all(|d| d.state != DeviceState::Connecting));
        m.reconcile_audio(&vec![addr()]);
        m.reconcile_audio(&vec![]);
        assert_ne!(m.state_of("AA:BB:CC:DD:EE:FF"), Some(DeviceState::Connecting));
    }
}
