use soundsync::bluetooth::device::DeviceState;
use soundsync::bluetooth::events::{apply_event, DeviceEvent};

#[test]
fn full_connect_flow_reaches_audio_active() {
    let mut s = DeviceState::Disconnected;
    for (ev, expect) in [
        (DeviceEvent::Discovered, DeviceState::Discovered),
        (DeviceEvent::Connecting, DeviceState::Connecting),
        (DeviceEvent::Connected, DeviceState::Connected),
        (DeviceEvent::AudioNodeAppeared, DeviceState::AudioActive),
    ] {
        s = apply_event(s, ev);
        assert_eq!(s, expect);
    }
}

#[test]
fn node_disappearing_drops_to_connected() {
    let s = apply_event(DeviceState::AudioActive, DeviceEvent::AudioNodeDisappeared);
    assert_eq!(s, DeviceState::Connected);
}

#[test]
fn disconnect_from_any_active_state_goes_disconnected() {
    for start in [
        DeviceState::Discovered,
        DeviceState::Connecting,
        DeviceState::Connected,
        DeviceState::AudioActive,
    ] {
        assert_eq!(
            apply_event(start, DeviceEvent::Disconnected),
            DeviceState::Disconnected
        );
    }
}

#[test]
fn illegal_transition_is_ignored_state_unchanged() {
    assert_eq!(
        apply_event(DeviceState::Discovered, DeviceEvent::AudioNodeAppeared),
        DeviceState::Discovered
    );
    assert_eq!(
        apply_event(DeviceState::Disconnected, DeviceEvent::Disconnected),
        DeviceState::Disconnected
    );
}

#[test]
fn redundant_connected_event_is_noop() {
    assert_eq!(
        apply_event(DeviceState::Connected, DeviceEvent::Connected),
        DeviceState::Connected
    );
}
