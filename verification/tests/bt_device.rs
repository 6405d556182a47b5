use soundsync::bluetooth::device::DeviceState;

#[test]
fn wire_strings_are_stable_snake_case() {
    assert_eq!(DeviceState::Disconnected.as_str(), "disconnected");
    assert_eq!(DeviceState::Discovered.as_str(), "discovered");
    assert_eq!(DeviceState::Connecting.as_str(), "connecting");
    assert_eq!(DeviceState::Connected.as_str(), "connected");
    assert_eq!(DeviceState::AudioActive.as_str(), "audio_active");
}

#[test]
fn forward_progress_transitions_allowed() {
    assert!(DeviceState::Disconnected.can_transition_to(DeviceState::Discovered));
    assert!(DeviceState::Discovered.can_transition_to(DeviceState::Connecting));
    assert!(DeviceState::Connecting.can_transition_to(DeviceState::Connected));
    assert!(DeviceState::Connected.can_transition_to(DeviceState::AudioActive));
    assert!(DeviceState::AudioActive.can_transition_to(DeviceState::Connected));
}

#[test]
fn disconnect_always_allowed() {
    for s in [
        DeviceState::Discovered,
        DeviceState::Connecting,
        DeviceState::Connected,
        DeviceState::AudioActive,
    ] {
        assert!(s.can_transition_to(DeviceState::Disconnected));
    }
}

#[test]
fn skipping_states_is_rejected() {
    assert!(!DeviceState::Discovered.can_transition_to(DeviceState::AudioActive));
    assert!(!DeviceState::Disconnected.can_transition_to(DeviceState::AudioActive));
    assert!(!DeviceState::Connected.can_transition_to(DeviceState::Connected));
}
