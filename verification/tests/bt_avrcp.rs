use soundsync::bluetooth::avrcp::{sanitize_duration_ms, sanitize_text, DbusHealth, PlaybackStatus, TransportCommand, DBUS_FAILURE_THRESHOLD};

#[test]
fn playback_status_wire_strings() {
    assert_eq!(PlaybackStatus::Stopped.as_str(), "stopped");
    assert_eq!(PlaybackStatus::Playing.as_str(), "playing");
    assert_eq!(PlaybackStatus::Paused.as_str(), "paused");
}

#[test]
fn playback_status_from_bluez() {
    assert_eq!(
        PlaybackStatus::from_bluez("playing"),
        PlaybackStatus::Playing
    );
    assert_eq!(PlaybackStatus::from_bluez("paused"), PlaybackStatus::Paused);
    assert_eq!(
        PlaybackStatus::from_bluez("stopped"),
        PlaybackStatus::Stopped
    );
    assert_eq!(
        PlaybackStatus::from_bluez("forward-seek"),
        PlaybackStatus::Stopped
    );
    assert_eq!(PlaybackStatus::from_bluez("error"), PlaybackStatus::Stopped);
}

#[test]
fn transport_command_bluez_method_names() {
    assert_eq!(TransportCommand::Play.bluez_method(), "Play");
    assert_eq!(TransportCommand::Pause.bluez_method(), "Pause");
    assert_eq!(TransportCommand::Next.bluez_method(), "Next");
    assert_eq!(TransportCommand::Previous.bluez_method(), "Previous");
    assert_eq!(TransportCommand::Stop.bluez_method(), "Stop");
}

#[test]
fn transport_command_from_action() {
    assert_eq!(
        TransportCommand::from_action("play"),
        Some(TransportCommand::Play)
    );
    assert_eq!(
        TransportCommand::from_action("pause"),
        Some(TransportCommand::Pause)
    );
    assert_eq!(
        TransportCommand::from_action("next"),
        Some(TransportCommand::Next)
    );
    assert_eq!(
        TransportCommand::from_action("previous"),
        Some(TransportCommand::Previous)
    );
    assert_eq!(
        TransportCommand::from_action("stop"),
        Some(TransportCommand::Stop)
    );
    assert_eq!(TransportCommand::from_action("eject"), None);
}

#[test]
fn dbus_health_resets_on_success() {
    let mut h = DbusHealth::new();
    assert!(!h.record_failure());
    assert!(!h.record_failure());
    assert_eq!(h.failures(), 2);
    h.record_success();
    assert_eq!(h.failures(), 0);
}

#[test]
fn duration_sentinels_map_to_none() {
    assert_eq!(sanitize_duration_ms(0), None);
    assert_eq!(sanitize_duration_ms(u32::MAX), None);
    assert_eq!(sanitize_duration_ms(210_000), Some(210_000));
}

#[test]
fn blank_text_maps_to_none() {
    assert_eq!(sanitize_text(String::new()), None);
    assert_eq!(sanitize_text("   ".to_string()), None);
    assert_eq!(sanitize_text("Song".to_string()), Some("Song".to_string()));
}

#[test]
fn dbus_health_fires_at_threshold_and_resets() {
    let mut h = DbusHealth::new();
    for _ in 0..(DBUS_FAILURE_THRESHOLD - 1) {
        assert!(!h.record_failure());
    }
    assert!(h.record_failure());
    assert_eq!(h.failures(), 0);
}
