use soundsync::dsp::eq::{default_bands, NUM_BANDS};
use soundsync::output::{AvailableOutputs, OutputDevice, OutputKind};
use soundsync::state::{default_eq_info, eq_info, AppState, DeviceInfo, EqInfo, MediaInfo, OutputState, SystemEvent, VERSION};

#[test]
fn snapshot_reports_version() {
    assert_eq!(AppState::default().snapshot().version, VERSION);
}

#[test]
fn set_media_updates_snapshot_and_publishes() {
    let mut s = AppState::default();
    let media = Some(MediaInfo {
        status: "paused".to_string(),
        title: None,
        artist: None,
        album: None,
        duration_ms: None,
        position_ms: None,
        artwork_url: None,
    });
    let event = s.set_media(media.clone());
    assert_eq!(s.snapshot().media, media);
    assert_eq!(event, SystemEvent::MediaState { media });
}

#[test]
fn set_bluetooth_devices_updates_snapshot_and_publishes() {
    let mut s = AppState::default();
    let devices = || {
        vec![DeviceInfo {
            addr: "x".to_string(),
            name: None,
            state: "connected".to_string(),
            icon: None,
        }]
    };
    let event = s.set_bluetooth_devices(devices());
    assert_eq!(s.snapshot().bluetooth_devices, devices());
    assert_eq!(event, SystemEvent::BluetoothDevices { devices: devices() });
}

#[test]
fn default_eq_info_shape() {
    let info = default_eq_info();
    assert!(!info.enabled);
    assert_eq!(info.bands.len(), NUM_BANDS);
    assert!(info.bands.iter().all(|b| f32::from_bits(b.gain_db) == 0.0));
}

#[test]
fn filter_type_strings_are_correct() {
    let bands = default_bands();
    let info = eq_info(false, &bands);
    assert_eq!(info.bands[0].filter_type, "low_shelf");
    assert_eq!(info.bands[1].filter_type, "peaking");
    assert_eq!(info.bands[9].filter_type, "high_shelf");
    for b in &info.bands[1..9] {
        assert_eq!(b.filter_type, "peaking");
    }
}

#[test]
fn set_device_name_updates_snapshot_and_publishes() {
    let mut s = AppState::default();
    let event = s.set_device_name("MyDevice".to_string());
    assert_eq!(s.snapshot().device_name, "MyDevice");
    assert_eq!(event, SystemEvent::DeviceNameChanged { name: "MyDevice".to_string() });
}

#[test]
fn default_device_name_is_soundsync() {
    assert_eq!(AppState::default().snapshot().device_name, "SoundSync");
}

#[test]
fn set_eq_updates_snapshot_and_publishes() {
    let mut s = AppState::default();
    let eq = || EqInfo { enabled: true, bands: default_eq_info().bands };
    let event = s.set_eq(eq());
    assert_eq!(s.snapshot().eq, eq());
    assert_eq!(event, SystemEvent::EqChanged { eq: eq() });
}

#[test]
fn output_state_default_is_empty() {
    let s = OutputState::default();
    assert!(s.active.is_none());
    assert!(s.available.soundcard.is_empty());
    assert!(s.available.airplay.is_empty());
    assert!(s.available.chromecast.is_empty());
}

#[test]
fn set_output_updates_snapshot_and_publishes() {
    let mut s = AppState::default();
    let device = OutputDevice {
        kind: OutputKind::Soundcard,
        id: "alsa_output.test".to_string(),
        name: "Test Speaker".to_string(),
        addr: None,
        port: None,
    };
    let output = OutputState {
        active: Some(device),
        available: AvailableOutputs::default(),
        cast_health: None,
    };
    let event = s.set_output(output.clone());
    assert_eq!(s.snapshot().output, output);
    assert_eq!(event, SystemEvent::OutputState { output });
}

#[test]
fn default_snapshot_has_no_active_output() {
    assert!(AppState::default().snapshot().output.active.is_none());
}
