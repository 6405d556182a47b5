use soundsync::bluetooth::device::DeviceState;
use soundsync::bluetooth::manager::DeviceSnapshot;
use soundsync::bluetooth::service::{device_infos_from, plan, BtAction, BtCommand};

#[test]
fn converts_snapshots_to_wire_dtos() {
    let snaps = vec![
        DeviceSnapshot {
            addr: "AA:BB".into(),
            name: Some("Phone".into()),
            state: DeviceState::AudioActive,
            icon: Some("phone".into()),
        },
        DeviceSnapshot {
            addr: "CC:DD".into(),
            name: None,
            state: DeviceState::Connected,
            icon: None,
        },
    ];
    let infos = device_infos_from(&snaps);
    assert_eq!(infos.len(), 2);
    assert_eq!(infos[0].addr, "AA:BB");
    assert_eq!(infos[0].name.as_deref(), Some("Phone"));
    assert_eq!(infos[0].state, "audio_active");
    assert_eq!(infos[0].icon.as_deref(), Some("phone"));
    assert_eq!(infos[1].name, None);
    assert_eq!(infos[1].state, "connected");
    assert_eq!(infos[1].icon, None);
}

#[test]
fn empty_in_empty_out() {
    assert!(device_infos_from(&[]).is_empty());
}

#[test]
fn a_rename_is_persisted_and_published() {
    assert_eq!(
        plan(BtCommand::SetName("Den".to_string())),
        vec![
            BtAction::SetAlias("Den".to_string()),
            BtAction::SetHciName("Den".to_string()),
            BtAction::SaveName("Den".to_string()),
            BtAction::PublishName("Den".to_string()),
        ]
    );
    assert_eq!(
        plan(BtCommand::Forget("AA".to_string())),
        vec![BtAction::Remove("AA".to_string())]
    );
}
