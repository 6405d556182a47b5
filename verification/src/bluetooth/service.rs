//! What the Bluetooth service does with commands and device snapshots.
use vstd::prelude::*;
use crate::bluetooth::device::DeviceState;
use crate::bluetooth::manager::DeviceSnapshot;
use crate::state::DeviceInfo;
use crate::text::clone_opt;

verus! {

/// How often the audio-active set is probed, in seconds.
pub const PROBE_INTERVAL_SECS: u64 = 2;

/// Advertised Bluetooth device name. Fallback default only.
pub const DEVICE_NAME: &'static str = "SoundSync";

/// Commands that can be sent to the Bluetooth service loop.
#[derive(Debug, PartialEq, Eq)]
pub enum BtCommand {
    /// Connect to a device by MAC address.
    Connect(String),
    /// Disconnect a device by MAC address.
    Disconnect(String),
    /// Remove (forget) a paired device by MAC address.
    Forget(String),
    /// Rename the Bluetooth adapter (alias + HCI name + persist).
    SetName(String),
}

/// What a command makes to be done, in order. A failure of one action does not
/// keep the next from being carried out.
#[derive(Debug, PartialEq, Eq)]
pub enum BtAction {
    Connect(String),
    Disconnect(String),
    Remove(String),
    SetAlias(String),
    SetHciName(String),
    SaveName(String),
    PublishName(String),
}

/// What a command makes to be done. A new name is persisted and published even
/// where the adapter could not be renamed.
pub open spec fn actions_of(command: BtCommand) -> Seq<BtAction> {
    match command {
        BtCommand::Connect(addr) => seq![BtAction::Connect(addr)],
        BtCommand::Disconnect(addr) => seq![BtAction::Disconnect(addr)],
        BtCommand::Forget(addr) => seq![BtAction::Remove(addr)],
        BtCommand::SetName(name) => seq![
            BtAction::SetAlias(name),
            BtAction::SetHciName(name),
            BtAction::SaveName(name),
            BtAction::PublishName(name),
        ],
    }
}

/// What a command makes to be done.
pub fn plan(command: BtCommand) -> (out: Vec<BtAction>)
    ensures
        out@ == actions_of(command),
{
    let mut out: Vec<BtAction> = Vec::new();
    let ghost c = command;
    match command {
        BtCommand::Connect(addr) => out.push(BtAction::Connect(addr)),
        BtCommand::Disconnect(addr) => out.push(BtAction::Disconnect(addr)),
        BtCommand::Forget(addr) => out.push(BtAction::Remove(addr)),
        BtCommand::SetName(name) => {
            out.push(BtAction::SetAlias(name.clone()));
            out.push(BtAction::SetHciName(name.clone()));
            out.push(BtAction::SaveName(name.clone()));
            out.push(BtAction::PublishName(name));
        },
    }
    assert(out@ =~= actions_of(c));
    out
}

/// Whether an info shows a snapshot.
pub open spec fn shows(info: DeviceInfo, snap: DeviceSnapshot) -> bool {
    &&& info.addr == snap.addr
    &&& info.name == snap.name
    &&& info.state@ == snap.state.wire()
    &&& info.icon == snap.icon
}

/// Convert manager snapshots into what the web UI shows.
pub fn device_infos_from(snaps: &[DeviceSnapshot]) -> (infos: Vec<DeviceInfo>)
    ensures
        infos@.len() == snaps@.len(),
        forall|i: int| 0 <= i < snaps@.len() ==> shows(#[trigger] infos@[i], snaps@[i]),
{
    let mut out: Vec<DeviceInfo> = Vec::new();
    let mut i: usize = 0;
    while i < snaps.len()
        invariant
            i <= snaps@.len(),
            out@.len() == i,
            forall|k: int| 0 <= k < i ==> shows(#[trigger] out@[k], snaps@[k]),
        decreases snaps@.len() - i,
    {
        let s = &snaps[i];
        out.push(
            DeviceInfo {
                addr: s.addr.clone(),
                name: clone_opt(&s.name),
                state: s.state.as_str().to_owned(),
                icon: clone_opt(&s.icon),
            },
        );
        i = i + 1;
    }
    out
}

/// A command acts on the device that it names, and on nothing else; a new name is set on
/// the adapter, saved and published, always the same one.
pub proof fn commands_act_on_what_they_name(addr: String, name: String)
    ensures
        actions_of(BtCommand::Connect(addr)) == seq![BtAction::Connect(addr)],
        actions_of(BtCommand::Disconnect(addr)) == seq![BtAction::Disconnect(addr)],
        actions_of(BtCommand::Forget(addr)) == seq![BtAction::Remove(addr)],
        actions_of(BtCommand::SetName(name)).contains(BtAction::SetAlias(name)),
        actions_of(BtCommand::SetName(name)).contains(BtAction::SetHciName(name)),
        actions_of(BtCommand::SetName(name)).contains(BtAction::SaveName(name)),
        actions_of(BtCommand::SetName(name)).last() == BtAction::PublishName(name),
        actions_of(BtCommand::SetName(name)).len() == 4,
{
    let a = actions_of(BtCommand::SetName(name));
    assert(a[0] == BtAction::SetAlias(name));
    assert(a[1] == BtAction::SetHciName(name));
    assert(a[2] == BtAction::SaveName(name));
}

/// What is shown of a device is its address, name and icon, and its state by name.
pub proof fn shown_devices_are_the_devices(info: DeviceInfo, snap: DeviceSnapshot)
    ensures
        shows(info, snap) <==> info.addr == snap.addr && info.name == snap.name && info.icon
            == snap.icon && info.state@ == (match snap.state {
            DeviceState::Disconnected => "disconnected"@,
            DeviceState::Discovered => "discovered"@,
            DeviceState::Connecting => "connecting"@,
            DeviceState::Connected => "connected"@,
            DeviceState::AudioActive => "audio_active"@,
        }),
{
}

} // verus!
