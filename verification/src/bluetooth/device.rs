//! Device connection lifecycle. `AudioActive` means that the device's
//! `bluez_input.*` node exists: the real "audio is flowing" signal, not merely
//! BlueZ's "connected".
use vstd::prelude::*;

verus! {

#[derive(Debug, Clone, Copy, PartialEq, Eq, Structural)]
pub enum DeviceState {
    Disconnected,
    Discovered,
    Connecting,
    Connected,
    AudioActive,
}

impl DeviceState {
    /// The wire name of a state.
    pub open spec fn wire(self) -> Seq<char> {
        match self {
            DeviceState::Disconnected => "disconnected"@,
            DeviceState::Discovered => "discovered"@,
            DeviceState::Connecting => "connecting"@,
            DeviceState::Connected => "connected"@,
            DeviceState::AudioActive => "audio_active"@,
        }
    }

    /// Stable snake_case wire name for the web UI.
    pub fn as_str(self) -> (s: &'static str)
        ensures
            s@ == self.wire(),
    {
        match self {
            DeviceState::Disconnected => "disconnected",
            DeviceState::Discovered => "discovered",
            DeviceState::Connecting => "connecting",
            DeviceState::Connected => "connected",
            DeviceState::AudioActive => "audio_active",
        }
    }

    /// How far a state is from `Disconnected`.
    pub open spec fn step(self) -> int {
        match self {
            DeviceState::Disconnected => 0,
            DeviceState::Discovered => 1,
            DeviceState::Connecting => 2,
            DeviceState::Connected => 3,
            DeviceState::AudioActive => 4,
        }
    }

    /// Whether `next` may follow: the next step of the lifecycle; a step back from
    /// flowing audio to the bare connection; or disconnection, from anywhere else.
    pub open spec fn may_become(self, next: DeviceState) -> bool {
        ||| next == DeviceState::Disconnected && self != DeviceState::Disconnected
        ||| next.step() == self.step() + 1
        ||| self == DeviceState::AudioActive && next == DeviceState::Connected
    }

    /// Whether `next` is a valid transition from `self`. Disconnection is always
    /// allowed; otherwise only adjacent steps in the lifecycle.
    pub fn can_transition_to(self, next: DeviceState) -> (r: bool)
        ensures
            r == self.may_become(next),
    {
        match (self, next) {
            (DeviceState::Disconnected, DeviceState::Disconnected) => false,
            (_, DeviceState::Disconnected) => true,
            (DeviceState::Disconnected, DeviceState::Discovered) => true,
            (DeviceState::Discovered, DeviceState::Connecting) => true,
            (DeviceState::Connecting, DeviceState::Connected) => true,
            (DeviceState::Connected, DeviceState::AudioActive) => true,
            (DeviceState::AudioActive, DeviceState::Connected) => true,
            _ => false,
        }
    }
}

/// A device goes through its lifecycle step by step, may lose its audio and keep its
/// connection, and may disconnect from wherever it is; nothing else is possible.
pub proof fn the_lifecycle_goes_step_by_step(a: DeviceState, b: DeviceState)
    ensures
        a.may_become(b) <==> match a {
            DeviceState::Disconnected => b == DeviceState::Discovered,
            DeviceState::Discovered => b == DeviceState::Connecting || b
                == DeviceState::Disconnected,
            DeviceState::Connecting => b == DeviceState::Connected || b
                == DeviceState::Disconnected,
            DeviceState::Connected => b == DeviceState::AudioActive || b
                == DeviceState::Disconnected,
            DeviceState::AudioActive => b == DeviceState::Connected || b
                == DeviceState::Disconnected,
        },
        !a.may_become(a),
{
}

/// The states have different names.
pub proof fn states_are_told_apart(a: DeviceState, b: DeviceState)
    ensures
        a.wire() == b.wire() ==> a == b,
        a.wire() == "connected"@ <==> a == DeviceState::Connected,
        a.wire() == "audio_active"@ <==> a == DeviceState::AudioActive,
        a.wire() == "disconnected"@ <==> a == DeviceState::Disconnected,
{
    reveal_strlit("disconnected");
    reveal_strlit("discovered");
    reveal_strlit("connecting");
    reveal_strlit("connected");
    reveal_strlit("audio_active");
    assert("disconnected"@.len() == 12);
    assert("discovered"@.len() == 10);
    assert("connecting"@.len() == 10);
    assert("connected"@.len() == 9);
    assert("audio_active"@.len() == 12);
    assert("discovered"@[0] == 'd');
    assert("connecting"@[0] == 'c');
    assert("disconnected"@[0] == 'd');
    assert("audio_active"@[0] == 'a');
}

} // verus!
