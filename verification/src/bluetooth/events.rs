//! Device lifecycle events and the transitions that they cause. An event that does
//! not fit the current state is dropped.
use vstd::prelude::*;
use crate::bluetooth::device::DeviceState;

verus! {

/// An observed Bluetooth device lifecycle event.
#[derive(Debug, Clone, Copy, PartialEq, Eq, Structural)]
pub enum DeviceEvent {
    /// Device showed up in discovery.
    Discovered,
    /// A connection attempt began.
    Connecting,
    /// BlueZ reports the device connected (transport not necessarily up).
    Connected,
    /// The `bluez_input.*` node appeared: audio is flowing.
    AudioNodeAppeared,
    /// The `bluez_input.*` node went away (still connected, but no audio).
    AudioNodeDisappeared,
    /// Device disconnected (or removed).
    Disconnected,
}

impl DeviceEvent {
    /// The state that an event drives toward. A vanished node leaves the device
    /// connected.
    pub open spec fn goal(self) -> DeviceState {
        match self {
            DeviceEvent::Discovered => DeviceState::Discovered,
            DeviceEvent::Connecting => DeviceState::Connecting,
            DeviceEvent::Connected => DeviceState::Connected,
            DeviceEvent::AudioNodeAppeared => DeviceState::AudioActive,
            DeviceEvent::AudioNodeDisappeared => DeviceState::Connected,
            DeviceEvent::Disconnected => DeviceState::Disconnected,
        }
    }

    /// The state this event drives toward.
    pub fn target(self) -> (s: DeviceState)
        ensures
            s == self.goal(),
    {
        match self {
            DeviceEvent::Discovered => DeviceState::Discovered,
            DeviceEvent::Connecting => DeviceState::Connecting,
            DeviceEvent::Connected => DeviceState::Connected,
            DeviceEvent::AudioNodeAppeared => DeviceState::AudioActive,
            DeviceEvent::AudioNodeDisappeared => DeviceState::Connected,
            DeviceEvent::Disconnected => DeviceState::Disconnected,
        }
    }
}

/// The state after an event: its goal where the transition is valid, else the
/// state as it was.
pub open spec fn applied(state: DeviceState, event: DeviceEvent) -> DeviceState {
    if state.may_become(event.goal()) {
        event.goal()
    } else {
        state
    }
}

/// Apply `event` to `state`. Valid transitions advance the state; invalid or stale
/// events leave it unchanged. Disconnection is always honoured.
pub fn apply_event(state: DeviceState, event: DeviceEvent) -> (next: DeviceState)
    ensures
        next == applied(state, event),
{
    let target = event.target();
    if target == state || state.can_transition_to(target) {
        target
    } else {
        state
    }
}

/// An event never takes a device through a transition that is not valid.
pub proof fn only_valid_transitions(state: DeviceState, event: DeviceEvent)
    ensures
        applied(state, event) == state || state.may_become(applied(state, event)),
{
}

/// A disconnection is honoured in every state.
pub proof fn disconnection_is_always_honoured(state: DeviceState)
    ensures
        applied(state, DeviceEvent::Disconnected) == DeviceState::Disconnected,
{
}

/// Audio becomes active only on a connected device, and only by its node
/// appearing.
pub proof fn audio_needs_a_connection(state: DeviceState, event: DeviceEvent)
    requires
        applied(state, event) == DeviceState::AudioActive,
        state != DeviceState::AudioActive,
    ensures
        state == DeviceState::Connected,
        event == DeviceEvent::AudioNodeAppeared,
{
}

/// A vanished node takes a device with flowing audio back to the bare connection;
/// it leaves every other state as it is, but for an attempt to connect.
pub proof fn a_vanished_node_leaves_the_connection(state: DeviceState)
    ensures
        state == DeviceState::AudioActive ==> applied(state, DeviceEvent::AudioNodeDisappeared)
            == DeviceState::Connected,
        state != DeviceState::AudioActive && state != DeviceState::Connecting ==> applied(
            state,
            DeviceEvent::AudioNodeDisappeared,
        ) == state,
{
}

/// A repeated event changes nothing.
pub proof fn repeated_events_change_nothing(state: DeviceState, event: DeviceEvent)
    ensures
        applied(applied(state, event), event) == applied(state, event),
{
}

/// An event takes a device to the state that it reports where that is the next step, where
/// it is a disconnection, or where audio stops on a device that stays connected; any other
/// event is dropped.
pub proof fn events_report_the_state(state: DeviceState, event: DeviceEvent)
    ensures
        state == DeviceState::Disconnected && event == DeviceEvent::Discovered ==> applied(
            state,
            event,
        ) == DeviceState::Discovered,
        state == DeviceState::Discovered && event == DeviceEvent::Connecting ==> applied(state, event)
            == DeviceState::Connecting,
        state == DeviceState::Connecting && event == DeviceEvent::Connected ==> applied(state, event)
            == DeviceState::Connected,
        state == DeviceState::Connected && event == DeviceEvent::AudioNodeAppeared ==> applied(
            state,
            event,
        ) == DeviceState::AudioActive,
        state == DeviceState::AudioActive && event == DeviceEvent::Connected ==> applied(state, event)
            == DeviceState::Connected,
        event == DeviceEvent::Discovered && state != DeviceState::Disconnected ==> applied(
            state,
            event,
        ) == state,
        event == DeviceEvent::Connecting && state != DeviceState::Discovered ==> applied(
            state,
            event,
        ) == state,
        event == DeviceEvent::Connected && (state == DeviceState::Disconnected || state
            == DeviceState::Discovered) ==> applied(state, event) == state,
        event == DeviceEvent::AudioNodeAppeared && state != DeviceState::Connected ==> applied(
            state,
            event,
        ) == state,
{
}

} // verus!
