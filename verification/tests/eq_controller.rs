use soundsync::audio::eq_controller::{clamp_eq_gain, gains_to_bands, EqAction, EqCommand, EqController, EqEvent};
use soundsync::daemon::{EQ_SINK_NAME, NULL_SINK_NAME};
use soundsync::dsp::eq::{MAX_GAIN_DB, MIN_GAIN_DB, NUM_BANDS};

fn bits(x: f32) -> u32 {
    x.to_bits()
}

#[test]
fn gains_to_bands_maps_correctly() {
    let mut gains = [bits(0.0); NUM_BANDS];
    gains[0] = bits(6.0);
    gains[9] = bits(-3.0);
    let bands = gains_to_bands(&gains);
    assert_eq!(bands.len(), NUM_BANDS);
    assert_eq!(f32::from_bits(bands[0].gain_db), 6.0);
    assert_eq!(f32::from_bits(bands[9].gain_db), -3.0);
    assert_eq!(bands[0].freq as f32, 60.0);
    assert_eq!(bands[9].freq as f32, 16000.0);
}

#[test]
fn clamp_eq_gain_bounds() {
    assert_eq!(clamp_eq_gain(bits(20.0)), MAX_GAIN_DB);
    assert_eq!(clamp_eq_gain(bits(-20.0)), MIN_GAIN_DB);
    assert_eq!(clamp_eq_gain(bits(6.0)), bits(6.0));
}

#[test]
fn update_gains_clamping_logic() {
    let mut c = EqController::new();
    let new_gains = [bits(20.0); NUM_BANDS];
    let actions = c.on_event(EqEvent::Command(EqCommand::UpdateGains(new_gains)));
    match actions[0] {
        EqAction::Publish { enabled, bands } => {
            assert!(!enabled);
            assert!(bands.iter().all(|b| b.gain_db == MAX_GAIN_DB));
        }
        other => panic!("unexpected action: {other:?}"),
    }
}

#[test]
fn enable_disable_ordering_decision() {
    assert_eq!(EQ_SINK_NAME, "effect_input.soundsync-eq");
    assert_eq!(NULL_SINK_NAME, "soundsync-capture");
    let mut c = EqController::new();
    let _ = c.on_event(EqEvent::Command(EqCommand::SetEnabled(true)));
    let _ = c.on_event(EqEvent::Awaited(Some(7)));
    let actions = c.on_event(EqEvent::Command(EqCommand::SetEnabled(false)));
    assert_eq!(actions[0].route(), Some(NULL_SINK_NAME));
    assert!(matches!(actions[1], EqAction::StopFilterChain));
    assert!(!c.running());
}

#[test]
fn update_gains_updates_state_when_not_running() {
    let mut c = EqController::new();
    let mut new_gains = [bits(0.0); NUM_BANDS];
    new_gains[4] = bits(6.0);
    let actions = c.on_event(EqEvent::Command(EqCommand::UpdateGains(new_gains)));
    assert_eq!(actions.len(), 1);
    match actions[0] {
        EqAction::Publish { enabled, bands } => {
            assert!(!enabled);
            assert_eq!(f32::from_bits(bands[4].gain_db), 6.0);
        }
        other => panic!("unexpected action: {other:?}"),
    }
}

#[test]
fn enabling_waits_for_the_node_before_routing() {
    let mut c = EqController::new();
    let first = c.on_event(EqEvent::Command(EqCommand::SetEnabled(true)));
    assert!(matches!(first[0], EqAction::StartFilterChain(_)));
    assert!(matches!(first[1], EqAction::AwaitNode));
    assert_eq!(first.len(), 2);
    assert!(c.on_event(EqEvent::Command(EqCommand::SetEnabled(true))).is_empty());
    let then = c.on_event(EqEvent::Awaited(Some(42)));
    assert_eq!(then[0].route(), Some(EQ_SINK_NAME));
    assert!(matches!(then[1], EqAction::SetGains { node_id: 42, .. }));
    assert!(matches!(then[2], EqAction::Publish { enabled: true, .. }));
}

#[test]
fn a_node_that_never_appears_switches_the_equaliser_off() {
    let mut c = EqController::new();
    let _ = c.on_event(EqEvent::Command(EqCommand::SetEnabled(true)));
    let then = c.on_event(EqEvent::Awaited(None));
    assert!(matches!(then[0], EqAction::StopFilterChain));
    assert_eq!(then[1].route(), Some(NULL_SINK_NAME));
    assert!(matches!(then[2], EqAction::Publish { enabled: false, .. }));
    assert!(!c.running());
}

#[test]
fn gains_of_a_running_equaliser_go_to_the_node_that_is_found() {
    let mut c = EqController::new();
    let _ = c.on_event(EqEvent::Command(EqCommand::SetEnabled(true)));
    let _ = c.on_event(EqEvent::Awaited(Some(1)));
    let gains = [bits(3.0); NUM_BANDS];
    let asked = c.on_event(EqEvent::Command(EqCommand::UpdateGains(gains)));
    assert_eq!(asked, vec![EqAction::ProbeNode]);
    let done = c.on_event(EqEvent::Probed(Some(2)));
    assert_eq!(done[0], EqAction::SetGains { node_id: 2, gains });
    assert_eq!(c.on_event(EqEvent::Probed(None)).len(), 1);
}
