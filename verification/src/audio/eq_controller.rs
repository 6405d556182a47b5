//! The equaliser's controller: when the filter-chain runs, where audio is routed, and
//! which gains are set on it.
//!
//! Enabling starts the filter-chain, waits for its node, routes to it and sets the
//! gains. Disabling routes back to the null sink first, so that audio always has
//! somewhere to go, and then stops the filter-chain. A change of gains goes to the
//! running node, without a restart and without a change of route.
use vstd::prelude::*;
use crate::daemon::{EQ_SINK_NAME, NULL_SINK_NAME};
use crate::dsp::eq::{bands_with, clamp_bits, clamped, default_bands, flat_gains, EqBand};

verus! {

/// How long to wait for the node of a filter-chain that was started.
pub const NODE_TIMEOUT_MS: u64 = 2000;

/// Commands that the equaliser's controller accepts. Gains are bit patterns.
#[derive(Debug, Clone, Copy, PartialEq, Eq)]
pub enum EqCommand {
    /// Update all band gains (clamped here).
    UpdateGains([u32; 10]),
    /// Enable or disable the equaliser (start or stop the filter-chain).
    SetEnabled(bool),
}

/// What the controller is told.
#[derive(Debug, Clone, Copy, PartialEq, Eq)]
pub enum EqEvent {
    Command(EqCommand),
    /// The wait for the node is over: its id, or none in time.
    Awaited(Option<u32>),
    /// A look for the node gave this.
    Probed(Option<u32>),
}

/// What is to be done, in this order.
#[derive(Debug, Clone, Copy, PartialEq, Eq)]
pub enum EqAction {
    /// Start the filter-chain with these bands.
    StartFilterChain([EqBand; 10]),
    /// Stop the filter-chain, and wait until it has stopped.
    StopFilterChain,
    /// Wait up to [`NODE_TIMEOUT_MS`] for the node, and report it.
    AwaitNode,
    /// Look once for the node, and report it.
    ProbeNode,
    /// Make the equaliser's sink the desired default sink.
    RouteToEq,
    /// Make the null sink the desired default sink.
    RouteToNullSink,
    /// Set these gains on the node.
    SetGains { node_id: u32, gains: [u32; 10] },
    /// Tell the state of the equaliser.
    Publish { enabled: bool, bands: [EqBand; 10] },
}

/// The sink that an action routes to.
pub open spec fn route_of(a: EqAction) -> Option<Seq<char>> {
    match a {
        EqAction::RouteToEq => Some(EQ_SINK_NAME@),
        EqAction::RouteToNullSink => Some(NULL_SINK_NAME@),
        _ => None,
    }
}

impl EqAction {
    /// The sink that the action routes to.
    pub fn route(&self) -> (sink: Option<&'static str>)
        ensures
            crate::text::opt_str_view(sink) == route_of(*self),
    {
        match self {
            EqAction::RouteToEq => Some(EQ_SINK_NAME),
            EqAction::RouteToNullSink => Some(NULL_SINK_NAME),
            _ => None,
        }
    }
}

/// Clamp a single gain to the range of the equaliser.
pub fn clamp_eq_gain(g: u32) -> (r: u32)
    ensures
        r == clamped(g),
{
    clamp_bits(g)
}

/// The default bands with these gains.
pub fn gains_to_bands(gains: &[u32; 10]) -> (bands: [EqBand; 10])
    ensures
        bands@ == bands_with(gains@),
{
    let mut bands = default_bands();
    let mut i: usize = 0;
    while i < 10
        invariant
            i <= 10,
            bands@.len() == 10,
            gains@.len() == 10,
            forall|k: int|
                0 <= k < 10 ==> #[trigger] bands@[k] == (EqBand {
                    gain_db: if k < i {
                        gains@[k]
                    } else {
                        0
                    },
                    ..bands_with(gains@)[k]
                }),
        decreases 10 - i,
    {
        let mut band = bands[i];
        band.gain_db = gains[i];
        bands[i] = band;
        i = i + 1;
    }
    assert(bands@ =~= bands_with(gains@));
    bands
}

/// Each gain held to the range.
pub open spec fn all_clamped(gains: Seq<u32>) -> Seq<u32> {
    gains.map_values(|g: u32| clamped(g))
}

/// What the controller knows.
pub struct EqState {
    pub gains: Seq<u32>,
    /// Whether the filter-chain runs.
    pub running: bool,
    /// The node, where it is known.
    pub node_id: Option<u32>,
}

/// What an action says.
pub enum EqStep {
    StartFilterChain(Seq<EqBand>),
    StopFilterChain,
    AwaitNode,
    ProbeNode,
    RouteToEq,
    RouteToNullSink,
    SetGains { node_id: u32, gains: Seq<u32> },
    Publish { enabled: bool, bands: Seq<EqBand> },
}

impl View for EqAction {
    type V = EqStep;

    open spec fn view(&self) -> EqStep {
        match *self {
            EqAction::StartFilterChain(bands) => EqStep::StartFilterChain(bands@),
            EqAction::StopFilterChain => EqStep::StopFilterChain,
            EqAction::AwaitNode => EqStep::AwaitNode,
            EqAction::ProbeNode => EqStep::ProbeNode,
            EqAction::RouteToEq => EqStep::RouteToEq,
            EqAction::RouteToNullSink => EqStep::RouteToNullSink,
            EqAction::SetGains { node_id, gains } => EqStep::SetGains { node_id, gains: gains@ },
            EqAction::Publish { enabled, bands } => EqStep::Publish { enabled, bands: bands@ },
        }
    }
}

/// What the actions say.
pub open spec fn steps(actions: Seq<EqAction>) -> Seq<EqStep> {
    actions.map_values(|a: EqAction| a@)
}

/// The state of the equaliser as it is told.
pub open spec fn publish(s: EqState) -> EqStep {
    EqStep::Publish { enabled: s.running, bands: bands_with(s.gains) }
}

/// The gains set on a node that was found.
pub open spec fn set_on(s: EqState) -> Seq<EqStep> {
    match s.node_id {
        Some(node_id) => seq![EqStep::SetGains { node_id, gains: s.gains }],
        None => Seq::empty(),
    }
}

/// The state after an event, and what is to be done.
pub open spec fn eq_step(s: EqState, e: EqEvent) -> (EqState, Seq<EqStep>) {
    match e {
        EqEvent::Command(EqCommand::SetEnabled(true)) => if s.running {
            (s, Seq::empty())
        } else {
            (
                EqState { running: true, ..s },
                seq![EqStep::StartFilterChain(bands_with(s.gains)), EqStep::AwaitNode],
            )
        },
        EqEvent::Command(EqCommand::SetEnabled(false)) => {
            let t = EqState { running: false, node_id: None, ..s };
            if s.running {
                (t, seq![EqStep::RouteToNullSink, EqStep::StopFilterChain, publish(t)])
            } else {
                (t, seq![EqStep::RouteToNullSink, publish(t)])
            }
        },
        EqEvent::Command(EqCommand::UpdateGains(gains)) => {
            let t = EqState { gains: all_clamped(gains@), ..s };
            if s.running {
                (t, seq![EqStep::ProbeNode])
            } else {
                (t, seq![publish(t)])
            }
        },
        EqEvent::Awaited(None) => {
            let t = EqState { running: false, node_id: None, ..s };
            if s.running {
                (t, seq![EqStep::StopFilterChain, EqStep::RouteToNullSink, publish(t)])
            } else {
                (t, seq![EqStep::RouteToNullSink, publish(t)])
            }
        },
        EqEvent::Awaited(Some(id)) => {
            let t = EqState { node_id: Some(id), ..s };
            (t, seq![EqStep::RouteToEq] + set_on(t) + seq![publish(t)])
        },
        EqEvent::Probed(found) => {
            let t = EqState { node_id: found, ..s };
            (t, set_on(t) + seq![publish(t)])
        },
    }
}

/// The equaliser's controller.
pub struct EqController {
    gains: [u32; 10],
    running: bool,
    node_id: Option<u32>,
}

impl View for EqController {
    type V = EqState;

    closed spec fn view(&self) -> EqState {
        EqState { gains: self.gains@, running: self.running, node_id: self.node_id }
    }
}

impl EqController {
    /// A controller with the equaliser off and all gains at 0 dB.
    pub fn new() -> (c: Self)
        ensures
            c@ == (EqState { gains: flat_gains(), running: false, node_id: None }),
    {
        let gains: [u32; 10] = [0, 0, 0, 0, 0, 0, 0, 0, 0, 0];
        assert(gains@ =~= flat_gains());
        EqController { gains, running: false, node_id: None }
    }

    /// Whether the filter-chain runs.
    pub fn running(&self) -> (r: bool)
        ensures
            r == self@.running,
    {
        self.running
    }

    fn publication(&self) -> (a: EqAction)
        ensures
            a@ == publish(self@),
    {
        EqAction::Publish { enabled: self.running, bands: gains_to_bands(&self.gains) }
    }

    /// Take in an event; returns what is to be done, in this order.
    pub fn on_event(&mut self, event: EqEvent) -> (actions: Vec<EqAction>)
        ensures
            (final(self)@, steps(actions@)) == eq_step(old(self)@, event),
    {
        let mut actions: Vec<EqAction> = Vec::new();
        match event {
            EqEvent::Command(EqCommand::SetEnabled(on)) => {
                if on {
                    if !self.running {
                        actions.push(EqAction::StartFilterChain(gains_to_bands(&self.gains)));
                        actions.push(EqAction::AwaitNode);
                        self.running = true;
                    }
                } else {
                    actions.push(EqAction::RouteToNullSink);
                    if self.running {
                        actions.push(EqAction::StopFilterChain);
                    }
                    self.running = false;
                    self.node_id = None;
                    actions.push(self.publication());
                }
            },
            EqEvent::Command(EqCommand::UpdateGains(new_gains)) => {
                let mut gains = new_gains;
                let mut i: usize = 0;
                while i < 10
                    invariant
                        i <= 10,
                        gains@.len() == 10,
                        new_gains@.len() == 10,
                        forall|k: int|
                            0 <= k < 10 ==> #[trigger] gains@[k] == (if k < i {
                                clamped(new_gains@[k])
                            } else {
                                new_gains@[k]
                            }),
                    decreases 10 - i,
                {
                    gains[i] = clamp_eq_gain(gains[i]);
                    i = i + 1;
                }
                assert(gains@ =~= all_clamped(new_gains@));
                self.gains = gains;
                if self.running {
                    actions.push(EqAction::ProbeNode);
                } else {
                    actions.push(self.publication());
                }
            },
            EqEvent::Awaited(None) => {
                if self.running {
                    actions.push(EqAction::StopFilterChain);
                }
                self.running = false;
                self.node_id = None;
                actions.push(EqAction::RouteToNullSink);
                actions.push(self.publication());
            },
            EqEvent::Awaited(Some(id)) => {
                self.node_id = Some(id);
                actions.push(EqAction::RouteToEq);
                actions.push(EqAction::SetGains { node_id: id, gains: self.gains });
                actions.push(self.publication());
            },
            EqEvent::Probed(found) => {
                self.node_id = found;
                if let Some(id) = found {
                    actions.push(EqAction::SetGains { node_id: id, gains: self.gains });
                }
                actions.push(self.publication());
            },
        }
        assert(steps(actions@) =~= eq_step(old(self)@, event).1);
        actions
    }
}

// ── What holds of every history ──────────────────────────────────────────────

/// Whether `a` stands in the steps before every `b`.
pub open spec fn comes_before(steps: Seq<EqStep>, a: EqStep, b: EqStep) -> bool {
    forall|j: int|
        0 <= j < steps.len() && #[trigger] steps[j] == b ==> exists|i: int|
            0 <= i < j && #[trigger] steps[i] == a
}

/// Disabling routes audio to the null sink before the filter-chain is stopped, and
/// leaves the equaliser off whatever it was before.
pub proof fn audio_is_rerouted_before_the_chain_stops(s: EqState)
    ensures
        ({
            let (t, out) = eq_step(s, EqEvent::Command(EqCommand::SetEnabled(false)));
            &&& comes_before(out, EqStep::RouteToNullSink, EqStep::StopFilterChain)
            &&& !t.running
            &&& t.node_id is None
            &&& t.gains == s.gains
            &&& s.running ==> out.contains(EqStep::StopFilterChain)
            &&& out.last() == EqStep::Publish { enabled: false, bands: bands_with(s.gains) }
        }),
{
    let (t, out) = eq_step(s, EqEvent::Command(EqCommand::SetEnabled(false)));
    assert(out[0] == EqStep::RouteToNullSink);
    if s.running {
        assert(out[1] == EqStep::StopFilterChain);
    }
}

/// Audio is routed to the equaliser only when its node has appeared.
pub proof fn audio_goes_to_the_equaliser_only_once_its_node_is_there(s: EqState, e: EqEvent)
    requires
        eq_step(s, e).1.contains(EqStep::RouteToEq),
    ensures
        e matches EqEvent::Awaited(Some(_)),
{
}

/// Enabling an equaliser that runs changes nothing.
pub proof fn enabling_twice_is_enabling_once(s: EqState)
    requires
        s.running,
    ensures
        eq_step(s, EqEvent::Command(EqCommand::SetEnabled(true))) == (s, Seq::<EqStep>::empty()),
{
}

/// A node that never appeared leaves the equaliser off, on the null sink and told as
/// disabled.
pub proof fn a_missing_node_leaves_the_equaliser_off(s: EqState)
    ensures
        ({
            let (t, out) = eq_step(s, EqEvent::Awaited(None));
            &&& !t.running
            &&& out.contains(EqStep::RouteToNullSink)
            &&& s.running ==> out.contains(EqStep::StopFilterChain)
            &&& out.last() == EqStep::Publish { enabled: false, bands: bands_with(s.gains) }
        }),
{
    let (t, out) = eq_step(s, EqEvent::Awaited(None));
    if s.running {
        assert(out[0] == EqStep::StopFilterChain);
        assert(out[1] == EqStep::RouteToNullSink);
    } else {
        assert(out[0] == EqStep::RouteToNullSink);
    }
}

/// A change of gains neither starts nor stops the filter-chain nor changes the route,
/// and is kept whether or not the filter-chain runs.
pub proof fn gains_change_without_a_restart(s: EqState, gains: [u32; 10], found: Option<u32>)
    ensures
        ({
            let (t, out) = eq_step(s, EqEvent::Command(EqCommand::UpdateGains(gains)));
            let (u, more) = eq_step(t, EqEvent::Probed(found));
            &&& t.running == s.running && u.running == s.running
            &&& t.gains == all_clamped(gains@) && u.gains == t.gains
            &&& forall|k: int|
                0 <= k < out.len() ==> (#[trigger] out[k] is ProbeNode || out[k] is Publish)
            &&& forall|k: int|
                0 <= k < more.len() ==> (#[trigger] more[k] is SetGains || more[k] is Publish)
        }),
{
}

/// Whatever is told of the equaliser is its state: that it is enabled where its
/// filter-chain runs, with the gains that are kept.
pub proof fn what_is_told_is_the_state(s: EqState, e: EqEvent, k: int)
    requires
        0 <= k < eq_step(s, e).1.len(),
        eq_step(s, e).1[k] is Publish,
    ensures
        eq_step(s, e).1[k] == publish(eq_step(s, e).0),
        k == eq_step(s, e).1.len() - 1,
{
}

/// Enabling an equaliser that is off starts the filter-chain with the gains that are kept,
/// and waits for its node; once that is there, audio goes to it, the gains are set on it,
/// and it is told as enabled.
pub proof fn enabling_leads_to_an_equaliser_that_runs(s: EqState, id: u32)
    requires
        !s.running,
    ensures
        ({
            let (t, out) = eq_step(s, EqEvent::Command(EqCommand::SetEnabled(true)));
            let (u, more) = eq_step(t, EqEvent::Awaited(Some(id)));
            &&& out.len() == 2
            &&& out[0] == EqStep::StartFilterChain(bands_with(s.gains))
            &&& out[1] == EqStep::AwaitNode
            &&& t.running && t.gains == s.gains
            &&& u.running && u.node_id == Some(id) && u.gains == s.gains
            &&& more.len() == 3
            &&& more[0] == EqStep::RouteToEq
            &&& more[1] == (EqStep::SetGains { node_id: id, gains: s.gains })
            &&& more[2] == (EqStep::Publish { enabled: true, bands: bands_with(s.gains) })
        }),
{
}

/// New gains are held to the range, each by itself; while the filter-chain runs its node is
/// looked for first, and the gains are set on the node that is found; while it does not,
/// they are only kept and told.
pub proof fn new_gains_reach_the_node(s: EqState, gains: [u32; 10], found: Option<u32>)
    ensures
        ({
            let (t, out) = eq_step(s, EqEvent::Command(EqCommand::UpdateGains(gains)));
            let (u, more) = eq_step(t, EqEvent::Probed(found));
            &&& t.gains.len() == 10
            &&& forall|k: int| 0 <= k < 10 ==> #[trigger] t.gains[k] == clamped(gains@[k])
            &&& out.len() == 1
            &&& s.running ==> out[0] == EqStep::ProbeNode
            &&& !s.running ==> out[0] == (EqStep::Publish {
                enabled: false,
                bands: bands_with(t.gains),
            })
            &&& u.node_id == found
            &&& found matches Some(id) ==> more.len() == 2 && more[0] == (EqStep::SetGains {
                node_id: id,
                gains: t.gains,
            })
            &&& found is None ==> more.len() == 1
            &&& more.last() == (EqStep::Publish { enabled: s.running, bands: bands_with(t.gains) })
        }),
{
}

/// The equaliser and the null sink are routed to under their own names, and nothing else
/// is.
pub proof fn routes_have_their_names(a: EqAction)
    ensures
        a is RouteToEq ==> route_of(a) == Some("effect_input.soundsync-eq"@),
        a is RouteToNullSink ==> route_of(a) == Some("soundsync-capture"@),
        !(a is RouteToEq) && !(a is RouteToNullSink) ==> route_of(a) is None,
{
}

} // verus!
