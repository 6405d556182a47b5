//! Multi-output subsystem: what an output device is, how devices are found, and
//! the controller that routes the captured audio to at most one of them.
use vstd::prelude::*;
use crate::text::{opt_view, clone_opt};

pub mod controller;
pub mod discovery;
pub mod loopback;

pub use crate::output::loopback::{build_loopback_args, parse_loopback_module_id, CAPTURE_MONITOR};

verus! {

/// Which output technology a device uses.
#[derive(Debug, Clone, Copy, PartialEq, Eq, Structural)]
pub enum OutputKind {
    Soundcard,
    Airplay,
    Chromecast,
}

impl OutputKind {
    /// The wire string of a kind.
    pub open spec fn wire(self) -> Seq<char> {
        match self {
            OutputKind::Soundcard => "soundcard"@,
            OutputKind::Airplay => "airplay"@,
            OutputKind::Chromecast => "chromecast"@,
        }
    }

    /// Snake-case wire string.
    pub fn as_str(&self) -> (s: &'static str)
        ensures
            s@ == self.wire(),
    {
        match self {
            OutputKind::Soundcard => "soundcard",
            OutputKind::Airplay => "airplay",
            OutputKind::Chromecast => "chromecast",
        }
    }
}

/// A discovered output target.
///
/// `id` identifies the device unambiguously: the PipeWire sink name of a sound
/// card or an AirPlay receiver, the `id=` TXT field of a Chromecast.
#[derive(Debug, PartialEq, Eq)]
pub struct OutputDevice {
    pub kind: OutputKind,
    /// Stable opaque identifier (sink name or cast id).
    pub id: String,
    /// Human-readable display name.
    pub name: String,
    /// Routable address, or `None` for local sinks.
    pub addr: Option<String>,
    /// Service port (`None` for local sinks).
    pub port: Option<u16>,
}

/// What an [`OutputDevice`] says.
pub struct DeviceData {
    pub kind: OutputKind,
    pub id: Seq<char>,
    pub name: Seq<char>,
    pub addr: Option<Seq<char>>,
    pub port: Option<u16>,
}

impl View for OutputDevice {
    type V = DeviceData;

    open spec fn view(&self) -> DeviceData {
        DeviceData {
            kind: self.kind,
            id: self.id@,
            name: self.name@,
            addr: opt_view(self.addr),
            port: self.port,
        }
    }
}

impl Clone for OutputDevice {
    fn clone(&self) -> (r: Self)
        ensures
            r == *self,
    {
        OutputDevice {
            kind: self.kind,
            id: self.id.clone(),
            name: self.name.clone(),
            addr: clone_opt(&self.addr),
            port: self.port,
        }
    }
}

/// What each device of a list says.
pub open spec fn devices_view(v: Seq<OutputDevice>) -> Seq<DeviceData> {
    v.map_values(|d: OutputDevice| d@)
}

/// A copy of a list of devices.
pub fn clone_devices(v: &Vec<OutputDevice>) -> (out: Vec<OutputDevice>)
    ensures
        out@ == v@,
{
    let mut out: Vec<OutputDevice> = Vec::new();
    let mut i: usize = 0;
    while i < v.len()
        invariant
            i <= v@.len(),
            out@ == v@.take(i as int),
        decreases v@.len() - i,
    {
        out.push(v[i].clone());
        i = i + 1;
        assert(v@.take(i as int) == v@.take(i as int - 1).push(v@[i as int - 1]));
    }
    assert(v@.take(v@.len() as int) == v@);
    out
}

/// Aggregated discovery results.
#[derive(Debug, PartialEq, Eq)]
pub struct AvailableOutputs {
    pub soundcard: Vec<OutputDevice>,
    pub airplay: Vec<OutputDevice>,
    pub chromecast: Vec<OutputDevice>,
}

/// What an [`AvailableOutputs`] says.
pub struct OutputsData {
    pub soundcard: Seq<DeviceData>,
    pub airplay: Seq<DeviceData>,
    pub chromecast: Seq<DeviceData>,
}

impl View for AvailableOutputs {
    type V = OutputsData;

    open spec fn view(&self) -> OutputsData {
        OutputsData {
            soundcard: devices_view(self.soundcard@),
            airplay: devices_view(self.airplay@),
            chromecast: devices_view(self.chromecast@),
        }
    }
}

/// Whether every device of the list is of that kind.
pub open spec fn all_of(ds: Seq<DeviceData>, kind: OutputKind) -> bool {
    forall|i: int| 0 <= i < ds.len() ==> (#[trigger] ds[i]).kind == kind
}

impl OutputsData {
    /// Whether each list holds devices of its kind only.
    pub open spec fn by_kind(self) -> bool {
        &&& all_of(self.soundcard, OutputKind::Soundcard)
        &&& all_of(self.airplay, OutputKind::Airplay)
        &&& all_of(self.chromecast, OutputKind::Chromecast)
    }

    /// The devices of a kind.
    pub open spec fn of(self, kind: OutputKind) -> Seq<DeviceData> {
        match kind {
            OutputKind::Soundcard => self.soundcard,
            OutputKind::Airplay => self.airplay,
            OutputKind::Chromecast => self.chromecast,
        }
    }
}

impl Default for AvailableOutputs {
    fn default() -> (r: Self)
        ensures
            r.soundcard@.len() == 0,
            r.airplay@.len() == 0,
            r.chromecast@.len() == 0,
    {
        AvailableOutputs { soundcard: Vec::new(), airplay: Vec::new(), chromecast: Vec::new() }
    }
}

impl Clone for AvailableOutputs {
    fn clone(&self) -> (r: Self)
        ensures
            r@ == self@,
            r.soundcard@ == self.soundcard@,
            r.airplay@ == self.airplay@,
            r.chromecast@ == self.chromecast@,
    {
        AvailableOutputs {
            soundcard: clone_devices(&self.soundcard),
            airplay: clone_devices(&self.airplay),
            chromecast: clone_devices(&self.chromecast),
        }
    }
}

/// Commands the output controller accepts.
#[derive(Debug)]
pub enum OutputCommand {
    /// Select a specific output by kind + id.
    Select { kind: OutputKind, id: String },
    /// Clear the active output (revert to browser-only).
    Clear,
}

/// Each kind has its own list and its own wire string.
pub proof fn kinds_are_kept_apart(o: OutputsData, a: OutputKind, b: OutputKind)
    ensures
        o.of(OutputKind::Soundcard) == o.soundcard,
        o.of(OutputKind::Airplay) == o.airplay,
        o.of(OutputKind::Chromecast) == o.chromecast,
        o.by_kind() ==> forall|i: int| 0 <= i < o.of(a).len() ==> (#[trigger] o.of(a)[i]).kind == a,
        a.wire() == b.wire() ==> a == b,
        a.wire() == "soundcard"@ <==> a == OutputKind::Soundcard,
        a.wire() == "airplay"@ <==> a == OutputKind::Airplay,
        a.wire() == "chromecast"@ <==> a == OutputKind::Chromecast,
{
    reveal_strlit("soundcard");
    reveal_strlit("airplay");
    reveal_strlit("chromecast");
    assert("soundcard"@.len() == 9);
    assert("airplay"@.len() == 7);
    assert("chromecast"@.len() == 10);
}

} // verus!
