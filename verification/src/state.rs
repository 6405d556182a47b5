//! Shared runtime state and the events that announce its changes.
//!
//! Every setter replaces one part of the state and gives back the event to
//! publish; the handle that shares the state between tasks stands around it.
use vstd::prelude::*;
use crate::dsp::eq::{bands_with, default_bands, flat_gains, EqBand, FilterType};
use crate::output::{AvailableOutputs, OutputDevice};
use crate::text::clone_opt;

verus! {

/// App version.
pub const VERSION: &'static str = "0.1.0";

/// The name that is advertised until another one is chosen.
pub const DEFAULT_DEVICE_NAME: &'static str = "SoundSync";

/// Now-playing media (AVRCP) as shown to the UI. `status` is the wire string of a
/// playback status.
#[derive(Debug, PartialEq, Eq)]
pub struct MediaInfo {
    pub status: String,
    pub title: Option<String>,
    pub artist: Option<String>,
    pub album: Option<String>,
    pub duration_ms: Option<u32>,
    pub position_ms: Option<u32>,
    /// Best-effort album art URL. `None` until the lookup completes, or when no
    /// art is found.
    pub artwork_url: Option<String>,
}

impl Clone for MediaInfo {
    fn clone(&self) -> (r: Self)
        ensures
            r == *self,
    {
        MediaInfo {
            status: self.status.clone(),
            title: clone_opt(&self.title),
            artist: clone_opt(&self.artist),
            album: clone_opt(&self.album),
            duration_ms: self.duration_ms,
            position_ms: self.position_ms,
            artwork_url: clone_opt(&self.artwork_url),
        }
    }
}

/// A Bluetooth device as shown to the UI. `state` is the wire string of a device
/// state.
#[derive(Debug, PartialEq, Eq)]
pub struct DeviceInfo {
    pub addr: String,
    pub name: Option<String>,
    pub state: String,
    /// BlueZ `Icon` hint (e.g. "phone"); `None` if BlueZ reported no icon.
    pub icon: Option<String>,
}

impl Clone for DeviceInfo {
    fn clone(&self) -> (r: Self)
        ensures
            r == *self,
    {
        DeviceInfo {
            addr: self.addr.clone(),
            name: clone_opt(&self.name),
            state: self.state.clone(),
            icon: clone_opt(&self.icon),
        }
    }
}

fn clone_device_infos(v: &Vec<DeviceInfo>) -> (out: Vec<DeviceInfo>)
    ensures
        out@ == v@,
{
    let mut out: Vec<DeviceInfo> = Vec::new();
    let mut i: usize = 0;
    while i < v.len()
        invariant
            i <= v@.len(),
            out@ == v@.take(i as int),
        decreases v@.len() - i,
    {
        out.push(v[i].clone());
        i = i + 1;
        assert(v@.take(i as int) == v@.take(i as int - 1).push(v@[i as int - 1]));
    }
    assert(v@.take(v@.len() as int) == v@);
    out
}

/// A single EQ band as shown to the UI.
#[derive(Debug, PartialEq, Eq)]
pub struct EqBandInfo {
    /// Hertz.
    pub freq: u32,
    /// The bits of a single-precision number of decibels.
    pub gain_db: u32,
    /// Thousandths.
    pub q: u32,
    pub filter_type: String,
}

impl EqBandInfo {
    /// Whether this shows that band.
    pub open spec fn shows(self, band: EqBand) -> bool {
        &&& self.freq == band.freq
        &&& self.gain_db == band.gain_db
        &&& self.q == band.q
        &&& self.filter_type@ == filter_wire(band.filter_type)
    }
}

impl Clone for EqBandInfo {
    fn clone(&self) -> (r: Self)
        ensures
            r == *self,
    {
        EqBandInfo {
            freq: self.freq,
            gain_db: self.gain_db,
            q: self.q,
            filter_type: self.filter_type.clone(),
        }
    }
}

/// EQ state as shown to the UI.
#[derive(Debug, PartialEq, Eq)]
pub struct EqInfo {
    pub enabled: bool,
    pub bands: Vec<EqBandInfo>,
}

impl EqInfo {
    /// Whether this shows these bands.
    pub open spec fn shows(self, enabled: bool, bands: Seq<EqBand>) -> bool {
        &&& self.enabled == enabled
        &&& self.bands@.len() == bands.len()
        &&& forall|i: int| 0 <= i < bands.len() ==> (#[trigger] self.bands@[i]).shows(bands[i])
    }

    /// Whether two states say the same.
    pub open spec fn same(self, other: EqInfo) -> bool {
        self.enabled == other.enabled && self.bands@ == other.bands@
    }
}

impl Clone for EqInfo {
    fn clone(&self) -> (r: Self)
        ensures
            r.same(*self),
    {
        let mut bands: Vec<EqBandInfo> = Vec::new();
        let mut i: usize = 0;
        while i < self.bands.len()
            invariant
                i <= self.bands@.len(),
                bands@ == self.bands@.take(i as int),
            decreases self.bands@.len() - i,
        {
            bands.push(self.bands[i].clone());
            i = i + 1;
            assert(self.bands@.take(i as int) == self.bands@.take(i as int - 1).push(
                self.bands@[i as int - 1],
            ));
        }
        assert(self.bands@.take(self.bands@.len() as int) == self.bands@);
        EqInfo { enabled: self.enabled, bands }
    }
}

/// Health of an active Chromecast session.
///
/// - `Connecting`: a session has been started and its task is alive.
/// - `Lost`: the session task died; the controller has cleared the active output.
///
/// There is no state for a confirmed playback: nothing reports it back.
#[derive(Debug, Clone, Copy, PartialEq, Eq, Structural)]
pub enum CastHealth {
    Connecting,
    Lost,
}

/// Output subsystem state as shown to the UI.
#[derive(Debug, PartialEq, Eq)]
pub struct OutputState {
    /// The currently active output device, or `None` (browser-only mode).
    pub active: Option<OutputDevice>,
    /// All currently discovered output devices.
    pub available: AvailableOutputs,
    /// Health of the active Chromecast session; `None` when no cast is in play.
    pub cast_health: Option<CastHealth>,
}

impl OutputState {
    /// Whether two states say the same.
    pub open spec fn same(self, other: OutputState) -> bool {
        &&& self.active == other.active
        &&& self.available@ == other.available@
        &&& self.cast_health == other.cast_health
    }
}

impl Default for OutputState {
    fn default() -> (r: Self)
        ensures
            r.active is None,
            r.cast_health is None,
            r.available.soundcard@.len() == 0,
            r.available.airplay@.len() == 0,
            r.available.chromecast@.len() == 0,
    {
        OutputState { active: None, available: AvailableOutputs::default(), cast_health: None }
    }
}

/// A copy of an optional device.
pub fn clone_active(o: &Option<OutputDevice>) -> (r: Option<OutputDevice>)
    ensures
        r == *o,
{
    match o {
        Some(d) => Some(d.clone()),
        None => None,
    }
}

impl Clone for OutputState {
    fn clone(&self) -> (r: Self)
        ensures
            r.same(*self),
    {
        OutputState {
            active: clone_active(&self.active),
            available: self.available.clone(),
            cast_health: self.cast_health,
        }
    }
}

/// The wire string of a filter type.
pub open spec fn filter_wire(ft: FilterType) -> Seq<char> {
    match ft {
        FilterType::LowShelf => "low_shelf"@,
        FilterType::Peaking => "peaking"@,
        FilterType::HighShelf => "high_shelf"@,
    }
}

/// Map a filter type to its wire string.
pub fn filter_type_str(ft: FilterType) -> (s: &'static str)
    ensures
        s@ == filter_wire(ft),
{
    match ft {
        FilterType::LowShelf => "low_shelf",
        FilterType::Peaking => "peaking",
        FilterType::HighShelf => "high_shelf",
    }
}

/// Convert DSP bands and the enabled flag to what the UI shows.
pub fn eq_info(enabled: bool, bands: &[EqBand]) -> (info: EqInfo)
    ensures
        info.shows(enabled, bands@),
{
    let mut out: Vec<EqBandInfo> = Vec::new();
    let mut i: usize = 0;
    while i < bands.len()
        invariant
            i <= bands@.len(),
            out@.len() == i,
            forall|k: int| 0 <= k < i ==> (#[trigger] out@[k]).shows(bands@[k]),
        decreases bands@.len() - i,
    {
        let b = bands[i];
        out.push(
            EqBandInfo {
                freq: b.freq,
                gain_db: b.gain_db,
                q: b.q,
                filter_type: filter_type_str(b.filter_type).to_owned(),
            },
        );
        i = i + 1;
    }
    EqInfo { enabled, bands: out }
}

/// The default EQ state (disabled, all gains 0).
pub fn default_eq_info() -> (info: EqInfo)
    ensures
        info.shows(false, bands_with(flat_gains())),
{
    let bands = default_bands();
    eq_info(false, &bands)
}

/// Mutable runtime state.
#[derive(Debug)]
pub struct AppState {
    pub bluetooth_devices: Vec<DeviceInfo>,
    pub media: Option<MediaInfo>,
    pub eq: EqInfo,
    /// Advertised Bluetooth device name.
    pub device_name: String,
    /// Multi-output subsystem state.
    pub output: OutputState,
}

impl Default for AppState {
    fn default() -> (r: Self)
        ensures
            r.bluetooth_devices@.len() == 0,
            r.media is None,
            r.eq.shows(false, bands_with(flat_gains())),
            r.device_name@ == DEFAULT_DEVICE_NAME@,
            r.output.active is None,
            r.output.cast_health is None,
            r.output.available.soundcard@.len() == 0,
            r.output.available.airplay@.len() == 0,
            r.output.available.chromecast@.len() == 0,
    {
        AppState {
            bluetooth_devices: Vec::new(),
            media: None,
            eq: default_eq_info(),
            device_name: DEFAULT_DEVICE_NAME.to_owned(),
            output: OutputState::default(),
        }
    }
}

/// A view of the state that is sent to new clients.
#[derive(Debug, PartialEq, Eq)]
pub struct AppStateSnapshot {
    pub version: String,
    pub bluetooth_devices: Vec<DeviceInfo>,
    pub media: Option<MediaInfo>,
    pub eq: EqInfo,
    /// Advertised Bluetooth device name.
    pub device_name: String,
    /// Multi-output subsystem state.
    pub output: OutputState,
}

/// Event-bus messages: subsystems publish, the web forwarder consumes.
#[derive(Debug, PartialEq, Eq)]
pub enum SystemEvent {
    /// The bits of one single-precision level per band.
    SpectrumData { levels: Vec<u32> },
    /// WebRTC SDP answer for a session (server -> that browser).
    WebrtcAnswer { session: u128, sdp: String },
    /// WebRTC ICE candidate for a session.
    WebrtcIceCandidate {
        session: u128,
        candidate: String,
        sdp_mid: Option<String>,
        sdp_mline_index: Option<u16>,
    },
    /// The current Bluetooth device list changed (server -> all clients).
    BluetoothDevices { devices: Vec<DeviceInfo> },
    /// Now-playing media changed (server -> all clients). `None` = no player.
    MediaState { media: Option<MediaInfo> },
    /// EQ state changed (server -> all clients).
    EqChanged { eq: EqInfo },
    /// The advertised Bluetooth device name changed.
    DeviceNameChanged { name: String },
    /// Multi-output state changed (active device or available device list).
    OutputState { output: OutputState },
}

/// A copy of optional media.
pub fn clone_media(o: &Option<MediaInfo>) -> (r: Option<MediaInfo>)
    ensures
        r == *o,
{
    match o {
        Some(m) => Some(m.clone()),
        None => None,
    }
}

impl AppState {
    /// Current serializable snapshot.
    pub fn snapshot(&self) -> (s: AppStateSnapshot)
        ensures
            s.version@ == VERSION@,
            s.bluetooth_devices@ == self.bluetooth_devices@,
            s.media == self.media,
            s.eq.same(self.eq),
            s.device_name == self.device_name,
            s.output.same(self.output),
    {
        AppStateSnapshot {
            version: VERSION.to_owned(),
            bluetooth_devices: clone_device_infos(&self.bluetooth_devices),
            media: clone_media(&self.media),
            eq: self.eq.clone(),
            device_name: self.device_name.clone(),
            output: self.output.clone(),
        }
    }

    /// Update the advertised Bluetooth device name.
    pub fn set_device_name(&mut self, name: String) -> (event: SystemEvent)
        ensures
            *final(self) == (AppState { device_name: name, ..*old(self) }),
            event == (SystemEvent::DeviceNameChanged { name }),
    {
        self.device_name = name.clone();
        SystemEvent::DeviceNameChanged { name }
    }

    /// Replace the now-playing media.
    pub fn set_media(&mut self, media: Option<MediaInfo>) -> (event: SystemEvent)
        ensures
            *final(self) == (AppState { media, ..*old(self) }),
            event == (SystemEvent::MediaState { media }),
    {
        self.media = clone_media(&media);
        SystemEvent::MediaState { media }
    }

    /// Replace the Bluetooth device list.
    pub fn set_bluetooth_devices(&mut self, devices: Vec<DeviceInfo>) -> (event: SystemEvent)
        ensures
            final(self).bluetooth_devices@ == devices@,
            *final(self) == (AppState {
                bluetooth_devices: final(self).bluetooth_devices,
                ..*old(self)
            }),
            event == (SystemEvent::BluetoothDevices { devices }),
    {
        self.bluetooth_devices = clone_device_infos(&devices);
        SystemEvent::BluetoothDevices { devices }
    }

    /// Replace the EQ state.
    pub fn set_eq(&mut self, eq: EqInfo) -> (event: SystemEvent)
        ensures
            final(self).eq.same(eq),
            *final(self) == (AppState { eq: final(self).eq, ..*old(self) }),
            event == (SystemEvent::EqChanged { eq }),
    {
        self.eq = eq.clone();
        SystemEvent::EqChanged { eq }
    }

    /// Replace the output state.
    pub fn set_output(&mut self, output: OutputState) -> (event: SystemEvent)
        ensures
            final(self).output.same(output),
            *final(self) == (AppState { output: final(self).output, ..*old(self) }),
            event == (SystemEvent::OutputState { output }),
    {
        self.output = output.clone();
        SystemEvent::OutputState { output }
    }
}

/// What is shown of the equaliser is its bands, each with its own values, and whether it is
/// enabled.
pub proof fn shown_bands_are_the_bands(info: EqInfo, enabled: bool, bands: Seq<EqBand>)
    ensures
        info.shows(enabled, bands) <==> info.enabled == enabled && info.bands@.len() == bands.len()
            && forall|i: int|
            0 <= i < bands.len() ==> (#[trigger] info.bands@[i]).freq == bands[i].freq
                && info.bands@[i].gain_db == bands[i].gain_db && info.bands@[i].q == bands[i].q
                && info.bands@[i].filter_type@ == (match bands[i].filter_type {
                FilterType::LowShelf => "low_shelf"@,
                FilterType::Peaking => "peaking"@,
                FilterType::HighShelf => "high_shelf"@,
            }),
{
    if info.shows(enabled, bands) {
        assert forall|i: int| 0 <= i < bands.len() implies (#[trigger] info.bands@[i]).freq
            == bands[i].freq && info.bands@[i].gain_db == bands[i].gain_db && info.bands@[i].q
            == bands[i].q && info.bands@[i].filter_type@ == filter_wire(bands[i].filter_type) by {
            assert(info.bands@[i].shows(bands[i]));
        }
    }
    if info.enabled == enabled && info.bands@.len() == bands.len() && forall|i: int|
        0 <= i < bands.len() ==> (#[trigger] info.bands@[i]).freq == bands[i].freq
            && info.bands@[i].gain_db == bands[i].gain_db && info.bands@[i].q == bands[i].q
            && info.bands@[i].filter_type@ == (match bands[i].filter_type {
            FilterType::LowShelf => "low_shelf"@,
            FilterType::Peaking => "peaking"@,
            FilterType::HighShelf => "high_shelf"@,
        }) {
        assert forall|i: int| 0 <= i < bands.len() implies (#[trigger] info.bands@[i]).shows(
            bands[i],
        ) by {}
    }
}

/// States that say the same agree in every part.
pub proof fn copies_agree_in_every_part(a: EqInfo, b: EqInfo, x: OutputState, y: OutputState)
    ensures
        a.same(b) <==> a.enabled == b.enabled && a.bands@ == b.bands@,
        x.same(y) <==> x.active == y.active && x.cast_health == y.cast_health && x.available@
            == y.available@,
{
}

} // verus!
