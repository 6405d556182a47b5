//! 10-band parametric EQ and the PipeWire filter-chain configuration for it.
//!
//! Frequencies are whole hertz, quality factors thousandths, and gains the bit
//! pattern of an IEEE 754 single-precision number of decibels.
use vstd::prelude::*;
use crate::text::{
    cat2, cat3, decimal, digits_have_their_places, parsed, render, views, written_numbers_read_back,
};

verus! {

pub const NUM_BANDS: usize = 10;

/// The bits of -12.0 dB.
pub const MIN_GAIN_DB: u32 = 0xc140_0000;

/// The bits of 12.0 dB.
pub const MAX_GAIN_DB: u32 = 0x4140_0000;

#[derive(Debug, Clone, Copy, PartialEq, Eq, Structural)]
pub enum FilterType {
    LowShelf,
    Peaking,
    HighShelf,
}

/// One band of the equaliser.
#[derive(Debug, Clone, Copy, PartialEq, Eq, Structural)]
pub struct EqBand {
    /// Hertz.
    pub freq: u32,
    /// The bits of a single-precision number of decibels.
    pub gain_db: u32,
    /// Thousandths.
    pub q: u32,
    pub filter_type: FilterType,
}

/// Whether the bits are those of no number.
pub open spec fn not_a_number(bits: u32) -> bool {
    0x7f80_0000 < bits < 0x8000_0000 || 0xff80_0000 < bits
}

/// Where the number of these bits stands among the others: the greater the
/// number, the greater the rank. Both zeros have rank zero.
pub open spec fn rank(bits: u32) -> int {
    if bits < 0x8000_0000 {
        bits as int
    } else {
        0x8000_0000 - bits
    }
}

/// The bits of a gain held to the range of the equaliser. What is not a number
/// stays as it is.
pub open spec fn clamped(bits: u32) -> u32 {
    if not_a_number(bits) {
        bits
    } else if rank(bits) > rank(MAX_GAIN_DB) {
        MAX_GAIN_DB
    } else if rank(bits) < rank(MIN_GAIN_DB) {
        MIN_GAIN_DB
    } else {
        bits
    }
}

/// A clamped gain is within the range, and clamping it again changes nothing.
pub proof fn clamping_holds_the_range(bits: u32)
    requires
        !not_a_number(bits),
    ensures
        rank(MIN_GAIN_DB) <= rank(clamped(bits)) <= rank(MAX_GAIN_DB),
        clamped(clamped(bits)) == clamped(bits),
{
}

/// A gain within the range is kept to the bit, and one beyond it becomes the bound that
/// it is beyond: 12.0 dB for greater gains, up to infinity, and -12.0 dB for lesser
/// ones. What is not a number is kept too.
pub proof fn clamping_keeps_what_is_within(bits: u32)
    ensures
        bits <= 0x4140_0000 ==> clamped(bits) == bits,
        0x4140_0000 < bits <= 0x7f80_0000 ==> clamped(bits) == 0x4140_0000,
        0x7f80_0000 < bits < 0x8000_0000 ==> clamped(bits) == bits,
        0x8000_0000 <= bits <= 0xc140_0000 ==> clamped(bits) == bits,
        0xc140_0000 < bits <= 0xff80_0000 ==> clamped(bits) == 0xc140_0000,
        0xff80_0000 < bits ==> clamped(bits) == bits,
{
}

/// Hold the bits of a gain to the range of the equaliser.
pub fn clamp_bits(bits: u32) -> (r: u32)
    ensures
        r == clamped(bits),
{
    if bits < 0x8000_0000 {
        if bits > MAX_GAIN_DB && bits <= 0x7f80_0000 {
            MAX_GAIN_DB
        } else {
            bits
        }
    } else if bits > MIN_GAIN_DB && bits <= 0xff80_0000 {
        MIN_GAIN_DB
    } else {
        bits
    }
}

impl EqBand {
    /// Clamp the gain to -12.0 to 12.0 dB.
    pub fn clamp_gain(&mut self)
        ensures
            *final(self) == (EqBand { gain_db: clamped(old(self).gain_db), ..*old(self) }),
    {
        self.gain_db = clamp_bits(self.gain_db);
    }
}

fn flat(freq: u32, q: u32, filter_type: FilterType) -> (b: EqBand)
    ensures
        b == (EqBand { freq, gain_db: 0, q, filter_type }),
{
    EqBand { freq, gain_db: 0, q, filter_type }
}

/// The frequency, quality factor and filter of each band.
pub open spec fn default_band(i: int) -> (u32, u32, FilterType) {
    if i == 0 {
        (60, 707, FilterType::LowShelf)
    } else if i == 1 {
        (120, 1414, FilterType::Peaking)
    } else if i == 2 {
        (250, 1414, FilterType::Peaking)
    } else if i == 3 {
        (500, 1414, FilterType::Peaking)
    } else if i == 4 {
        (1000, 1414, FilterType::Peaking)
    } else if i == 5 {
        (2000, 1414, FilterType::Peaking)
    } else if i == 6 {
        (4000, 1414, FilterType::Peaking)
    } else if i == 7 {
        (8000, 1820, FilterType::Peaking)
    } else if i == 8 {
        (12000, 2870, FilterType::Peaking)
    } else {
        (16000, 707, FilterType::HighShelf)
    }
}

/// The default bands with these gains.
pub open spec fn bands_with(gains: Seq<u32>) -> Seq<EqBand> {
    Seq::new(
        10,
        |i: int|
            EqBand {
                freq: default_band(i).0,
                gain_db: gains[i],
                q: default_band(i).1,
                filter_type: default_band(i).2,
            },
    )
}

/// All gains at 0 dB.
pub open spec fn flat_gains() -> Seq<u32> {
    Seq::new(10, |i: int| 0u32)
}

/// The bands go from low to high, the ends are shelves and the bands between them peaks;
/// their gains are the ones that were given.
pub proof fn bands_go_from_low_to_high(gains: Seq<u32>, i: int, j: int)
    requires
        0 <= i < j < 10,
    ensures
        bands_with(gains).len() == 10,
        bands_with(gains)[i].freq < bands_with(gains)[j].freq,
        bands_with(gains)[i].gain_db == gains[i],
        bands_with(gains)[j].gain_db == gains[j],
        bands_with(gains)[i].filter_type == FilterType::LowShelf <==> i == 0,
        bands_with(gains)[j].filter_type == FilterType::HighShelf <==> j == 9,
        0 < i ==> bands_with(gains)[i].filter_type == FilterType::Peaking,
        0 < j < 9 ==> bands_with(gains)[j].filter_type == FilterType::Peaking,
{
}

/// Default 10-band EQ (all gains 0 dB).
pub fn default_bands() -> (bands: [EqBand; 10])
    ensures
        bands@ == bands_with(flat_gains()),
{
    let bands = [
        flat(60, 707, FilterType::LowShelf),
        flat(120, 1414, FilterType::Peaking),
        flat(250, 1414, FilterType::Peaking),
        flat(500, 1414, FilterType::Peaking),
        flat(1000, 1414, FilterType::Peaking),
        flat(2000, 1414, FilterType::Peaking),
        flat(4000, 1414, FilterType::Peaking),
        flat(8000, 1820, FilterType::Peaking),
        flat(12000, 2870, FilterType::Peaking),
        flat(16000, 707, FilterType::HighShelf),
    ];
    assert(bands@ =~= bands_with(flat_gains()));
    bands
}

/// The PipeWire builtin that implements a filter.
pub open spec fn label(filter_type: FilterType) -> Seq<char> {
    match filter_type {
        FilterType::LowShelf => "bq_lowshelf"@,
        FilterType::Peaking => "bq_peaking"@,
        FilterType::HighShelf => "bq_highshelf"@,
    }
}

/// The PipeWire builtin that implements a filter.
pub fn filter_label(filter_type: FilterType) -> (s: &'static str)
    ensures
        s@ == label(filter_type),
{
    match filter_type {
        FilterType::LowShelf => "bq_lowshelf",
        FilterType::Peaking => "bq_peaking",
        FilterType::HighShelf => "bq_highshelf",
    }
}

/// Thousandths written with three decimals.
pub open spec fn three_decimals(q: u32) -> Seq<char> {
    decimal((q / 1000) as nat) + "."@ + decimal(((q % 1000) / 100) as nat) + decimal(
        ((q % 100) / 10) as nat,
    ) + decimal((q % 10) as nat)
}

fn render_three_decimals(q: u32) -> (out: String)
    ensures
        out@ == three_decimals(q),
{
    let mut out = cat2(render((q / 1000) as u64).as_str(), ".");
    out.append(render(((q % 1000) / 100) as u64).as_str());
    out.append(render(((q % 100) / 10) as u64).as_str());
    out.append(render((q % 10) as u64).as_str());
    out
}

/// The lines that declare band `i`; `gain` is its gain with one decimal.
pub open spec fn node_text(i: nat, band: EqBand, gain: Seq<char>) -> Seq<char> {
    "                    { type = builtin  label = "@ + label(band.filter_type)
        + "  name = eq_band_"@ + decimal(i)
        + "\n                      control = { \"Freq\" = "@ + decimal(band.freq as nat)
        + "  \"Q\" = "@ + three_decimals(band.q) + "  \"Gain\" = "@ + gain + " } }\n"@
}

/// The declarations of the first `n` bands.
pub open spec fn nodes_text(bands: Seq<EqBand>, gains: Seq<Seq<char>>, n: nat) -> Seq<char>
    decreases n,
{
    if n == 0 {
        Seq::empty()
    } else {
        nodes_text(bands, gains, (n - 1) as nat) + node_text(
            (n - 1) as nat,
            bands[n - 1],
            gains[n - 1],
        )
    }
}

/// The line that feeds band `i` from the one before it.
pub open spec fn link_text(i: nat) -> Seq<char> {
    "                    { output = \"eq_band_"@ + decimal((i - 1) as nat)
        + ":Out\"  input = \"eq_band_"@ + decimal(i) + ":In\" }\n"@
}

/// The links between the first `n` bands.
pub open spec fn links_text(n: nat) -> Seq<char>
    decreases n,
{
    if n <= 1 {
        Seq::empty()
    } else {
        links_text((n - 1) as nat) + link_text((n - 1) as nat)
    }
}

/// What stands before the declarations of the bands.
pub const CONFIG_HEAD: &'static str = "# PipeWire filter-chain for 10-band parametric EQ (auto-generated)
context.modules = [
    { name = libpipewire-module-filter-chain
        args = {
            node.name = \"soundsync-eq\"
            node.description = \"SoundSync Equalizer\"
            media.name = \"SoundSync EQ\"
            capture.props = {
                node.name = \"effect_input.soundsync-eq\"
                media.class = \"Audio/Sink\"
                audio.rate = 48000
                audio.channels = 2
                audio.position = [ FL FR ]
            }
            playback.props = {
                node.name = \"effect_output.soundsync-eq\"
                media.class = \"Stream/Output/Audio\"
                node.target = \"soundsync-capture\"
                audio.channels = 2
                audio.position = [ FL FR ]
            }
            filter.graph = {
                nodes = [
";

/// What stands between the declarations and the links.
pub const CONFIG_LINKS: &'static str = "                ]
                links = [
";

/// What stands between the links and the name of the first band.
pub const CONFIG_INPUT: &'static str = "                ]
                inputs  = [ \"";

/// What stands between the names of the first and the last band.
pub const CONFIG_OUTPUT: &'static str = ":In\" ]
                outputs = [ \"";

/// What stands after the name of the last band.
pub const CONFIG_TAIL: &'static str = ":Out\" ]
            }
        }
    }
]
";

/// The filter-chain configuration of these bands.
pub open spec fn config_text(bands: Seq<EqBand>, gains: Seq<Seq<char>>) -> Seq<char> {
    CONFIG_HEAD@ + nodes_text(bands, gains, bands.len()) + CONFIG_LINKS@ + links_text(bands.len())
        + CONFIG_INPUT@ + "eq_band_0"@ + CONFIG_OUTPUT@ + "eq_band_"@ + decimal(
        (bands.len() - 1) as nat,
    ) + CONFIG_TAIL@
}

/// Generate the PipeWire filter-chain configuration from EQ bands. `gains` holds
/// the gain of each band written with one decimal.
///
/// An empty chain would reference ports that do not exist, so there is at least
/// one band.
pub fn generate_filter_chain_config(bands: &[EqBand], gains: &[String]) -> (out: String)
    requires
        bands@.len() > 0,
        gains@.len() == bands@.len(),
    ensures
        out@ == config_text(bands@, views(gains@)),
{
    let mut nodes = String::new();
    let mut links = String::new();
    let mut i: usize = 0;
    while i < bands.len()
        invariant
            i <= bands@.len(),
            gains@.len() == bands@.len(),
            nodes@ == nodes_text(bands@, views(gains@), i as nat),
            links@ == links_text(i as nat),
        decreases bands@.len() - i,
    {
        let band = bands[i];
        let ghost g = views(gains@)[i as int];
        assert(g == gains@[i as int]@);
        let mut node = cat3(
            "                    { type = builtin  label = ",
            filter_label(band.filter_type),
            "  name = eq_band_",
        );
        node.append(render(i as u64).as_str());
        node.append("\n                      control = { \"Freq\" = ");
        node.append(render(band.freq as u64).as_str());
        node.append("  \"Q\" = ");
        node.append(render_three_decimals(band.q).as_str());
        node.append("  \"Gain\" = ");
        node.append(gains[i].as_str());
        node.append(" } }\n");
        assert(node@ == node_text(i as nat, band, g));
        nodes.append(node.as_str());
        if i > 0 {
            let mut link = cat2(
                "                    { output = \"eq_band_",
                render((i - 1) as u64).as_str(),
            );
            link.append(":Out\"  input = \"eq_band_");
            link.append(render(i as u64).as_str());
            link.append(":In\" }\n");
            assert(link@ == link_text(i as nat));
            links.append(link.as_str());
        }
        i = i + 1;
    }
    let mut out = cat3(CONFIG_HEAD, nodes.as_str(), CONFIG_LINKS);
    out.append(links.as_str());
    out.append(CONFIG_INPUT);
    out.append("eq_band_0");
    out.append(CONFIG_OUTPUT);
    out.append("eq_band_");
    out.append(render((bands.len() - 1) as u64).as_str());
    out.append(CONFIG_TAIL);
    out
}

/// The declarations of the bands from `i` up to `n`.
spec fn nodes_from(bands: Seq<EqBand>, gains: Seq<Seq<char>>, i: int, n: nat) -> Seq<char>
    decreases n,
{
    if i >= n || n == 0 {
        Seq::empty()
    } else {
        nodes_from(bands, gains, i, (n - 1) as nat) + node_text(
            (n - 1) as nat,
            bands[n - 1],
            gains[n - 1],
        )
    }
}

proof fn lemma_nodes_split(bands: Seq<EqBand>, gains: Seq<Seq<char>>, i: int, n: nat)
    requires
        0 <= i < n,
    ensures
        nodes_text(bands, gains, n) == nodes_text(bands, gains, i as nat) + node_text(
            i as nat,
            bands[i],
            gains[i],
        ) + nodes_from(bands, gains, i + 1, n),
    decreases n,
{
    let head = nodes_text(bands, gains, i as nat);
    let node = node_text(i as nat, bands[i], gains[i]);
    if i == n - 1 {
        assert(head + node + Seq::<char>::empty() =~= head + node);
    } else {
        lemma_nodes_split(bands, gains, i, (n - 1) as nat);
        let tail = nodes_from(bands, gains, i + 1, (n - 1) as nat);
        let last = node_text((n - 1) as nat, bands[n - 1], gains[n - 1]);
        assert(head + node + tail + last =~= head + node + (tail + last));
    }
}

/// What a configuration holds around the declaration of band `i`.
proof fn lemma_around_band(bands: Seq<EqBand>, gains: Seq<Seq<char>>, i: int) -> (r: (
    Seq<char>,
    Seq<char>,
))
    requires
        0 <= i < bands.len(),
    ensures
        config_text(bands, gains) == r.0 + node_text(i as nat, bands[i], gains[i]) + r.1,
        r.0 == CONFIG_HEAD@ + nodes_text(bands, gains, i as nat),
        r.1 == nodes_from(bands, gains, i + 1, bands.len()) + CONFIG_LINKS@ + links_text(
            bands.len(),
        ) + CONFIG_INPUT@ + "eq_band_0"@ + CONFIG_OUTPUT@ + "eq_band_"@ + decimal(
            (bands.len() - 1) as nat,
        ) + CONFIG_TAIL@,
{
    lemma_nodes_split(bands, gains, i, bands.len());
    let before = CONFIG_HEAD@ + nodes_text(bands, gains, i as nat);
    let rest = nodes_from(bands, gains, i + 1, bands.len());
    let last = decimal((bands.len() - 1) as nat);
    lemma_band_inside(
        CONFIG_HEAD@,
        nodes_text(bands, gains, i as nat),
        node_text(i as nat, bands[i], gains[i]),
        rest,
        CONFIG_LINKS@,
        links_text(bands.len()),
        CONFIG_INPUT@,
        "eq_band_0"@,
        CONFIG_OUTPUT@,
        "eq_band_"@,
        last,
        CONFIG_TAIL@,
    );
    (
        before,
        rest + CONFIG_LINKS@ + links_text(bands.len()) + CONFIG_INPUT@ + "eq_band_0"@
            + CONFIG_OUTPUT@ + "eq_band_"@ + last + CONFIG_TAIL@,
    )
}

proof fn lemma_band_inside(
    head: Seq<char>,
    earlier: Seq<char>,
    node: Seq<char>,
    later: Seq<char>,
    a: Seq<char>,
    b: Seq<char>,
    c: Seq<char>,
    d: Seq<char>,
    e: Seq<char>,
    f: Seq<char>,
    g: Seq<char>,
    h: Seq<char>,
)
    ensures
        head + (earlier + node + later) + a + b + c + d + e + f + g + h == (head + earlier) + node
            + (later + a + b + c + d + e + f + g + h),
{
    let s = head + earlier;
    let t = later + a + b + c + d;
    assert(head + (earlier + node + later) + a + b + c + d =~= s + node + t);
    assert((s + node + t) + e + f + g + h =~= s + node + (t + e + f + g + h));
}

proof fn lemma_nodes_agree(a: Seq<EqBand>, b: Seq<EqBand>, gains: Seq<Seq<char>>, i: int, n: nat)
    requires
        forall|k: int| i <= k < n ==> a[k] == #[trigger] b[k],
    ensures
        i == 0 ==> nodes_text(a, gains, n) == nodes_text(b, gains, n),
        nodes_from(a, gains, i, n) == nodes_from(b, gains, i, n),
    decreases n,
{
    if n > 0 {
        if i < n {
            assert(a[n - 1] == b[n - 1]);
        }
        lemma_nodes_agree(a, b, gains, i, (n - 1) as nat);
    }
}

/// Thousandths are written as a whole number and three more digits.
pub proof fn thousandths_read_back(q: u32)
    ensures
        exists|whole: Seq<char>, part: Seq<char>|
            three_decimals(q) == #[trigger] (whole + "."@ + part) && parsed(whole, u32::MAX as nat)
                == Some((q / 1000) as nat) && part.len() == 3 && (forall|k: int|
                0 <= k < 3 ==> 0x30 <= (#[trigger] part[k]) as u32 <= 0x39) && (part[0] as u32
                - 0x30) * 100 + (part[1] as u32 - 0x30) * 10 + (part[2] as u32 - 0x30) == q % 1000,
{
    let (x, y, z) = ((q % 1000) / 100, (q % 100) / 10, q % 10);
    written_numbers_read_back((q / 1000) as nat, u32::MAX as nat);
    digits_have_their_places(x as nat);
    digits_have_their_places(y as nat);
    digits_have_their_places(z as nat);
    let (a, b, c) = (
        decimal(x as nat).last(),
        decimal(y as nat).last(),
        decimal(z as nat).last(),
    );
    let whole = decimal((q / 1000) as nat);
    assert(decimal(x as nat) =~= seq![a]);
    assert(decimal(y as nat) =~= seq![b]);
    assert(decimal(z as nat) =~= seq![c]);
    let part = seq![a, b, c];
    assert(three_decimals(q) =~= whole + "."@ + part);
    assert(x * 100 + y * 10 + z == q % 1000);
}

/// Every band is declared under its own number, with the filter that its type names and
/// with its own frequency, quality factor and gain, each of which reads back as what it
/// is.
pub proof fn bands_are_declared_as_they_are(bands: Seq<EqBand>, gains: Seq<Seq<char>>, i: int)
    requires
        0 <= i < bands.len(),
        gains.len() == bands.len(),
    ensures
        exists|
            before: Seq<char>,
            filter: Seq<char>,
            freq: Seq<char>,
            q: Seq<char>,
            after: Seq<char>,
        |
            config_text(bands, gains) == #[trigger] (before + (
            "                    { type = builtin  label = "@ + filter + "  name = eq_band_"@
                + decimal(i as nat)
                + "\n                      control = { \"Freq\" = "@ + freq + "  \"Q\" = "@ + q
                + "  \"Gain\" = "@ + gains[i] + " } }\n"@) + after) && filter == (
            match bands[i].filter_type {
                FilterType::LowShelf => "bq_lowshelf"@,
                FilterType::Peaking => "bq_peaking"@,
                FilterType::HighShelf => "bq_highshelf"@,
            }) && parsed(
                freq,
                u32::MAX as nat,
            ) == Some(bands[i].freq as nat) && (forall|k: int|
                0 <= k < freq.len() ==> 0x30 <= (#[trigger] freq[k]) as u32 <= 0x39) && exists|
                whole: Seq<char>,
                part: Seq<char>,
            |
                q == #[trigger] (whole + "."@ + part) && parsed(whole, u32::MAX as nat) == Some(
                    (bands[i].q / 1000) as nat,
                ) && part.len() == 3 && (forall|k: int|
                    0 <= k < 3 ==> 0x30 <= (#[trigger] part[k]) as u32 <= 0x39) && (part[0] as u32
                    - 0x30) * 100 + (part[1] as u32 - 0x30) * 10 + (part[2] as u32 - 0x30)
                    == bands[i].q % 1000,
{
    let (before, after) = lemma_around_band(bands, gains, i);
    let freq = decimal(bands[i].freq as nat);
    let q = three_decimals(bands[i].q);
    written_numbers_read_back(bands[i].freq as nat, u32::MAX as nat);
    digits_have_their_places(bands[i].freq as nat);
    thousandths_read_back(bands[i].q);
    let filter = label(bands[i].filter_type);
    assert(config_text(bands, gains) == before + (
    "                    { type = builtin  label = "@ + filter + "  name = eq_band_"@ + decimal(i as nat)
        + "\n                      control = { \"Freq\" = "@ + freq + "  \"Q\" = "@ + q
        + "  \"Gain\" = "@ + gains[i] + " } }\n"@) + after);
}

/// Two lists of bands that differ in one frequency give different configurations.
pub proof fn frequencies_tell_configurations_apart(
    bands: Seq<EqBand>,
    gains: Seq<Seq<char>>,
    i: int,
    freq: u32,
)
    requires
        0 <= i < bands.len(),
        gains.len() == bands.len(),
        freq != bands[i].freq,
    ensures
        config_text(bands.update(i, EqBand { freq, ..bands[i] }), gains) != config_text(bands, gains),
{
    let other = bands.update(i, EqBand { freq, ..bands[i] });
    lemma_one_band_changed(bands, other, gains, i);
    let (before, after) = lemma_around_band(bands, gains, i);
    let x = decimal(bands[i].freq as nat);
    let y = decimal(freq as nat);
    written_numbers_read_back(bands[i].freq as nat, u32::MAX as nat);
    written_numbers_read_back(freq as nat, u32::MAX as nat);
    let tail = "  \"Q\" = "@ + three_decimals(bands[i].q) + "  \"Gain\" = "@ + gains[i] + " } }\n"@
        + after;
    let named = "                    { type = builtin  label = "@ + label(bands[i].filter_type)
        + "  name = eq_band_"@ + decimal(i as nat)
        + "\n                      control = { \"Freq\" = "@;
    lemma_regrouped(
        before,
        named,
        x,
        "  \"Q\" = "@,
        three_decimals(bands[i].q),
        "  \"Gain\" = "@,
        gains[i],
        " } }\n"@,
        after,
    );
    lemma_regrouped(
        before,
        named,
        y,
        "  \"Q\" = "@,
        three_decimals(bands[i].q),
        "  \"Gain\" = "@,
        gains[i],
        " } }\n"@,
        after,
    );
    lemma_middles_differ(before + named, x, y, tail);
}

/// The parts of a declaration, put together around the frequency, the quality factor and
/// the gain.
proof fn lemma_regrouped(
    before: Seq<char>,
    named: Seq<char>,
    freq: Seq<char>,
    a: Seq<char>,
    q: Seq<char>,
    b: Seq<char>,
    gain: Seq<char>,
    c: Seq<char>,
    after: Seq<char>,
)
    ensures
        before + (named + freq + a + q + b + gain + c) + after == (before + named) + freq + (a + q
            + b + gain + c + after),
        before + (named + freq + a + q + b + gain + c) + after == (before + (named + freq)) + a + q
            + b + (gain + c + after),
        before + (named + freq + a + q + b + gain + c) + after == (before + (named + freq) + a + q)
            + b + gain + c + after,
{
    let all = before + (named + freq + a + q + b + gain + c) + after;
    assert(all =~= (before + named) + freq + (a + q + b + gain + c + after));
    assert(all =~= (before + (named + freq)) + a + q + b + (gain + c + after));
    assert(all =~= (before + (named + freq) + a + q) + b + gain + c + after);
}

/// What stands around the declaration of a band does not depend on the band.
proof fn lemma_one_band_changed(
    bands: Seq<EqBand>,
    other: Seq<EqBand>,
    gains: Seq<Seq<char>>,
    i: int,
)
    requires
        0 <= i < bands.len(),
        other.len() == bands.len(),
        forall|k: int| 0 <= k < bands.len() && k != i ==> other[k] == #[trigger] bands[k],
    ensures
        nodes_text(other, gains, i as nat) == nodes_text(bands, gains, i as nat),
        nodes_from(other, gains, i + 1, bands.len()) == nodes_from(
            bands,
            gains,
            i + 1,
            bands.len(),
        ),
        config_text(other, gains) == CONFIG_HEAD@ + nodes_text(bands, gains, i as nat) + node_text(
            i as nat,
            other[i],
            gains[i],
        ) + (nodes_from(bands, gains, i + 1, bands.len()) + CONFIG_LINKS@ + links_text(bands.len())
            + CONFIG_INPUT@ + "eq_band_0"@ + CONFIG_OUTPUT@ + "eq_band_"@ + decimal(
            (bands.len() - 1) as nat,
        ) + CONFIG_TAIL@),
{
    lemma_nodes_agree(other, bands, gains, 0, i as nat);
    lemma_nodes_agree(other, bands, gains, i + 1, bands.len());
    let r = lemma_around_band(other, gains, i);
}

proof fn lemma_middles_differ(head: Seq<char>, x: Seq<char>, y: Seq<char>, tail: Seq<char>)
    requires
        x != y,
    ensures
        head + x + tail != head + y + tail,
{
    let a = head + x + tail;
    let b = head + y + tail;
    if a == b {
        assert(a.len() == b.len());
        assert(x =~= a.subrange(head.len() as int, head.len() as int + x.len()));
        assert(y =~= b.subrange(head.len() as int, head.len() as int + y.len()));
    }
}

/// A change of one quality factor changes the text of that factor and nothing else of
/// the configuration; and so it is with a gain.
pub proof fn changes_stay_in_their_field(
    bands: Seq<EqBand>,
    gains: Seq<Seq<char>>,
    i: int,
    q: u32,
    gain: Seq<char>,
)
    requires
        0 <= i < bands.len(),
        gains.len() == bands.len(),
    ensures
        exists|before: Seq<char>, after: Seq<char>|
            config_text(bands, gains) == #[trigger] (before + "  \"Q\" = "@ + three_decimals(
                bands[i].q,
            ) + "  \"Gain\" = "@ + after) && config_text(
                bands.update(i, EqBand { q, ..bands[i] }),
                gains,
            ) == before + "  \"Q\" = "@ + three_decimals(q) + "  \"Gain\" = "@ + after,
        exists|before: Seq<char>, after: Seq<char>|
            config_text(bands, gains) == #[trigger] (before + "  \"Gain\" = "@ + gains[i]
                + " } }\n"@ + after) && config_text(bands, gains.update(i, gain)) == before
                + "  \"Gain\" = "@ + gain + " } }\n"@ + after,
{
    let other = bands.update(i, EqBand { q, ..bands[i] });
    lemma_one_band_changed(bands, other, gains, i);
    let (pre, post) = lemma_around_band(bands, gains, i);
    let head = "                    { type = builtin  label = "@ + label(bands[i].filter_type)
        + "  name = eq_band_"@ + decimal(i as nat)
        + "\n                      control = { \"Freq\" = "@;
    let freq = decimal(bands[i].freq as nat);
    let named = pre + (head + freq);
    let rest = gains[i] + " } }\n"@ + post;
    lemma_regrouped(
        pre,
        head,
        freq,
        "  \"Q\" = "@,
        three_decimals(bands[i].q),
        "  \"Gain\" = "@,
        gains[i],
        " } }\n"@,
        post,
    );
    lemma_regrouped(
        pre,
        head,
        freq,
        "  \"Q\" = "@,
        three_decimals(q),
        "  \"Gain\" = "@,
        gains[i],
        " } }\n"@,
        post,
    );
    assert(config_text(bands, gains) == named + "  \"Q\" = "@ + three_decimals(bands[i].q)
        + "  \"Gain\" = "@ + rest);
    assert(config_text(other, gains) == named + "  \"Q\" = "@ + three_decimals(q)
        + "  \"Gain\" = "@ + rest);
    let louder = gains.update(i, gain);
    lemma_gains_agree(bands, gains, louder, 0, i as nat);
    lemma_gains_agree(bands, gains, louder, i + 1, bands.len());
    let r = lemma_around_band(bands, louder, i);
    lemma_regrouped(
        pre,
        head,
        freq,
        "  \"Q\" = "@,
        three_decimals(bands[i].q),
        "  \"Gain\" = "@,
        gain,
        " } }\n"@,
        post,
    );
    let factor = named + "  \"Q\" = "@ + three_decimals(bands[i].q);
    assert(config_text(bands, gains) == factor + "  \"Gain\" = "@ + gains[i] + " } }\n"@ + post);
    assert(config_text(bands, louder) == factor + "  \"Gain\" = "@ + gain + " } }\n"@ + post);
}

proof fn lemma_gains_agree(
    bands: Seq<EqBand>,
    a: Seq<Seq<char>>,
    b: Seq<Seq<char>>,
    i: int,
    n: nat,
)
    requires
        forall|k: int| i <= k < n ==> a[k] == #[trigger] b[k],
    ensures
        i == 0 ==> nodes_text(bands, a, n) == nodes_text(bands, b, n),
        nodes_from(bands, a, i, n) == nodes_from(bands, b, i, n),
    decreases n,
{
    if n > 0 {
        if i < n {
            assert(a[n - 1] == b[n - 1]);
        }
        lemma_gains_agree(bands, a, b, i, (n - 1) as nat);
    }
}

/// Every band but the first is fed from the one before it; the chain takes its input at
/// the first band and gives its output from the last.
pub proof fn bands_are_chained(bands: Seq<EqBand>, gains: Seq<Seq<char>>, i: int)
    requires
        0 < bands.len(),
    ensures
        0 < i < bands.len() ==> exists|before: Seq<char>, after: Seq<char>|
            config_text(bands, gains) == #[trigger] (before + ("{ output = \"eq_band_"@ + decimal(
                (i - 1) as nat,
            ) + ":Out\"  input = \"eq_band_"@ + decimal(i as nat) + ":In\" }\n"@) + after),
        exists|before: Seq<char>, after: Seq<char>|
            config_text(bands, gains) == #[trigger] (before
                + "inputs  = [ \"eq_band_0:In\" ]"@ + after),
        exists|before: Seq<char>, after: Seq<char>|
            config_text(bands, gains) == #[trigger] (before + ("outputs = [ \"eq_band_"@ + decimal(
                (bands.len() - 1) as nat,
            ) + ":Out\" ]"@) + after),
{
    let n = bands.len();
    let nodes = CONFIG_HEAD@ + nodes_text(bands, gains, n) + CONFIG_LINKS@;
    let last = decimal((n - 1) as nat);
    let (z, e) = ("eq_band_0"@, "eq_band_"@);
    lemma_ends();
    lemma_chain_ends(nodes, links_text(n), CONFIG_INPUT@, z, CONFIG_OUTPUT@, e, last, CONFIG_TAIL@);
    if 0 < i < n {
        let (b, a) = lemma_link(i, n);
        let ends = CONFIG_INPUT@ + z + CONFIG_OUTPUT@ + e + last + CONFIG_TAIL@;
        let open = "{ output = \"eq_band_"@;
        lemma_padded();
        let pad = "                    { output = \"eq_band_"@.take(20);
        lemma_chain_link(
            nodes,
            b,
            pad,
            open,
            decimal((i - 1) as nat),
            ":Out\"  input = \"eq_band_"@,
            decimal(i as nat),
            ":In\" }\n"@,
            a,
            ends,
        );
    }
}

/// The text around the first and the last name, put together around each of them.
proof fn lemma_chain_ends(
    nodes: Seq<char>,
    links: Seq<char>,
    input: Seq<char>,
    z: Seq<char>,
    output: Seq<char>,
    e: Seq<char>,
    last: Seq<char>,
    tail: Seq<char>,
)
    requires
        input.len() >= 13,
        output.len() >= 19,
        tail.len() >= 7,
    ensures
        nodes + links + input + z + output + e + last + tail == nodes + links + (input + z + output
            + e + last + tail),
        nodes + links + input + z + output + e + last + tail == (nodes + links + input.take(
            input.len() - 13,
        )) + (input.skip(input.len() - 13) + z + output.take(6)) + (output.skip(6) + e + last
            + tail),
        nodes + links + input + z + output + e + last + tail == (nodes + links + input + z
            + output.take(output.len() - 13)) + ((output.skip(output.len() - 13) + e) + last
            + tail.take(7)) + tail.skip(7),
{
    let all = nodes + links + input + z + output + e + last + tail;
    assert(all =~= nodes + links + (input + z + output + e + last + tail));
    assert(input =~= input.take(input.len() - 13) + input.skip(input.len() - 13));
    assert(output =~= output.take(6) + output.skip(6));
    assert(all =~= (nodes + links + input.take(input.len() - 13)) + (input.skip(input.len() - 13) + z
        + output.take(6)) + (output.skip(6) + e + last + tail));
    assert(output =~= output.take(output.len() - 13) + output.skip(output.len() - 13));
    assert(tail =~= tail.take(7) + tail.skip(7));
    assert(all =~= (nodes + links + input + z + output.take(output.len() - 13)) + ((output.skip(
        output.len() - 13,
    ) + e) + last + tail.take(7)) + tail.skip(7));
}

/// The text around a link, put together around it.
proof fn lemma_chain_link(
    nodes: Seq<char>,
    b: Seq<char>,
    pad: Seq<char>,
    open: Seq<char>,
    x: Seq<char>,
    m: Seq<char>,
    y: Seq<char>,
    c: Seq<char>,
    a: Seq<char>,
    ends: Seq<char>,
)
    ensures
        nodes + (b + ((pad + open) + x + m + y + c) + a) + ends == (nodes + b + pad) + (open + x + m
            + y + c) + (a + ends),
{
    let core = open + x + m + y + c;
    assert((pad + open) + x + m + y + c =~= pad + core);
    assert(nodes + (b + (pad + core) + a) + ends =~= (nodes + b + pad) + core + (a + ends));
}

proof fn lemma_padded()
    ensures
        "                    { output = \"eq_band_"@
            == "                    { output = \"eq_band_"@.take(20) + "{ output = \"eq_band_"@,
{
    reveal_strlit("                    { output = \"eq_band_");
    reveal_strlit("{ output = \"eq_band_");
    assert("                    { output = \"eq_band_"@
        =~= "                    { output = \"eq_band_"@.take(20) + "{ output = \"eq_band_"@);
}

proof fn lemma_link(i: int, n: nat) -> (r: (Seq<char>, Seq<char>))
    requires
        0 < i < n,
    ensures
        links_text(n) == r.0 + link_text(i as nat) + r.1,
    decreases n,
{
    if i == n - 1 {
        assert(links_text(n) =~= links_text((n - 1) as nat) + link_text(i as nat) + Seq::<
            char,
        >::empty());
        (links_text((n - 1) as nat), Seq::empty())
    } else {
        let (b, a) = lemma_link(i, (n - 1) as nat);
        let last = link_text((n - 1) as nat);
        assert(links_text(n) =~= b + link_text(i as nat) + (a + last));
        (b, a + last)
    }
}

/// How the parts around the names of the first and the last band begin and end.
proof fn lemma_ends()
    ensures
        CONFIG_INPUT@.len() >= 13,
        CONFIG_OUTPUT@.len() >= 19,
        CONFIG_TAIL@.len() >= 7,
        CONFIG_INPUT@.skip(CONFIG_INPUT@.len() - 13) + "eq_band_0"@ + CONFIG_OUTPUT@.take(6)
            == "inputs  = [ \"eq_band_0:In\" ]"@,
        CONFIG_OUTPUT@.skip(CONFIG_OUTPUT@.len() - 13) + "eq_band_"@ == "outputs = [ \"eq_band_"@,
        CONFIG_TAIL@.take(7) == ":Out\" ]"@,
{
    reveal_strlit(
        "                ]
                inputs  = [ \"",
    );
    reveal_strlit(
        ":In\" ]
                outputs = [ \"",
    );
    reveal_strlit(
        ":Out\" ]
            }
        }
    }
]
",
    );
    reveal_strlit("eq_band_0");
    reveal_strlit("eq_band_");
    reveal_strlit("inputs  = [ \"eq_band_0:In\" ]");
    reveal_strlit("outputs = [ \"eq_band_");
    reveal_strlit(":Out\" ]");
    assert(CONFIG_INPUT@.skip(CONFIG_INPUT@.len() - 13) + "eq_band_0"@ + CONFIG_OUTPUT@.take(6)
        =~= "inputs  = [ \"eq_band_0:In\" ]"@);
    assert(CONFIG_OUTPUT@.skip(CONFIG_OUTPUT@.len() - 13) + "eq_band_"@
        =~= "outputs = [ \"eq_band_"@);
    assert(CONFIG_TAIL@.take(7) =~= ":Out\" ]"@);
}

/// Flat gains leave every one of the ten bands at zero and otherwise as it is.
pub proof fn flat_bands_have_no_gain(i: int, gains: Seq<u32>)
    requires
        0 <= i < 10,
    ensures
        flat_gains().len() == 10,
        bands_with(flat_gains()).len() == 10,
        bands_with(flat_gains())[i].gain_db == 0,
        bands_with(flat_gains())[i].freq == bands_with(gains)[i].freq,
        bands_with(flat_gains())[i].q == bands_with(gains)[i].q,
        bands_with(flat_gains())[i].filter_type == bands_with(gains)[i].filter_type,
        bands_with(gains)[i].gain_db == gains[i],
{
}

} // verus!
