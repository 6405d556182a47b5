use soundsync::dsp::eq::{clamp_bits, default_bands, generate_filter_chain_config, EqBand, FilterType, MAX_GAIN_DB, MIN_GAIN_DB, NUM_BANDS};

fn rendered(bands: &[EqBand]) -> Vec<String> {
    bands.iter().map(|b| format!("{:.1}", f32::from_bits(b.gain_db))).collect()
}

#[test]
fn default_bands_shape() {
    let b = default_bands();
    assert_eq!(b.len(), NUM_BANDS);
    assert_eq!(b[0].freq as f32, 60.0);
    assert_eq!(b[4].freq as f32, 1000.0);
    assert_eq!(b[9].freq as f32, 16000.0);
    assert_eq!(b[0].filter_type, FilterType::LowShelf);
    assert_eq!(b[9].filter_type, FilterType::HighShelf);
    assert!(b[1..9].iter().all(|x| x.filter_type == FilterType::Peaking));
    assert!(b.iter().all(|x| f32::from_bits(x.gain_db) == 0.0));
    assert_eq!(b[0].q as f32 / 1000.0, 0.707);
    assert_eq!(b[1].q as f32 / 1000.0, 1.414);
    assert_eq!(b[7].q as f32 / 1000.0, 1.820);
    assert_eq!(b[8].q as f32 / 1000.0, 2.870);
    assert_eq!(b[9].q as f32 / 1000.0, 0.707);
}

#[test]
fn config_contains_load_bearing_fields() {
    let bands = default_bands();
    let cfg = generate_filter_chain_config(&bands, &rendered(&bands));
    for needle in [
        "effect_input.soundsync-eq",
        "effect_output.soundsync-eq",
        "node.target = \"soundsync-capture\"",
        "audio.rate = 48000",
        "audio.position = [ FL FR ]",
        "\"Freq\" =",
        "\"Q\" =",
        "inputs  = [ \"eq_band_0:In\" ]",
        "outputs = [ \"eq_band_9:Out\" ]",
    ] {
        assert!(cfg.contains(needle), "missing: {needle}");
    }
}

#[test]
fn gains_are_rendered() {
    let mut b = default_bands().to_vec();
    b[0].gain_db = 6.0f32.to_bits();
    b[9].gain_db = (-3.0f32).to_bits();
    let cfg = generate_filter_chain_config(&b, &rendered(&b));
    assert!(cfg.contains("\"Gain\" = 6.0"));
    assert!(cfg.contains("\"Gain\" = -3.0"));
}

#[test]
fn clamp_gain_bounds() {
    let mut band = EqBand {
        freq: 1000,
        gain_db: 20.0f32.to_bits(),
        q: 1000,
        filter_type: FilterType::Peaking,
    };
    band.clamp_gain();
    assert_eq!(f32::from_bits(band.gain_db), 12.0);
    band.gain_db = (-20.0f32).to_bits();
    band.clamp_gain();
    assert_eq!(f32::from_bits(band.gain_db), -12.0);
}

#[test]
fn clamping_bits_is_clamping_numbers() {
    assert_eq!(f32::from_bits(MIN_GAIN_DB), -12.0);
    assert_eq!(f32::from_bits(MAX_GAIN_DB), 12.0);
    for x in [
        0.0f32, -0.0, 0.1, -0.1, 11.999, -11.999, 12.0, -12.0, 12.001, -12.001, 1e30, -1e30,
        f32::INFINITY, f32::NEG_INFINITY, f32::MIN_POSITIVE,
    ] {
        let expected = x.clamp(-12.0, 12.0);
        assert_eq!(clamp_bits(x.to_bits()), expected.to_bits(), "{x}");
    }
    assert!(f32::from_bits(clamp_bits(f32::NAN.to_bits())).is_nan());
}
