use soundsync::capabilities::version::{ConfigFormat, WpVersion};

#[test]
fn parse_known_outputs() {
    assert_eq!(
        WpVersion::parse("wireplumber 0.4.17"),
        Some(WpVersion { major: 0, minor: 4 })
    );
    assert_eq!(
        WpVersion::parse("0.5.2"),
        Some(WpVersion { major: 0, minor: 5 })
    );
    assert_eq!(
        WpVersion::parse("WirePlumber\n0.5.0\n..."),
        Some(WpVersion { major: 0, minor: 5 })
    );
}

#[test]
fn unparseable_is_none() {
    assert_eq!(WpVersion::parse("garbage"), None);
}

#[test]
fn config_format_decision() {
    assert_eq!(
        WpVersion { major: 0, minor: 4 }.config_format(),
        ConfigFormat::Lua
    );
    assert_eq!(
        WpVersion { major: 0, minor: 5 }.config_format(),
        ConfigFormat::SpaJson
    );
    assert_eq!(
        WpVersion { major: 1, minor: 0 }.config_format(),
        ConfigFormat::SpaJson
    );
}

#[test]
fn a_word_needs_two_numbers() {
    assert_eq!(WpVersion::parse("v0.5 5 x.1 1.x"), None);
    assert_eq!(WpVersion::parse("5. 0.5x 7.8.9"), Some(WpVersion { major: 7, minor: 8 }));
}
