use soundsync::audio::pw::parse::{find_wpctl_node_id, is_name_char, line_contains_node_token, parse_all_null_sink_module_ids, parse_null_sink_module_id};

#[test]
fn wpctl_node_id_found_among_lines() {
    let output = "\
Audio
 ├─ Sinks:
 │  *   42. Built-in Audio Analog Stereo [vol: 1.00]
 │      40. soundsync-capture            [vol: 1.00]
";
    assert_eq!(find_wpctl_node_id(output, "soundsync-capture"), Some(40));
}

#[test]
fn wpctl_node_id_ignores_monitor_and_source_variants() {
    let output = "\
 ├─ Sources:
 │      55. soundsync-capture.monitor     [vol: 1.00]
 ├─ Sinks:
 │      40. soundsync-capture             [vol: 1.00]
";
    assert_eq!(find_wpctl_node_id(output, "soundsync-capture"), Some(40));
    assert_eq!(
        find_wpctl_node_id(
            " │  55. soundsync-capture-source [vol: 1.00]\n",
            "soundsync-capture"
        ),
        None
    );
}

#[test]
fn wpctl_node_id_with_default_star() {
    assert_eq!(
        find_wpctl_node_id(
            " │  *   40. soundsync-capture [vol: 0.50]\n",
            "soundsync-capture"
        ),
        Some(40)
    );
}

#[test]
fn wpctl_node_id_not_found() {
    assert_eq!(
        find_wpctl_node_id(" │  42. Built-in Audio [vol: 1.00]\n", "soundsync-capture"),
        None
    );
}

#[test]
fn null_sink_module_id_found() {
    let output = "\
Module #10
	Name: module-something-else
	Argument: foo=bar
Module #23
	Name: module-null-sink
	Argument: sink_name=soundsync-capture sink_properties=device.description=SoundSync-Capture
";
    assert_eq!(
        parse_null_sink_module_id(output, "soundsync-capture"),
        Some(23)
    );
}

#[test]
fn null_sink_module_id_ignores_non_null_sink_and_other_names() {
    let output = "\
Module #10
	Name: module-null-sink
	Argument: sink_name=other-sink
Module #11
	Name: module-loopback
	Argument: sink=soundsync-capture
";
    assert_eq!(parse_null_sink_module_id(output, "soundsync-capture"), None);
}

#[test]
fn all_null_sink_ids_matches_every_duplicate_by_arg_not_name() {
    let output = "\
10\tmodule-something-else\tfoo=bar
536870917\tmodule-null-sink\tsink_name=soundsync-capture sink_properties=device.description=SoundSync-Capture
536870918\tmodule-null-sink\tsink_name=soundsync-capture sink_properties=device.description=SoundSync-Capture
22\tmodule-null-sink\tsink_name=other-sink
23\tmodule-loopback\tsink=soundsync-capture
";
    assert_eq!(
        parse_all_null_sink_module_ids(output, "soundsync-capture"),
        vec![536870917, 536870918]
    );
}

#[test]
fn all_null_sink_ids_zero_and_one_matches() {
    assert_eq!(
        parse_all_null_sink_module_ids(
            "7\tmodule-null-sink\tsink_name=other\n",
            "soundsync-capture"
        ),
        Vec::<u32>::new()
    );
    assert_eq!(
        parse_all_null_sink_module_ids(
            "7\tmodule-null-sink\tsink_name=soundsync-capture sink_properties=device.description=SoundSync-Capture\n",
            "soundsync-capture"
        ),
        vec![7]
    );
}

#[test]
fn all_null_sink_ids_does_not_match_longer_sink_name_prefix() {
    let output = "\
7\tmodule-null-sink\tsink_name=soundsync-capture-other
8\tmodule-null-sink\tsink_name=soundsync-capture
";
    assert_eq!(
        parse_all_null_sink_module_ids(output, "soundsync-capture"),
        vec![8]
    );
}

#[test]
fn node_tokens_stand_alone() {
    assert!(line_contains_node_token("a soundsync b", "soundsync"));
    assert!(line_contains_node_token("soundsync", "soundsync"));
    assert!(!line_contains_node_token("xsoundsync", "soundsync"));
    assert!(line_contains_node_token("xsoundsync soundsync", "soundsync"));
    assert!(!line_contains_node_token("", "soundsync"));
}

#[test]
fn name_characters_go_beyond_ascii() {
    for c in ['a', 'Z', '0', '.', '-', '_', '\u{e9}'] {
        assert!(is_name_char(c));
    }
    for c in [' ', '*', '[', '\u{2502}'] {
        assert!(!is_name_char(c));
    }
    assert!(!line_contains_node_token("\u{e9}soundsync", "soundsync"));
}
