use soundsync::bluetooth::audio_node::{bluez_input_addresses, has_bluez_input_node, probe_bluez_input, probe_bluez_input_addresses};
use soundsync::sys::command::CommandOutput;
use soundsync::sys::testing::FakeCommandRunner;

fn out(stdout: &str) -> CommandOutput {
    CommandOutput {
        status: 0,
        stdout: stdout.to_string(),
        stderr: String::new(),
    }
}

#[test]
fn detects_bluez_input_source() {
    let sources = "42\tbluez_input.AA_BB_CC_DD_EE_FF.a2dp-source\tPipeWire\ts16le 2ch 48000Hz\tRUNNING\n\
                       43\talsa_input.platform-soc.analog-stereo\tPipeWire\ts16le 2ch 44100Hz\tSUSPENDED";
    assert!(has_bluez_input_node(sources));
}

#[test]
fn no_bluez_input_when_only_other_sources() {
    let sources =
        "43\talsa_input.platform-soc.analog-stereo\tPipeWire\ts16le 2ch 44100Hz\tSUSPENDED\n\
                       44\tsoundsync-capture.monitor\tPipeWire\tfloat32le 2ch 48000Hz\tIDLE";
    assert!(!has_bluez_input_node(sources));
}

#[test]
fn empty_output_has_no_node() {
    assert!(!has_bluez_input_node(""));
}

#[test]
fn extracts_mac_from_bluez_input_node() {
    let sources = "50\tbluez_input.AA_BB_CC_DD_EE_FF.a2dp-source\tPipeWire\ts16le\tRUNNING\n\
                       51\talsa_input.platform.analog-stereo\tPipeWire\ts16le\tIDLE";
    assert_eq!(
        bluez_input_addresses(sources),
        vec!["AA:BB:CC:DD:EE:FF".to_string()]
    );
}

#[test]
fn extracts_multiple_and_ignores_non_bluez() {
    let sources = "1\tbluez_input.11_22_33_44_55_66.a2dp-source\tPipeWire\ts16le\tRUNNING\n\
                       2\tsoundsync-capture.monitor\tPipeWire\tfloat32le\tIDLE\n\
                       3\tbluez_input.AA_BB_CC_DD_EE_FF\tPipeWire\ts16le\tRUNNING";
    assert_eq!(
        bluez_input_addresses(sources),
        vec![
            "11:22:33:44:55:66".to_string(),
            "AA:BB:CC:DD:EE:FF".to_string()
        ]
    );
}

#[test]
fn no_addresses_when_none_present() {
    assert!(bluez_input_addresses("3\talsa_input.x\tPipeWire\ts16le\tIDLE").is_empty());
}

#[test]
fn probe_runs_pactl_and_reports_present() {
    let mut runner = FakeCommandRunner::new().on(
        "pactl",
        &["list", "short", "sources"],
        out("50\tbluez_input.11_22_33_44_55_66.a2dp-source\tPipeWire\ts16le\tRUNNING"),
    );
    assert!(probe_bluez_input(&mut runner).unwrap());
    let (prog, args) = &runner.calls()[0];
    assert_eq!(prog, "pactl");
    assert_eq!(args, &vec!["list", "short", "sources"]);
    assert_eq!(
        probe_bluez_input_addresses(&mut runner).unwrap(),
        vec!["11:22:33:44:55:66".to_string()]
    );
}

#[test]
fn probe_reports_absent() {
    let mut runner = FakeCommandRunner::new().on(
        "pactl",
        &["list", "short", "sources"],
        out("43\talsa_input.platform-soc.analog-stereo\tPipeWire\ts16le 2ch 44100Hz\tSUSPENDED"),
    );
    assert!(!probe_bluez_input(&mut runner).unwrap());
    let (prog, args) = &runner.calls()[0];
    assert_eq!(prog, "pactl");
    assert_eq!(args, &vec!["list", "short", "sources"]);
}

#[test]
fn probe_propagates_command_error() {
    let mut runner = FakeCommandRunner::new().with(
        "pactl",
        CommandOutput {
            status: 1,
            stdout: String::new(),
            stderr: "connection refused".into(),
        },
    );
    assert!(probe_bluez_input(&mut runner).is_err());
}

#[test]
fn probed_addresses_come_once_and_in_order() {
    let mut runner = FakeCommandRunner::new().on(
        "pactl",
        &["list", "short", "sources"],
        out("1\tbluez_input.BB_00.0\n2\tbluez_input.AA_00.0\n3\tbluez_input.BB_00.1\n4\tbluez_input.AB.0\n"),
    );
    assert_eq!(
        probe_bluez_input_addresses(&mut runner).unwrap(),
        vec!["AA:00".to_string(), "AB".to_string(), "BB:00".to_string()]
    );
}
