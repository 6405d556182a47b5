use soundsync::bluetooth::adapter::{set_class_of_device, set_hci_name, ADAPTER_COD};
use soundsync::sys::command::CommandOutput;
use soundsync::sys::testing::FakeCommandRunner;

fn ok() -> CommandOutput {
    CommandOutput {
        status: 0,
        stdout: String::new(),
        stderr: String::new(),
    }
}

#[test]
fn sets_audio_class_of_device() {
    let mut runner = FakeCommandRunner::new().on("hciconfig", &["class"], ok());
    set_class_of_device(&mut runner, "hci0").unwrap();
    let (prog, args) = &runner.calls()[0];
    assert_eq!(prog, "hciconfig");
    assert_eq!(
        args,
        &vec![
            "hci0".to_string(),
            "class".to_string(),
            ADAPTER_COD.to_string()
        ]
    );
}

#[test]
fn sets_hci_name() {
    let mut runner = FakeCommandRunner::new().on("hciconfig", &["name"], ok());
    set_hci_name(&mut runner, "hci0", "SoundSync").unwrap();
    assert_eq!(
        runner.calls()[0].1,
        vec![
            "hci0".to_string(),
            "name".to_string(),
            "SoundSync".to_string()
        ]
    );
}

#[test]
fn class_of_device_decodes_as_audio_video_rendering() {
    let cod = u32::from_str_radix(ADAPTER_COD.trim_start_matches("0x"), 16).unwrap();
    assert_eq!(
        (cod >> 8) & 0x1f,
        0b00100,
        "major device class must be Audio/Video"
    );
    assert_ne!(cod & (1 << 21), 0, "Audio service class bit must be set");
}

#[test]
fn spawn_error_returns_failed_to_run_hciconfig() {
    let mut runner = FakeCommandRunner::new().with_error("hciconfig");
    let err = set_class_of_device(&mut runner, "hci0").unwrap_err();
    assert!(
        err.contains("failed to run hciconfig"),
        "expected 'failed to run hciconfig' in error, got: {err}"
    );
}

#[test]
fn errors_propagate() {
    let mut runner = FakeCommandRunner::new().on(
        "hciconfig",
        &["class"],
        CommandOutput {
            status: 1,
            stdout: String::new(),
            stderr: "no such device".into(),
        },
    );
    assert!(set_class_of_device(&mut runner, "hci9").is_err());
}

#[test]
fn a_failed_hciconfig_is_told_with_its_arguments() {
    let mut runner = FakeCommandRunner::new().with(
        "hciconfig",
        CommandOutput {
            status: 1,
            stdout: String::new(),
            stderr: " busy \n".to_string(),
        },
    );
    assert_eq!(
        set_hci_name(&mut runner, "hci0", "a \"b\"").unwrap_err(),
        "hciconfig [\"hci0\", \"name\", \"a \\\"b\\\"\"] failed: busy"
    );
}
