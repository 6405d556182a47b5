use soundsync::audio::pw::routing::{set_default_sink, unload_module, DefaultSink};
use soundsync::sys::command::CommandOutput;
use soundsync::sys::testing::FakeCommandRunner;

fn ok(stdout: &str) -> CommandOutput {
    CommandOutput {
        status: 0,
        stdout: stdout.into(),
        stderr: String::new(),
    }
}

fn fail() -> CommandOutput {
    CommandOutput {
        status: 1,
        stdout: String::new(),
        stderr: "nope".into(),
    }
}

#[test]
fn sets_default_via_pactl_when_it_succeeds() {
    let mut runner = FakeCommandRunner::new().on("pactl", &["set-default-sink"], ok(""));
    assert_eq!(
        set_default_sink(&mut runner, "soundsync-capture").unwrap(),
        DefaultSink::Pactl
    );
    assert!(!runner.ran("wpctl"));
}

#[test]
fn falls_back_to_wpctl_when_pactl_fails() {
    let status = " │      40. soundsync-capture [vol: 1.00]\n";
    let mut runner = FakeCommandRunner::new()
        .on("pactl", &["set-default-sink"], fail())
        .on("wpctl", &["status"], ok(status))
        .on("wpctl", &["set-default"], ok(""));
    assert_eq!(
        set_default_sink(&mut runner, "soundsync-capture").unwrap(),
        DefaultSink::Wpctl(40)
    );
}

#[test]
fn errors_when_wpctl_cannot_find_node() {
    let mut runner = FakeCommandRunner::new()
        .on("pactl", &["set-default-sink"], fail())
        .on("wpctl", &["status"], ok("no matching node here\n"));
    assert!(set_default_sink(&mut runner, "soundsync-capture").is_err());
}

#[test]
fn unload_module_ok_and_err() {
    let mut ok_runner = FakeCommandRunner::new().on("pactl", &["unload-module"], ok(""));
    assert!(unload_module(&mut ok_runner, 7).is_ok());
    let mut bad_runner = FakeCommandRunner::new().on("pactl", &["unload-module"], fail());
    assert!(unload_module(&mut bad_runner, 7).is_err());
}

#[test]
fn routing_errors_say_what_failed() {
    let mut runner = FakeCommandRunner::new().with_error("pactl").with_error("wpctl");
    let err = set_default_sink(&mut runner, "s").unwrap_err();
    assert!(err.starts_with("wpctl status failed: "), "{err}");

    let mut runner = FakeCommandRunner::new();
    assert_eq!(
        set_default_sink(&mut runner, "s").unwrap_err(),
        "cannot set default sink s: pactl failed and `wpctl status` failed"
    );

    let mut runner = FakeCommandRunner::new().on("wpctl", &["status"], ok("1. other\n"));
    assert_eq!(set_default_sink(&mut runner, "s").unwrap_err(), "s not found in `wpctl status`");

    let mut runner = FakeCommandRunner::new()
        .on("wpctl", &["status"], ok(" 40. s [vol: 1.00]\n"))
        .on("wpctl", &["set-default"], fail());
    assert_eq!(set_default_sink(&mut runner, "s").unwrap_err(), "`wpctl set-default 40` failed: nope");
    let calls = runner.calls();
    assert_eq!(calls[2].1, vec!["set-default", "40"]);
}

#[test]
fn unloading_errors_say_what_failed() {
    let mut runner = FakeCommandRunner::new().on("pactl", &["unload-module"], fail());
    assert_eq!(unload_module(&mut runner, 7).unwrap_err(), "unload-module 7 failed: nope");
    let mut runner = FakeCommandRunner::new().with_error("pactl");
    assert!(unload_module(&mut runner, 7).unwrap_err().starts_with("failed to run pactl: "));
}

#[test]
fn the_empty_name_is_found_nowhere() {
    let mut runner = FakeCommandRunner::new().on("pactl", &["set-default-sink"], ok(""));
    assert_eq!(set_default_sink(&mut runner, "").unwrap(), DefaultSink::Pactl);
    assert!(!runner.ran("wpctl"));

    let mut runner = FakeCommandRunner::new().on("wpctl", &["status"], ok(" 40. s [vol: 1.00]\n"));
    assert_eq!(set_default_sink(&mut runner, "").unwrap_err(), " not found in `wpctl status`");
    assert_eq!(runner.calls().len(), 2);
}
