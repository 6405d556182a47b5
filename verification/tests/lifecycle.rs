use soundsync::lifecycle::{classify_task_exit, probe_lan_ip, resolve_shutdown_timeout, TaskExit, DEFAULT_SHUTDOWN_TIMEOUT_SECS};
use soundsync::sys::command::CommandOutput;
use soundsync::sys::testing::FakeCommandRunner;

#[test]
fn default_backstop_is_below_unit_timeout_stop_sec() {
    assert!(DEFAULT_SHUTDOWN_TIMEOUT_SECS < 15);
}

#[test]
fn classify_task_exit_fatal_when_not_shutting_down() {
    assert_eq!(
        classify_task_exit(false, "spectrum"),
        TaskExit::Fatal("spectrum".to_string())
    );
}

#[test]
fn classify_task_exit_expected_during_shutdown() {
    assert_eq!(classify_task_exit(true, "web"), TaskExit::Expected);
}

#[test]
fn shutdown_timeouts_are_positive_whole_seconds() {
    assert_eq!(resolve_shutdown_timeout(None), 8);
    assert_eq!(resolve_shutdown_timeout(Some(" 12 ")), 12);
    assert_eq!(resolve_shutdown_timeout(Some("0")), 8);
    assert_eq!(resolve_shutdown_timeout(Some("-3")), 8);
    assert_eq!(resolve_shutdown_timeout(Some("soon")), 8);
    assert_eq!(resolve_shutdown_timeout(Some("18446744073709551615")), u64::MAX);
    assert_eq!(resolve_shutdown_timeout(Some("18446744073709551616")), 8);
}

#[test]
fn the_lan_address_comes_from_hostname() {
    let out = |status: i32, stdout: &str| CommandOutput {
        status,
        stdout: stdout.to_string(),
        stderr: String::new(),
    };
    let mut runner = FakeCommandRunner::new().on("hostname", &["-I"], out(0, "fe80::1 10.0.0.5 \n"));
    assert_eq!(probe_lan_ip(&mut runner), "10.0.0.5");
    let mut runner = FakeCommandRunner::new().on("hostname", &["-I"], out(1, "10.0.0.5"));
    assert_eq!(probe_lan_ip(&mut runner), "");
    assert_eq!(probe_lan_ip(&mut FakeCommandRunner::new().with_error("hostname")), "");
}
