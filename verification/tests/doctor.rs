use soundsync::doctor::{run_checks, run_checks_on, Check, CheckStatus, DoctorReport};
use soundsync::sys::command::CommandOutput;
use soundsync::sys::testing::{FakeCommandRunner, FakeFs};

fn all_ok_runner() -> FakeCommandRunner {
    FakeCommandRunner::new()
        .with(
            "sh",
            CommandOutput {
                status: 0,
                stdout: "/usr/bin/binary".to_string(),
                stderr: String::new(),
            },
        )
        .with(
            "wireplumber",
            CommandOutput {
                status: 0,
                stdout: "wireplumber 0.5.2".to_string(),
                stderr: String::new(),
            },
        )
        .with(
            "pactl",
            CommandOutput {
                status: 0,
                stdout: "Server Name: PipeWire".to_string(),
                stderr: String::new(),
            },
        )
        .with(
            "hciconfig",
            CommandOutput {
                status: 0,
                stdout: "hci0: ...".to_string(),
                stderr: String::new(),
            },
        )
}

fn all_ok_fs() -> FakeFs {
    FakeFs::new()
        .with_file(
            "/etc/wireplumber/wireplumber.conf.d/51-soundsync.conf",
            "# config",
        )
        .with_file("/usr/share/soundsync/webui/index.html", "<!DOCTYPE html>")
}

#[test]
fn all_present_report_is_ok() {
    let mut runner = all_ok_runner();
    let mut fs = all_ok_fs();
    let report = run_checks(&mut runner, &mut fs, "/usr/share/soundsync/webui");
    assert!(
        report.ok(),
        "all-present report should be ok; checks: {:?}",
        report
            .checks
            .iter()
            .map(|c| (&c.name, &c.status, &c.detail))
            .collect::<Vec<_>>()
    );
    assert_eq!(report.checks.len(), 5);
    assert!(report.checks.iter().all(|c| c.status == CheckStatus::Pass));
}

#[test]
fn missing_binary_gives_fail() {
    let mut runner = FakeCommandRunner::new()
        .with(
            "sh",
            CommandOutput {
                status: 1,
                stdout: String::new(),
                stderr: String::new(),
            },
        )
        .with(
            "wireplumber",
            CommandOutput {
                status: 0,
                stdout: "wireplumber 0.5.2".to_string(),
                stderr: String::new(),
            },
        )
        .with(
            "pactl",
            CommandOutput {
                status: 0,
                stdout: "ok".to_string(),
                stderr: String::new(),
            },
        )
        .with(
            "hciconfig",
            CommandOutput {
                status: 0,
                stdout: "ok".to_string(),
                stderr: String::new(),
            },
        );
    let mut fs = all_ok_fs();
    let report = run_checks(&mut runner, &mut fs, "/usr/share/soundsync/webui");

    let bin_check = report
        .checks
        .iter()
        .find(|c| c.name == "binaries")
        .expect("binaries check must exist");
    assert_eq!(bin_check.status, CheckStatus::Fail);
    assert!(!report.ok());
}

#[test]
fn missing_wp_config_gives_fail() {
    let mut runner = all_ok_runner();
    let mut fs =
        FakeFs::new().with_file("/usr/share/soundsync/webui/index.html", "<!DOCTYPE html>");
    let report = run_checks(&mut runner, &mut fs, "/usr/share/soundsync/webui");

    let wp_check = report
        .checks
        .iter()
        .find(|c| c.name == "wp-config")
        .expect("wp-config check must exist");
    assert_eq!(wp_check.status, CheckStatus::Fail);
    assert!(wp_check.detail.contains("apply-wireplumber-config"));
    assert!(!report.ok());
}

#[test]
fn missing_bt_adapter_gives_warn_not_fail() {
    let mut runner = FakeCommandRunner::new()
        .with(
            "sh",
            CommandOutput {
                status: 0,
                stdout: "/usr/bin/x".to_string(),
                stderr: String::new(),
            },
        )
        .with(
            "wireplumber",
            CommandOutput {
                status: 0,
                stdout: "wireplumber 0.5.2".to_string(),
                stderr: String::new(),
            },
        )
        .with(
            "pactl",
            CommandOutput {
                status: 0,
                stdout: "ok".to_string(),
                stderr: String::new(),
            },
        )
        ;
    let mut fs = all_ok_fs();
    let report = run_checks(&mut runner, &mut fs, "/usr/share/soundsync/webui");

    let bt_check = report
        .checks
        .iter()
        .find(|c| c.name == "bt-adapter")
        .expect("bt-adapter check must exist");
    assert_eq!(bt_check.status, CheckStatus::Warn);
    assert!(
        report.ok(),
        "missing adapter is only a Warn; report should be ok"
    );
}

#[test]
fn missing_web_dir_gives_warn_not_fail() {
    let mut runner = all_ok_runner();
    let mut fs = FakeFs::new().with_file(
        "/etc/wireplumber/wireplumber.conf.d/51-soundsync.conf",
        "# config",
    );
    let report = run_checks(&mut runner, &mut fs, "/usr/share/soundsync/webui");

    let web_check = report
        .checks
        .iter()
        .find(|c| c.name == "web-dir")
        .expect("web-dir check must exist");
    assert_eq!(web_check.status, CheckStatus::Warn);
    assert!(web_check.detail.contains("SOUNDSYNC_WEB_DIR"));
    assert!(
        report.ok(),
        "missing web dir is only a Warn; report should be ok"
    );
}

#[test]
fn ok_logic_warn_does_not_fail_fail_does() {
    let report_with_warn = DoctorReport {
        checks: vec![Check {
            name: "test".to_string(),
            status: CheckStatus::Warn,
            detail: "something".to_string(),
        }],
    };
    assert!(report_with_warn.ok());

    let report_with_fail = DoctorReport {
        checks: vec![Check {
            name: "test".to_string(),
            status: CheckStatus::Fail,
            detail: "something".to_string(),
        }],
    };
    assert!(!report_with_fail.ok());
}

#[test]
fn display_format_uses_icons() {
    let report = DoctorReport {
        checks: vec![
            Check {
                name: "a".to_string(),
                status: CheckStatus::Pass,
                detail: "all good".to_string(),
            },
            Check {
                name: "b".to_string(),
                status: CheckStatus::Warn,
                detail: "watch out".to_string(),
            },
            Check {
                name: "c".to_string(),
                status: CheckStatus::Fail,
                detail: "broken".to_string(),
            },
        ],
    };
    let s = report.text();
    assert!(s.contains('✓'), "Pass should use ✓");
    assert!(s.contains('⚠'), "Warn should use ⚠");
    assert!(s.contains('✗'), "Fail should use ✗");
    assert!(s.contains("[a]"));
    assert!(s.contains("[b]"));
    assert!(s.contains("[c]"));
}

#[test]
fn the_report_is_told_line_by_line() {
    let report = DoctorReport {
        checks: vec![
            Check { name: "a".into(), status: CheckStatus::Pass, detail: "one".into() },
            Check { name: "b".into(), status: CheckStatus::Warn, detail: "two".into() },
            Check { name: "c".into(), status: CheckStatus::Fail, detail: "three".into() },
        ],
    };
    assert_eq!(report.text(), "\u{2713} [a] one\n\u{26a0} [b] two\n\u{2717} [c] three\n");
    assert!(!report.ok());
}

#[test]
fn all_missing_binaries_are_named_in_order() {
    let mut runner = FakeCommandRunner::new();
    let mut fs = FakeFs::new();
    let report = run_checks_on(&mut runner, &mut fs, "/web", "hci1");
    assert_eq!(
        report.checks[0].detail,
        "missing: parec, pw-cat, pactl, wpctl, pw-link, pw-metadata, ffmpeg, hciconfig, pipewire, wireplumber"
    );
    assert_eq!(report.checks[3].detail, "no hci1 adapter");
    assert_eq!(report.checks[4].detail, "SPA not found at /web; set SOUNDSYNC_WEB_DIR");
    assert_eq!(runner.calls().len(), 13);
    assert_eq!(runner.calls()[0].1, vec!["-c", "command -v parec"]);
}
