use soundsync::audio::pw::null_sink::{ensure_null_sink, sweep_duplicate_null_sinks, EnsureStep, NullSink, MAX_ATTEMPTS};
use soundsync::sys::command::CommandOutput;
use soundsync::sys::testing::FakeCommandRunner;

fn ok(stdout: &str) -> CommandOutput {
    CommandOutput {
        status: 0,
        stdout: stdout.into(),
        stderr: String::new(),
    }
}

fn fail(stderr: &str) -> CommandOutput {
    CommandOutput {
        status: 1,
        stdout: String::new(),
        stderr: stderr.into(),
    }
}

#[test]
fn sweep_unloads_every_duplicate_but_the_canonical() {
    let short_modules = "\
10\tmodule-something-else\tfoo=bar
536870917\tmodule-null-sink\tsink_name=soundsync-capture sink_properties=device.description=SoundSync-Capture
536870918\tmodule-null-sink\tsink_name=soundsync-capture sink_properties=device.description=SoundSync-Capture
22\tmodule-null-sink\tsink_name=other-sink
23\tmodule-loopback\tsink=soundsync-capture
";
    let mut runner = FakeCommandRunner::new()
        .on("pactl", &["short", "modules"], ok(short_modules))
        .on("pactl", &["unload-module"], ok(""));
    let n = sweep_duplicate_null_sinks(&mut runner, "soundsync-capture", 536870917);
    assert_eq!(n, 1);
    let unloads: Vec<Vec<String>> = runner
        .calls()
        .into_iter()
        .filter(|(p, a)| p == "pactl" && a.iter().any(|x| x == "unload-module"))
        .map(|(_, a)| a)
        .collect();
    assert_eq!(unloads.len(), 1);
    assert!(unloads[0].iter().any(|x| x == "536870918"));
    assert!(!unloads[0].iter().any(|x| x == "536870917"));
}

#[test]
fn sweep_is_noop_when_only_the_canonical_exists() {
    let short_modules =
        "7\tmodule-null-sink\tsink_name=soundsync-capture sink_properties=device.description=SoundSync-Capture\n";
    let mut runner = FakeCommandRunner::new()
        .on("pactl", &["short", "modules"], ok(short_modules))
        .on("pactl", &["unload-module"], ok(""));
    assert_eq!(
        sweep_duplicate_null_sinks(&mut runner, "soundsync-capture", 7),
        0
    );
    assert!(!runner
        .calls()
        .iter()
        .any(|(p, a)| p == "pactl" && a.iter().any(|x| x == "unload-module")));
}

#[test]
fn sweep_is_best_effort_on_unload_failure() {
    let short_modules = "\
1\tmodule-null-sink\tsink_name=soundsync-capture
2\tmodule-null-sink\tsink_name=soundsync-capture
3\tmodule-null-sink\tsink_name=soundsync-capture
";
    let mut runner = FakeCommandRunner::new()
        .on("pactl", &["short", "modules"], ok(short_modules))
        .on("pactl", &["unload-module"], fail("busy"));
    assert_eq!(
        sweep_duplicate_null_sinks(&mut runner, "soundsync-capture", 1),
        0
    );
    let attempts = runner
        .calls()
        .iter()
        .filter(|(p, a)| p == "pactl" && a.iter().any(|x| x == "unload-module"))
        .count();
    assert_eq!(attempts, 2);
}

#[test]
fn sweep_skips_when_module_list_unavailable() {
    let mut runner = FakeCommandRunner::new().on("pactl", &["short", "modules"], fail("no pa"));
    assert_eq!(
        sweep_duplicate_null_sinks(&mut runner, "soundsync-capture", 7),
        0
    );
    assert!(!runner
        .calls()
        .iter()
        .any(|(p, a)| p == "pactl" && a.iter().any(|x| x == "unload-module")));
}

fn ensured(runner: &mut FakeCommandRunner) -> (Result<NullSink, String>, Vec<u64>) {
    let mut tried = 0;
    let mut waits = Vec::new();
    loop {
        match ensure_null_sink(runner, "soundsync-capture", "SoundSync-Capture", tried) {
            EnsureStep::Done(r) => return (r, waits),
            EnsureStep::Retry { tried: t, after_secs } => {
                tried = t;
                waits.push(after_secs);
            }
        }
    }
}

fn loads(runner: &FakeCommandRunner) -> usize {
    runner
        .calls()
        .iter()
        .filter(|(p, a)| p == "pactl" && a.iter().any(|x| x == "load-module"))
        .count()
}

#[test]
fn reuses_existing_null_sink() {
    let modules = "Module #7\n\tName: module-null-sink\n\tArgument: sink_name=soundsync-capture\n";
    let mut runner = FakeCommandRunner::new().on("pactl", &["list", "modules"], ok(modules));
    let (r, _) = ensured(&mut runner);
    assert_eq!(r.unwrap(), NullSink { module_id: Some(7), reused: true });
    assert_eq!(loads(&runner), 0);
}

#[test]
fn creates_when_absent_and_verifies() {
    let mut runner = FakeCommandRunner::new()
        .on("pactl", &["list", "modules"], ok(""))
        .on("pactl", &["load-module"], ok("42"))
        .on(
            "pactl",
            &["short", "sinks"],
            ok("42\tsoundsync-capture\tPipeWire\tfloat32le 2ch 48000Hz\tSUSPENDED\n"),
        );
    let (r, _) = ensured(&mut runner);
    assert_eq!(r.unwrap(), NullSink { module_id: Some(42), reused: false });
    assert_eq!(loads(&runner), 1);
    assert_eq!(
        runner.calls()[1].1,
        vec![
            "load-module",
            "module-null-sink",
            "sink_name=soundsync-capture",
            "sink_properties=device.description=SoundSync-Capture",
        ]
    );
}

#[test]
fn errors_after_max_attempts_when_load_keeps_failing() {
    let mut runner = FakeCommandRunner::new()
        .on("pactl", &["list", "modules"], ok(""))
        .on("pactl", &["load-module"], fail("pa not ready"))
        .on("pactl", &["short", "sinks"], ok("99\tother\n"));
    let (r, waits) = ensured(&mut runner);
    let err = r.unwrap_err();
    assert!(err.contains("soundsync-capture"));
    assert!(err.contains("pa not ready"));
    assert_eq!(
        err,
        "null sink soundsync-capture not created after 10 attempts; last error: pa not ready"
    );
    assert_eq!(loads(&runner), MAX_ATTEMPTS as usize);
    assert_eq!(waits, vec![1, 2, 3, 4, 5, 5, 5, 5, 5]);
}

#[test]
fn loaded_but_not_verified_reports_accurate_error() {
    let mut runner = FakeCommandRunner::new()
        .on("pactl", &["list", "modules"], ok(""))
        .on("pactl", &["load-module"], ok("42"))
        .on("pactl", &["short", "sinks"], ok("99\tother\n"));
    let err = ensured(&mut runner).0.unwrap_err();
    assert!(err.contains("was loaded"));
    assert!(err.contains("did not appear"));
    assert!(err.contains("(module Some(42))"));
    assert_eq!(loads(&runner), 1);
}

#[test]
fn an_id_that_cannot_be_read_is_looked_up() {
    let mut runner = FakeCommandRunner::new()
        .on("pactl", &["list", "modules"], ok(""))
        .on("pactl", &["load-module"], ok("done"))
        .on("pactl", &["short", "sinks"], ok("1\tsoundsync-capture\n"));
    let (r, _) = ensured(&mut runner);
    assert_eq!(r.unwrap(), NullSink { module_id: None, reused: false });
    assert_eq!(runner.calls().len(), 4);
}

#[test]
fn a_missing_pactl_is_told() {
    let mut runner = FakeCommandRunner::new().with_error("pactl");
    assert!(ensured(&mut runner).0.unwrap_err().starts_with("failed to run pactl: "));
}
