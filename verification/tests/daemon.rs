use soundsync::audio::pw::capture_cmd::CaptureTool;
use soundsync::audio::pw::events::GraphEvent;
use soundsync::daemon::{bring_up, detect_capture_tool, plan_capture, plan_command, start_up, BringUpStep, DaemonAction, DaemonCommand, DesiredRoute, LoopAction, LoopEvent, Reconciler, EQ_SINK_NAME, IDENTIFY_SCRIPT};
use soundsync::sys::command::CommandOutput;
use soundsync::sys::testing::FakeCommandRunner;

fn ok(stdout: &str) -> CommandOutput {
    CommandOutput {
        status: 0,
        stdout: stdout.into(),
        stderr: String::new(),
    }
}

const EXISTING: &str = "Module #7\n\tName: module-null-sink\n\tArgument: sink_name=soundsync-capture\n";

fn brought_up(runner: &mut FakeCommandRunner, route: &DesiredRoute) -> Result<(), String> {
    let mut tried = 0;
    loop {
        match bring_up(runner, route, tried) {
            BringUpStep::Done(r) => return r,
            BringUpStep::Retry { tried: t, .. } => tried = t,
        }
    }
}

fn issued(runner: &FakeCommandRunner, sub: &str) -> usize {
    runner
        .calls()
        .iter()
        .filter(|(p, a)| p == "pactl" && a.iter().any(|x| x == sub))
        .count()
}

#[test]
fn detects_parec_first_then_pwcat() {
    let mut parec = FakeCommandRunner::new().on("which", &["parec"], ok(""));
    assert_eq!(detect_capture_tool(&mut parec), Some(CaptureTool::Parec));

    let mut pwcat = FakeCommandRunner::new().on("which", &["pw-cat"], ok(""));
    assert_eq!(detect_capture_tool(&mut pwcat), Some(CaptureTool::PwCat));

    assert_eq!(detect_capture_tool(&mut FakeCommandRunner::new()), None);
}

#[test]
fn bring_up_ensures_sink_then_routes() {
    let mut runner = FakeCommandRunner::new()
        .on("pactl", &["list", "modules"], ok(""))
        .on("pactl", &["load-module"], ok("42"))
        .on(
            "pactl",
            &["short", "sinks"],
            ok("42\tsoundsync-capture\tPipeWire\tfloat32le 2ch 48000Hz\tSUSPENDED\n"),
        )
        .on("pactl", &["set-default-sink"], ok(""));
    brought_up(&mut runner, &DesiredRoute::default()).unwrap();
    assert_eq!(issued(&runner, "load-module"), 1);
    assert_eq!(issued(&runner, "set-default-sink"), 1);
}

#[test]
fn bring_up_routes_to_eq_sink_when_desired() {
    let mut runner = FakeCommandRunner::new()
        .on("pactl", &["list", "modules"], ok(EXISTING))
        .on("pactl", &["set-default-sink"], ok(""));
    let route = DesiredRoute { default_sink: EQ_SINK_NAME.to_string() };
    brought_up(&mut runner, &route).unwrap();

    let calls = runner.calls();
    let sink_calls: Vec<_> = calls
        .iter()
        .filter(|(p, a)| p == "pactl" && a.iter().any(|x| x == "set-default-sink"))
        .collect();
    assert_eq!(sink_calls.len(), 1);
    assert!(sink_calls[0].1.contains(&EQ_SINK_NAME.to_string()));
}

#[test]
fn bring_up_fails_if_null_sink_cannot_be_created() {
    let mut runner = FakeCommandRunner::new()
        .on("pactl", &["list", "modules"], ok(""))
        .on(
            "pactl",
            &["load-module"],
            CommandOutput {
                status: 1,
                stdout: String::new(),
                stderr: "boom".into(),
            },
        )
        .on("pactl", &["short", "sinks"], ok("other\n"))
        .on("pactl", &["set-default-sink"], ok(""));
    assert!(brought_up(&mut runner, &DesiredRoute::default()).is_err());
    assert_eq!(issued(&runner, "set-default-sink"), 0);
}

#[test]
fn only_startup_sweeps_duplicates() {
    let modules = "7\tmodule-null-sink\tsink_name=soundsync-capture\n8\tmodule-null-sink\tsink_name=soundsync-capture\n";
    let runner = || {
        FakeCommandRunner::new()
            .on("pactl", &["list", "short", "modules"], ok(modules))
            .on("pactl", &["list", "modules"], ok(EXISTING))
            .on("pactl", &["unload-module"], ok(""))
            .on("pactl", &["set-default-sink"], ok(""))
    };
    let mut later = runner();
    assert_eq!(bring_up(&mut later, &DesiredRoute::default(), 0), BringUpStep::Done(Ok(())));
    assert_eq!(issued(&later, "unload-module"), 0);
    let mut first = runner();
    assert_eq!(start_up(&mut first, &DesiredRoute::default(), 0), BringUpStep::Done(Ok(())));
    assert_eq!(issued(&first, "unload-module"), 1);
    let calls = first.calls();
    assert_eq!(calls[2].1, vec!["unload-module", "8"]);
    assert_eq!(calls[3].1, vec!["set-default-sink", "soundsync-capture"]);
}

#[test]
fn the_capture_plan_follows_the_clock() {
    let mut runner = FakeCommandRunner::new()
        .on("which", &["parec"], ok(""))
        .on("pw-metadata", &["settings"], ok("key:'clock.quantum' value:'2048'\n"));
    let cmd = plan_capture(&mut runner).unwrap();
    assert_eq!(cmd.program, "parec");
    assert_eq!(cmd.args[4], "--device=soundsync-capture.monitor");
    assert_eq!(cmd.args[5], "--latency-msec=86");
    assert_eq!(
        plan_capture(&mut FakeCommandRunner::new()).unwrap_err(),
        "no capture tool found (need parec or pw-cat)"
    );
}

#[test]
fn reconcile_loop_debounces_burst_into_one_reassert() {
    let mut r = Reconciler::new();
    let actions: Vec<LoopAction> = [
        LoopEvent::Graph(GraphEvent::Sink),
        LoopEvent::Graph(GraphEvent::Server),
        LoopEvent::Graph(GraphEvent::Sink),
        LoopEvent::WindowOver,
        LoopEvent::Shutdown,
    ]
    .into_iter()
    .map(|e| r.on_event(e))
    .collect();
    assert_eq!(
        actions,
        vec![
            LoopAction::StartWindow,
            LoopAction::Wait,
            LoopAction::Wait,
            LoopAction::Reconcile,
            LoopAction::Stop,
        ]
    );
}

#[test]
fn reconcile_loop_returns_on_shutdown_with_no_events() {
    assert_eq!(Reconciler::new().on_event(LoopEvent::Shutdown), LoopAction::Stop);
}

#[test]
fn a_source_that_ends_is_reconciled_once_more() {
    let mut r = Reconciler::new();
    assert_eq!(r.on_event(LoopEvent::Graph(GraphEvent::Sink)), LoopAction::StartWindow);
    assert_eq!(r.on_event(LoopEvent::SourceGone), LoopAction::Reconcile);
    assert_eq!(r.on_event(LoopEvent::SourceGone), LoopAction::Stop);
}

#[test]
fn commands_are_planned() {
    assert_eq!(plan_command(DaemonCommand::ReassertRouting), DaemonAction::BringUp);
    assert_eq!(
        plan_command(DaemonCommand::Identify),
        DaemonAction::Spawn {
            program: "sh".to_string(),
            args: vec!["-c".to_string(), IDENTIFY_SCRIPT.to_string()],
        }
    );
    assert!(IDENTIFY_SCRIPT.starts_with("ffmpeg -f lavfi -i sine=frequency=880:duration=1 -ac 2 "));
    assert!(IDENTIFY_SCRIPT.ends_with("--target=soundsync-capture - 2>/dev/null"));
}
