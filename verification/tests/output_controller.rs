use soundsync::output::controller::{find_device, load_raop_discover, CastTarget, OutputController, DEFAULT_CAST_PORT};
use soundsync::output::{AvailableOutputs, OutputCommand, OutputDevice, OutputKind};
use soundsync::state::{CastHealth, OutputState};
use soundsync::sys::command::CommandOutput;
use soundsync::sys::testing::FakeCommandRunner;

fn make_soundcard(id: &str) -> OutputDevice {
    OutputDevice {
        kind: OutputKind::Soundcard,
        id: id.to_string(),
        name: id.to_string(),
        addr: None,
        port: None,
    }
}

fn ok(stdout: &str) -> CommandOutput {
    CommandOutput {
        status: 0,
        stdout: stdout.to_string(),
        stderr: String::new(),
    }
}

fn fail(stderr: &str) -> CommandOutput {
    CommandOutput {
        status: 1,
        stdout: String::new(),
        stderr: stderr.to_string(),
    }
}

fn runner_with_sinks(sinks: &str, module_id: u32) -> FakeCommandRunner {
    FakeCommandRunner::new()
        .on("pactl", &["list", "short", "sinks"], ok(sinks))
        .on("pactl", &["load-module"], ok(&format!("{module_id}\n")))
        .on("pactl", &["unload-module"], ok(""))
}

fn runner_with_soundcard(sink: &str) -> FakeCommandRunner {
    runner_with_sinks(
        &format!("0\t{sink}\tmodule-alsa-card\ts16le 2ch\tSUSPENDED\n"),
        536870913,
    )
}

fn runner_with_airplay(sink: &str) -> FakeCommandRunner {
    runner_with_sinks(
        &format!("0\t{sink}\tmodule-raop-sink\ts16le 2ch 44100Hz\tSUSPENDED\n"),
        536870913,
    )
}

fn runner_with_chromecast(addr: &str, port: u16, id: &str) -> FakeCommandRunner {
    let avahi = format!(
        "=;eth0;IPv4;Cast;_googlecast._tcp;local;host.local;{addr};{port};\
         \"fn=Test Cast\" \"id={id}\"\n"
    );
    FakeCommandRunner::new()
        .on("avahi-browse", &["_googlecast._tcp"], ok(&avahi))
        .on("pactl", &["list", "short", "sinks"], ok(""))
        .on("pactl", &["load-module"], ok("200\n"))
        .on("pactl", &["unload-module"], ok(""))
}

fn select(kind: OutputKind, id: &str) -> OutputCommand {
    OutputCommand::Select { kind, id: id.to_string() }
}

fn run_controller(runner: &mut FakeCommandRunner, commands: Vec<OutputCommand>) -> OutputState {
    let mut c = OutputController::start(runner, "192.168.1.1".to_string(), 8080);
    for command in commands {
        let _ = c.handle(runner, command);
    }
    let state = c.state();
    c.shutdown(runner);
    state
}

fn count(runner: &FakeCommandRunner, sub: &str) -> usize {
    runner
        .calls()
        .iter()
        .filter(|(p, args)| p == "pactl" && args.iter().any(|a| a == sub))
        .count()
}

#[test]
fn find_device_returns_matching_soundcard() {
    let device = make_soundcard("alsa_output.test");
    let available = AvailableOutputs {
        soundcard: vec![device.clone()],
        airplay: vec![],
        chromecast: vec![],
    };
    assert_eq!(
        find_device(&available, &OutputKind::Soundcard, "alsa_output.test"),
        Some(device)
    );
}

#[test]
fn find_device_returns_none_for_unknown_id() {
    let available = AvailableOutputs::default();
    assert_eq!(
        find_device(&available, &OutputKind::Soundcard, "ghost"),
        None
    );
}

#[test]
fn select_soundcard_becomes_active_with_loopback() {
    let mut runner = runner_with_soundcard("alsa_output.speaker");
    let output = run_controller(
        &mut runner,
        vec![select(OutputKind::Soundcard, "alsa_output.speaker")],
    );
    assert_eq!(output.active.unwrap().id, "alsa_output.speaker");
    assert!(count(&runner, "load-module") > 0);
}

#[test]
fn select_unknown_sink_still_becomes_active_with_synthesised_device() {
    let mut runner = runner_with_soundcard("alsa_output.speaker");
    let output = run_controller(
        &mut runner,
        vec![select(OutputKind::Soundcard, "alsa_output.other")],
    );
    assert_eq!(output.active.unwrap().id, "alsa_output.other");
}

#[test]
fn none_command_clears_active() {
    let mut runner = runner_with_soundcard("alsa_output.speaker");
    let output = run_controller(
        &mut runner,
        vec![
            select(OutputKind::Soundcard, "alsa_output.speaker"),
            OutputCommand::Clear,
        ],
    );
    assert!(output.active.is_none());
    assert!(count(&runner, "unload-module") > 0);
}

#[test]
fn switching_soundcard_teardowns_previous_loopback() {
    let mut runner = runner_with_sinks(
        "0\talsa_output.a\tmodule-alsa-card\ts16le 2ch\tSUSPENDED\n\
         1\talsa_output.b\tmodule-alsa-card\ts16le 2ch\tSUSPENDED\n",
        100,
    );
    let output = run_controller(
        &mut runner,
        vec![
            select(OutputKind::Soundcard, "alsa_output.a"),
            select(OutputKind::Soundcard, "alsa_output.b"),
        ],
    );
    assert_eq!(
        output.active.map(|d| d.id).as_deref(),
        Some("alsa_output.b")
    );
    assert_eq!(count(&runner, "load-module"), 3);
    assert_eq!(count(&runner, "unload-module"), 3);
}

#[test]
fn load_module_failure_reverts_to_none() {
    let mut runner = FakeCommandRunner::new()
        .on(
            "pactl",
            &["list", "short", "sinks"],
            ok("0\talsa_output.speaker\tmodule-alsa-card\ts16le 2ch\tSUSPENDED\n"),
        )
        .on("pactl", &["load-module"], fail("module not found"));
    let output = run_controller(
        &mut runner,
        vec![select(OutputKind::Soundcard, "alsa_output.speaker")],
    );
    assert!(output.active.is_none());
}

#[test]
fn unparseable_module_id_reverts_active_to_none() {
    let mut runner = FakeCommandRunner::new()
        .on(
            "pactl",
            &["list", "short", "sinks"],
            ok("0\talsa_output.speaker\tmodule-alsa-card\ts16le 2ch\tSUSPENDED\n"),
        )
        .on("pactl", &["load-module"], ok("Module #100\n"));
    let output = run_controller(
        &mut runner,
        vec![select(OutputKind::Soundcard, "alsa_output.speaker")],
    );
    assert!(output.active.is_none());
}

#[test]
fn select_airplay_becomes_active_with_loopback() {
    let sink = "raop_sink.HP-L.local.192.168.1.107.7000";
    let mut runner = runner_with_airplay(sink);
    let output = run_controller(&mut runner, vec![select(OutputKind::Airplay, sink)]);
    let dev = output.active.expect("expected active AirPlay device");
    assert_eq!(dev.kind, OutputKind::Airplay);
    assert_eq!(dev.id, sink);
    assert_eq!(count(&runner, "load-module"), 2);
}

#[test]
fn raop_discover_loaded_on_startup_and_unloaded_on_shutdown() {
    let mut runner = runner_with_soundcard("alsa_output.speaker");
    run_controller(&mut runner, vec![]);
    let calls = runner.calls();
    assert!(calls.iter().any(|(p, args)| {
        p == "pactl"
            && args.iter().any(|a| a == "load-module")
            && args.iter().any(|a| a == "module-raop-discover")
    }));
    assert!(calls.iter().any(|(p, args)| {
        p == "pactl"
            && args.iter().any(|a| a == "unload-module")
            && args.iter().any(|a| a == "536870913")
    }));
}

#[test]
fn airplay_routes_like_soundcard_same_loopback_mechanism() {
    let soundcard_sink = "alsa_output.usb-FiiO";
    let airplay_sink = "raop_sink.Lounge.local.192.168.1.232.7000";
    let mut runner = runner_with_sinks(
        &format!(
            "0\t{soundcard_sink}\tmodule-alsa-card\ts16le\tSUSPENDED\n\
             1\t{airplay_sink}\tmodule-raop-sink\ts16le\tSUSPENDED\n"
        ),
        42,
    );
    let output = run_controller(
        &mut runner,
        vec![
            select(OutputKind::Soundcard, soundcard_sink),
            select(OutputKind::Airplay, airplay_sink),
        ],
    );
    let dev = output.active.expect("expected active output after airplay select");
    assert_eq!(dev.kind, OutputKind::Airplay);
    assert_eq!(dev.id, airplay_sink);
    assert_eq!(count(&runner, "load-module"), 3);
}

#[test]
fn airplay_loopback_failure_reverts_active_to_none() {
    let sink = "raop_sink.HP-L.local.192.168.1.107.7000";
    let mut runner = FakeCommandRunner::new()
        .on(
            "pactl",
            &["list", "short", "sinks"],
            ok(&format!("0\t{sink}\tmodule-raop-sink\ts16le 2ch 44100Hz\tSUSPENDED\n")),
        )
        .on("pactl", &["load-module", "module-raop-discover"], ok("999\n"))
        .on("pactl", &["load-module", "module-loopback"], fail("loopback failed"))
        .on("pactl", &["unload-module"], ok(""));
    let output = run_controller(&mut runner, vec![select(OutputKind::Airplay, sink)]);
    assert!(output.active.is_none());
}

#[test]
fn dead_cast_session_clears_active_on_tick() {
    let id = "deadcast01";
    let mut runner = runner_with_chromecast("127.0.0.1", 1, id);
    let mut c = OutputController::start(&mut runner, "192.168.1.1".to_string(), 8080);
    let order = c.handle(&mut runner, select(OutputKind::Chromecast, id));
    assert!(!order.stop);
    assert_eq!(
        order.start,
        Some(CastTarget {
            addr: "127.0.0.1".to_string(),
            port: 1,
            url: "http://192.168.1.1:8080/api/stream/audio.aac".to_string(),
        })
    );
    assert!(c.state().active.is_some());
    assert_eq!(c.state().cast_health, Some(CastHealth::Connecting));
    c.cast_checked(false);
    assert!(c.state().active.is_some());
    c.cast_checked(true);
    assert!(c.state().active.is_none());
    assert_eq!(c.state().cast_health, Some(CastHealth::Lost));
}

#[test]
fn a_running_cast_is_stopped_by_the_next_command() {
    let mut runner = runner_with_chromecast("10.0.0.9", 8009, "cast1");
    let mut c = OutputController::start(&mut runner, "192.168.1.1".to_string(), 8080);
    let _ = c.handle(&mut runner, select(OutputKind::Chromecast, "cast1"));
    let order = c.handle(&mut runner, OutputCommand::Clear);
    assert!(order.stop);
    assert!(order.start.is_none());
    assert_eq!(DEFAULT_CAST_PORT, 8009);
}

#[test]
fn casting_needs_an_address_of_our_own() {
    let mut runner = runner_with_chromecast("10.0.0.9", 8009, "cast1");
    let mut c = OutputController::start(&mut runner, String::new(), 8080);
    let order = c.handle(&mut runner, select(OutputKind::Chromecast, "cast1"));
    assert!(order.start.is_none());
    assert!(c.state().active.is_none());
    assert_eq!(c.state().cast_health, None);
}

#[test]
fn a_refresh_keeps_the_active_device() {
    let mut runner = runner_with_soundcard("alsa_output.speaker");
    let mut c = OutputController::start(&mut runner, String::new(), 8080);
    let _ = c.handle(&mut runner, select(OutputKind::Soundcard, "alsa_output.speaker"));
    c.refresh(&mut FakeCommandRunner::new());
    assert_eq!(c.state().active.unwrap().id, "alsa_output.speaker");
    assert!(c.state().available.soundcard.is_empty());
}

#[test]
fn raop_discover_already_loaded_is_adopted_and_unloaded_on_shutdown() {
    let adopted_id = "77";
    let rows = format!("7\tmodule-always-sink\t\n{adopted_id}\tmodule-raop-discover\t\n");
    let mut runner = FakeCommandRunner::new()
        .on(
            "pactl",
            &["load-module", "module-raop-discover"],
            fail("Failure: Module already loaded"),
        )
        .on("pactl", &["list", "short", "modules"], ok(&rows))
        .on("pactl", &["list", "short", "sinks"], ok(""))
        .on("pactl", &["unload-module"], ok(""));
    run_controller(&mut runner, vec![]);
    let calls = runner.calls();
    let issued = |a: &str, b: &str| {
        calls.iter().any(|(p, args)| {
            p == "pactl" && args.iter().any(|x| x == a) && args.iter().any(|x| x == b)
        })
    };
    assert!(issued("load-module", "module-raop-discover"));
    assert!(issued("list", "modules"));
    assert!(issued("unload-module", adopted_id));
}

#[test]
fn without_raop_discover_there_is_nothing_to_unload() {
    let mut runner = FakeCommandRunner::new().with_error("pactl");
    assert_eq!(load_raop_discover(&mut runner), None);
}
