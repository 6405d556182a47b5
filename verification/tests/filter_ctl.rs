use soundsync::audio::pw::filter_ctl::{build_gain_params, eq_node_id_in, find_eq_node_id, probe_eq_node_id, set_eq_gains, wait_for_eq_node, NodeWait};
use soundsync::json::from_text;
use soundsync::sys::command::CommandOutput;
use soundsync::sys::testing::FakeCommandRunner;

fn ok(stdout: &str) -> CommandOutput {
    CommandOutput {
        status: 0,
        stdout: stdout.into(),
        stderr: String::new(),
    }
}

fn fail() -> CommandOutput {
    CommandOutput {
        status: 1,
        stdout: String::new(),
        stderr: "nope".into(),
    }
}

fn rendered(gains: &[f32]) -> Vec<String> {
    gains.iter().map(|g| format!("{g:.1}")).collect()
}

const SAMPLE_PW_DUMP: &str = r#"[
  {
    "id": 7,
    "type": "PipeWire:Interface:Node",
    "info": {
      "props": {
        "node.name": "other-node"
      }
    }
  },
  {
    "id": 42,
    "type": "PipeWire:Interface:Node",
    "info": {
      "props": {
        "node.name": "effect_input.soundsync-eq",
        "media.class": "Audio/Sink"
      }
    }
  },
  {
    "id": 43,
    "type": "PipeWire:Interface:Node",
    "info": {
      "props": {
        "node.name": "effect_output.soundsync-eq"
      }
    }
  }
]"#;

#[test]
fn find_eq_node_id_present() {
    assert_eq!(find_eq_node_id(SAMPLE_PW_DUMP), Some(42));
}

#[test]
fn find_eq_node_id_absent() {
    let json = r#"[{"id":1,"info":{"props":{"node.name":"unrelated"}}}]"#;
    assert_eq!(find_eq_node_id(json), None);
}

#[test]
fn find_eq_node_id_malformed_json() {
    assert_eq!(find_eq_node_id("not json"), None);
    assert_eq!(find_eq_node_id("{}"), None);
    assert_eq!(find_eq_node_id("[]"), None);
}

#[test]
fn a_node_without_a_usable_id_ends_the_search() {
    let json = r#"[{"info":{"props":{"node.name":"effect_input.soundsync-eq"}}},
        {"id":5,"info":{"props":{"node.name":"effect_input.soundsync-eq"}}}]"#;
    assert_eq!(find_eq_node_id(json), None);
    let wide = r#"[{"id":4294967301,"info":{"props":{"node.name":"effect_input.soundsync-eq"}}}]"#;
    assert_eq!(eq_node_id_in(&from_text(wide).unwrap()), None);
    let widest = r#"[{"id":4294967295,"info":{"props":{"node.name":"effect_input.soundsync-eq"}}}]"#;
    assert_eq!(find_eq_node_id(widest), Some(u32::MAX));
}

#[test]
fn build_gain_params_exact_format() {
    let gains = [1.0_f32, -2.5, 0.0, 3.0, -12.0, 0.5, 6.0, -1.0, 2.0, 0.0];
    let s = build_gain_params(&rendered(&gains));
    assert!(s.starts_with("{ params = ["));
    assert!(s.ends_with("] }"));
    assert!(s.contains("\"eq_band_0:Gain\" 1.0"));
    assert!(s.contains("\"eq_band_1:Gain\" -2.5"));
    assert!(s.contains("\"eq_band_9:Gain\" 0.0"));
}

#[test]
fn build_gain_params_single_band() {
    let gains = [6.0_f32];
    let s = build_gain_params(&rendered(&gains));
    assert_eq!(s, "{ params = [ \"eq_band_0:Gain\" 6.0 ] }");
}

#[test]
fn probe_eq_node_id_parses_pw_dump() {
    let mut runner = FakeCommandRunner::new().on("pw-dump", &[], ok(SAMPLE_PW_DUMP));
    assert_eq!(probe_eq_node_id(&mut runner), Some(42));
}

#[test]
fn probe_eq_node_id_returns_none_on_failure() {
    let mut runner = FakeCommandRunner::new().on("pw-dump", &[], fail());
    assert_eq!(probe_eq_node_id(&mut runner), None);
}

#[test]
fn set_eq_gains_issues_correct_argv() {
    let gains = rendered(&[0.0_f32; 10]);
    let expected_params = build_gain_params(&gains);
    let mut runner = FakeCommandRunner::new().on("pw-cli", &["set-param"], ok(""));
    set_eq_gains(&mut runner, 42, &gains).unwrap();

    let calls = runner.calls();
    let (prog, args) = &calls[0];
    assert_eq!(prog, "pw-cli");
    assert_eq!(args[0], "set-param");
    assert_eq!(args[1], "42");
    assert_eq!(args[2], "Props");
    assert_eq!(args[3], expected_params);
}

#[test]
fn set_eq_gains_errors_on_failure() {
    let mut runner = FakeCommandRunner::new().on("pw-cli", &["set-param"], fail());
    let result = set_eq_gains(&mut runner, 42, &rendered(&[0.0_f32; 10]));
    assert_eq!(result.unwrap_err(), "pw-cli set-param 42 Props failed: nope");
}

#[test]
fn wait_for_eq_node_returns_id_when_found() {
    assert_eq!(wait_for_eq_node(Some(42), 0, 500), NodeWait::Found(42));
    assert_eq!(wait_for_eq_node(Some(42), 900, 500), NodeWait::Found(42));
}

#[test]
fn wait_for_eq_node_returns_none_on_timeout() {
    assert_eq!(wait_for_eq_node(None, 50, 100), NodeWait::LookAgain);
    assert_eq!(wait_for_eq_node(None, 100, 100), NodeWait::TimedOut);
}
