use soundsync::audio::pw::quantum::{parse_pw_setting, probe_quantum, quantum_from, PwQuantum};
use soundsync::sys::command::CommandOutput;
use soundsync::sys::testing::FakeCommandRunner;

const SETTINGS: &str = "\
update: id:0 key:'clock.rate' value:'48000' type:''
update: id:0 key:'clock.quantum' value:'1024' type:''
update: id:0 key:'clock.min-quantum' value:'32' type:''
";

#[test]
fn parses_settings_values() {
    assert_eq!(parse_pw_setting(SETTINGS, "clock.quantum"), Some(1024));
    assert_eq!(parse_pw_setting(SETTINGS, "clock.rate"), Some(48000));
    assert_eq!(parse_pw_setting(SETTINGS, "clock.force-quantum"), None);
}

#[test]
fn latency_is_two_quanta_floored_at_50ms() {
    assert_eq!(
        PwQuantum {
            quantum: 1024,
            rate: 48000
        }
        .capture_latency_ms(),
        50
    );
    assert_eq!(
        PwQuantum {
            quantum: 2048,
            rate: 48000
        }
        .capture_latency_ms(),
        86
    );
    assert_eq!(
        PwQuantum {
            quantum: 256,
            rate: 48000
        }
        .capture_latency_ms(),
        50
    );
    assert_eq!(
        PwQuantum {
            quantum: 1024,
            rate: 0
        }
        .capture_latency_ms(),
        50
    );
    assert_eq!(
        PwQuantum {
            quantum: 1200,
            rate: 48000
        }
        .capture_latency_ms(),
        50
    );
    assert_eq!(
        PwQuantum {
            quantum: 1201,
            rate: 48000
        }
        .capture_latency_ms(),
        51
    );
}

#[test]
fn probe_returns_parsed_values() {
    let mut runner = FakeCommandRunner::new().on(
        "pw-metadata",
        &["-n", "settings"],
        CommandOutput {
            status: 0,
            stdout: SETTINGS.into(),
            stderr: String::new(),
        },
    );
    assert_eq!(
        probe_quantum(&mut runner),
        PwQuantum {
            quantum: 1024,
            rate: 48000
        }
    );
    assert_eq!(runner.calls()[0].1, vec!["-n", "settings"]);
}

#[test]
fn probe_falls_back_to_defaults_on_failure() {
    assert_eq!(
        probe_quantum(&mut FakeCommandRunner::new()),
        PwQuantum {
            quantum: 1024,
            rate: 48000
        }
    );
}

#[test]
fn a_setting_without_a_value_is_none() {
    assert_eq!(parse_pw_setting("key:'clock.rate'\nkey:'clock.rate' value:'1'", "clock.rate"), None);
    assert_eq!(parse_pw_setting("key:'a' value:' 7 ' x", "a"), Some(7));
    assert_eq!(parse_pw_setting("key:'a' value:'9value:'8'", "a"), Some(9));
}

#[test]
fn settings_that_cannot_be_read_are_defaults() {
    let q = PwQuantum { quantum: 1024, rate: 48000 };
    assert_eq!(quantum_from(&Err("no such program".to_string())), q);
    let half = quantum_from(&Ok(CommandOutput {
        status: 0,
        stdout: "key:'clock.quantum' value:'2048'".to_string(),
        stderr: String::new(),
    }));
    assert_eq!(half, PwQuantum { quantum: 2048, rate: 48000 });
    assert_eq!(half.capture_latency_ms(), 86);
}

#[test]
fn a_latency_beyond_32_bits_stays_at_their_maximum() {
    let slow = PwQuantum { quantum: u32::MAX, rate: 1 };
    assert_eq!(slow.capture_latency_ms(), u32::MAX);
    let fits = PwQuantum { quantum: u32::MAX, rate: 2000 };
    assert_eq!(fits.capture_latency_ms(), u32::MAX);
    let below = PwQuantum { quantum: u32::MAX - 1, rate: 2000 };
    assert_eq!(below.capture_latency_ms(), u32::MAX - 1);
}
