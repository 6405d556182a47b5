use soundsync::capabilities::probe::generate_path;
use soundsync::capabilities::version::ConfigFormat;
use soundsync::install::{
    apply_adapter_config, apply_detected_config, apply_wireplumber_config, AppliedConfig,
};
use soundsync::sys::command::CommandOutput;
use soundsync::sys::testing::FakeCommandRunner;

fn ok_out() -> CommandOutput {
    CommandOutput {
        status: 0,
        stdout: String::new(),
        stderr: String::new(),
    }
}

#[test]
fn apply_adapter_config_sets_cod_and_name() {
    let mut runner = FakeCommandRunner::new().with("hciconfig", ok_out());
    apply_adapter_config(&mut runner, "hci0", "SoundSync").expect("should succeed");

    let calls = runner.calls();
    assert_eq!(calls[0].0, "hciconfig");
    assert!(calls[0].1.contains(&"class".to_string()));
    assert_eq!(calls[1].0, "hciconfig");
    assert!(calls[1].1.contains(&"name".to_string()));
    assert!(calls[1].1.contains(&"SoundSync".to_string()));
}

#[test]
fn apply_adapter_config_propagates_cod_error() {
    let mut runner = FakeCommandRunner::new().with(
        "hciconfig",
        CommandOutput {
            status: 1,
            stdout: String::new(),
            stderr: "no such device".to_string(),
        },
    );
    let err = apply_adapter_config(&mut runner, "hci9", "SoundSync").unwrap_err();
    assert!(err.contains("hciconfig"), "err: {err}");
}

fn wp05_runner() -> FakeCommandRunner {
    FakeCommandRunner::new()
        .with(
            "wireplumber",
            CommandOutput {
                status: 0,
                stdout: "wireplumber 0.5.2".to_string(),
                stderr: String::new(),
            },
        )
        .with("systemctl", ok_out())
}

fn applied(format: ConfigFormat) -> Result<AppliedConfig, String> {
    let other = match format {
        ConfigFormat::SpaJson => ConfigFormat::Lua,
        ConfigFormat::Lua => ConfigFormat::SpaJson,
    };
    Ok(AppliedConfig {
        written_path: generate_path(format).to_string(),
        removed_stale_path: generate_path(other).to_string(),
        restarted: true,
    })
}

#[test]
fn apply_wireplumber_config_returns_summary() {
    let mut runner = wp05_runner();
    let summary = apply_detected_config(&mut runner, applied).expect("should succeed");
    assert!(summary.contains("wrote:"), "summary: {summary}");
    assert!(summary.contains("removed stale:"), "summary: {summary}");
    assert!(
        summary.contains("wireplumber restarted:"),
        "summary: {summary}"
    );
    // the written path should be the 0.5 SPA-JSON conf
    assert!(summary.contains("51-soundsync.conf"), "summary: {summary}");
    assert_eq!(
        summary,
        "wrote: /etc/wireplumber/wireplumber.conf.d/51-soundsync.conf\n\
         removed stale: /etc/wireplumber/bluetooth.lua.d/51-soundsync-a2dp.lua\n\
         wireplumber restarted: true"
    );
    assert_eq!(runner.calls().len(), 1);
}

#[test]
fn an_unreadable_version_gets_the_lua_configuration() {
    let mut runner = FakeCommandRunner::new();
    let summary = apply_detected_config(&mut runner, applied).expect("should succeed");
    assert!(summary.starts_with("wrote: /etc/wireplumber/bluetooth.lua.d/"), "summary: {summary}");
    let failed = apply_detected_config(&mut runner, |_| Err("disk full".to_string()));
    assert_eq!(failed.unwrap_err(), "failed to write WirePlumber config: disk full");
}

#[test]
fn a_failed_write_is_told() {
    assert_eq!(
        apply_wireplumber_config(Err("permission denied".to_string())).unwrap_err(),
        "failed to write WirePlumber config: permission denied"
    );
}
