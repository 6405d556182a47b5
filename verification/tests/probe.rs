use soundsync::capabilities::probe::{detect_config_format, detect_config_format_guarded, detect_os_release, generate_path};
use soundsync::capabilities::version::ConfigFormat;
use soundsync::sys::command::CommandOutput;
use soundsync::sys::testing::{FakeCommandRunner, FakeFs};

fn wp(stdout: &str) -> FakeCommandRunner {
    FakeCommandRunner::new().with(
        "wireplumber",
        CommandOutput {
            status: 0,
            stdout: stdout.into(),
            stderr: String::new(),
        },
    )
}

#[test]
fn detects_spa_json_for_0_5() {
    assert_eq!(
        detect_config_format(&mut wp("wireplumber 0.5.2")),
        ConfigFormat::SpaJson
    );
}

#[test]
fn detects_lua_for_0_4() {
    assert_eq!(
        detect_config_format(&mut wp("wireplumber\n0.4.17")),
        ConfigFormat::Lua
    );
}

#[test]
fn falls_back_to_lua_when_version_unparseable_or_nonzero_exit() {
    assert_eq!(detect_config_format(&mut wp("garbage")), ConfigFormat::Lua);
    assert_eq!(
        detect_config_format(&mut FakeCommandRunner::new()),
        ConfigFormat::Lua
    );
}

#[test]
fn falls_back_to_lua_when_command_cannot_spawn() {
    let mut r = FakeCommandRunner::new().with_error("wireplumber");
    assert_eq!(detect_config_format(&mut r), ConfigFormat::Lua);
}

#[test]
fn reads_version_from_stderr_when_stdout_unparseable() {
    let mut r = FakeCommandRunner::new().with(
        "wireplumber",
        CommandOutput {
            status: 0,
            stdout: "Error: some startup warning".into(),
            stderr: "wireplumber 0.5.0".into(),
        },
    );
    assert_eq!(detect_config_format(&mut r), ConfigFormat::SpaJson);
}

const SPA_PATH: &str = "/etc/wireplumber/wireplumber.conf.d/51-soundsync.conf";

const LUA_PATH: &str = "/etc/wireplumber/bluetooth.lua.d/51-soundsync-a2dp.lua";

#[test]
fn guarded_trusts_parseable_version_over_disk() {
    let mut r = wp("wireplumber 0.5.2");
    let mut fs = FakeFs::new().with_file(LUA_PATH, "-- stale");
    assert_eq!(detect_config_format_guarded(&mut r, &mut fs), ConfigFormat::SpaJson);
}

#[test]
fn guarded_prefers_existing_spa_file_when_version_unreadable() {
    let mut r = FakeCommandRunner::new().with_error("wireplumber");
    let mut fs = FakeFs::new().with_file(SPA_PATH, "# config");
    assert_eq!(
        detect_config_format_guarded(&mut r, &mut fs),
        ConfigFormat::SpaJson,
        "must not hard-assume Lua when the SPA file is the one on disk"
    );
}

#[test]
fn guarded_prefers_existing_lua_file_when_version_unreadable() {
    let mut r = FakeCommandRunner::new();
    let mut fs = FakeFs::new().with_file(LUA_PATH, "-- config");
    assert_eq!(detect_config_format_guarded(&mut r, &mut fs), ConfigFormat::Lua);
}

#[test]
fn guarded_falls_back_to_lua_when_unreadable_and_no_file() {
    let mut r = FakeCommandRunner::new().with_error("wireplumber");
    let mut fs = FakeFs::new();
    assert_eq!(detect_config_format_guarded(&mut r, &mut fs), ConfigFormat::Lua);
}

#[test]
fn guarded_ambiguous_both_present_keeps_lua_default() {
    let mut r = FakeCommandRunner::new().with_error("wireplumber");
    let mut fs = FakeFs::new()
        .with_file(SPA_PATH, "# config")
        .with_file(LUA_PATH, "-- config");
    assert_eq!(detect_config_format_guarded(&mut r, &mut fs), ConfigFormat::Lua);
}

#[test]
fn parses_os_release_when_present() {
    let mut fs = FakeFs::new().with_file("/etc/os-release", "ID=ubuntu\nVERSION_ID=\"24.04\"\n");
    let os = detect_os_release(&mut fs);
    assert_eq!(os.id.as_deref(), Some("ubuntu"));
    assert_eq!(os.version_id.as_deref(), Some("24.04"));
}

#[test]
fn os_release_missing_is_default() {
    let os = detect_os_release(&mut FakeFs::new());
    assert_eq!(os.id, None);
}

#[test]
fn a_failed_version_query_is_not_trusted() {
    let failed = CommandOutput {
        status: 1,
        stdout: "wireplumber 0.5.2".to_string(),
        stderr: String::new(),
    };
    let mut r = FakeCommandRunner::new().with("wireplumber", failed);
    assert_eq!(detect_config_format(&mut r), ConfigFormat::Lua);
    let mut fs = FakeFs::new();
    assert_eq!(detect_config_format_guarded(&mut r, &mut fs), ConfigFormat::Lua);
}

#[test]
fn each_format_has_its_file() {
    assert_eq!(generate_path(ConfigFormat::SpaJson), SPA_PATH);
    assert_eq!(generate_path(ConfigFormat::Lua), LUA_PATH);
}
