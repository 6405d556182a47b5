use soundsync::audio::filter_chain::{build_embedded_launch, build_filter_chain_command, detect_filter_chain_tool, filter_chain_confd_path, filter_chain_config_dir, prepare_filter_chain, FilterChainTool, FILTER_CHAIN_CONF};
use soundsync::dsp::eq::{default_bands, EqBand};
use soundsync::sys::fs::FnFs;
use soundsync::sys::command::CommandOutput;
use soundsync::sys::testing::{FakeCommandRunner, FakeFs};

#[test]
fn config_dir_is_under_runtime_soundsync() {
    assert_eq!(
        filter_chain_config_dir("/run/user/1000"),
        "/run/user/1000/soundsync"
    );
    assert_eq!(FILTER_CHAIN_CONF, "filter-chain.conf");
}

#[test]
fn confd_path_builder() {
    assert_eq!(
        filter_chain_confd_path("/home/mark"),
        "/home/mark/.config/pipewire/filter-chain.conf.d/soundsync-eq.conf"
    );
}

#[test]
fn standalone_command() {
    let c = build_filter_chain_command(FilterChainTool::Standalone, "/p/filter-chain.conf");
    assert_eq!(c.program, "pipewire-filter-chain");
    assert_eq!(c.args, vec!["--config", "/p/filter-chain.conf"]);
}

#[test]
fn embedded_command_via_build_filter_chain_command() {
    let c = build_filter_chain_command(FilterChainTool::PipewireEmbedded, "/ignored");
    assert_eq!(c.program, "pipewire");
    assert_eq!(c.args, vec!["-c", "filter-chain.conf"]);
}

#[test]
fn embedded_launch_builder() {
    let c = build_embedded_launch();
    assert_eq!(c.program, "pipewire");
    assert_eq!(c.args, vec!["-c", "filter-chain.conf"]);
}

#[test]
fn detect_tool_prefers_standalone_when_available() {
    let mut runner = FakeCommandRunner::new().on(
        "which",
        &["pipewire-filter-chain"],
        CommandOutput {
            status: 0,
            stdout: "/usr/bin/pipewire-filter-chain".into(),
            stderr: String::new(),
        },
    );
    assert_eq!(
        detect_filter_chain_tool(&mut runner),
        FilterChainTool::Standalone
    );
}

#[test]
fn detect_tool_falls_back_to_embedded() {
    let mut runner = FakeCommandRunner::new();
    assert_eq!(
        detect_filter_chain_tool(&mut runner),
        FilterChainTool::PipewireEmbedded
    );
}

fn flat(bands: &[EqBand]) -> Vec<String> {
    bands.iter().map(|_| "0.0".to_string()).collect()
}

#[test]
fn run_filter_chain_embedded_writes_to_confd() {
    let mut fs = FakeFs::new();
    let bands = default_bands();
    let cmd = prepare_filter_chain(
        &mut fs,
        &bands,
        &flat(&bands),
        "/run/user/1000",
        FilterChainTool::PipewireEmbedded,
        "/home/mark",
    )
    .unwrap();
    let written = fs
        .contents("/home/mark/.config/pipewire/filter-chain.conf.d/soundsync-eq.conf")
        .expect("conf.d config written");
    assert!(written.contains("effect_input.soundsync-eq"));
    assert!(written.contains("node.target = \"soundsync-capture\""));
    assert_eq!(cmd.program, "pipewire");
    assert_eq!(cmd.args, vec!["-c", "filter-chain.conf"]);
}

#[test]
fn run_filter_chain_standalone_writes_to_runtime_dir() {
    let mut fs = FakeFs::new();
    let bands = default_bands();
    let cmd = prepare_filter_chain(
        &mut fs,
        &bands,
        &flat(&bands),
        "/run/user/1000",
        FilterChainTool::Standalone,
        "",
    )
    .unwrap();
    let written = fs
        .contents("/run/user/1000/soundsync/filter-chain.conf")
        .expect("runtime config written");
    assert!(written.contains("effect_input.soundsync-eq"));
    assert_eq!(cmd.program, "pipewire-filter-chain");
    assert_eq!(cmd.args, vec!["--config", "/run/user/1000/soundsync/filter-chain.conf"]);
}

#[test]
fn run_filter_chain_aborts_if_config_write_fails() {
    let bands = default_bands();
    let mut fs = FnFs::new(
        |_: &str| Err("unreadable".to_string()),
        |_: &str, _: &str, _: &str| Err("no space".to_string()),
    );
    let r = prepare_filter_chain(
        &mut fs,
        &bands,
        &flat(&bands),
        "/run/user/1000",
        FilterChainTool::Standalone,
        "",
    );
    assert_eq!(r, Err("no space".to_string()));
}
