use soundsync::cli::{parse_args, Command};

fn args(v: &[&str]) -> Vec<String> {
    v.iter().map(|s| s.to_string()).collect()
}

#[test]
fn empty_args_is_run() {
    assert_eq!(parse_args(&[]), Command::Run);
}

#[test]
fn doctor_subcommand() {
    assert_eq!(parse_args(&args(&["doctor"])), Command::Doctor);
}

#[test]
fn apply_wireplumber_config_subcommand() {
    assert_eq!(
        parse_args(&args(&["apply-wireplumber-config"])),
        Command::ApplyWpConfig
    );
}

#[test]
fn apply_adapter_config_subcommand() {
    assert_eq!(
        parse_args(&args(&["apply-adapter-config"])),
        Command::ApplyAdapterConfig
    );
}

#[test]
fn version_aliases() {
    assert_eq!(parse_args(&args(&["version"])), Command::Version);
    assert_eq!(parse_args(&args(&["--version"])), Command::Version);
    assert_eq!(parse_args(&args(&["-V"])), Command::Version);
}

#[test]
fn help_aliases() {
    assert_eq!(parse_args(&args(&["help"])), Command::Help);
    assert_eq!(parse_args(&args(&["--help"])), Command::Help);
    assert_eq!(parse_args(&args(&["-h"])), Command::Help);
}

#[test]
fn unknown_subcommand_is_help() {
    assert_eq!(parse_args(&args(&["unknown-command"])), Command::Help);
    assert_eq!(parse_args(&args(&["bogus"])), Command::Help);
    assert_eq!(parse_args(&args(&["--foo"])), Command::Help);
}
