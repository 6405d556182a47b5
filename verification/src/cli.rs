//! Command-line arguments.
use vstd::prelude::*;
use crate::text::same;

verus! {

/// The subcommand that the program was started with.
#[derive(Debug, Clone, Copy, PartialEq, Eq, Structural)]
pub enum Command {
    /// Run the daemon (where no subcommand is given).
    Run,
    /// Self-check: verify binaries, PipeWire, WirePlumber configuration, adapter, web
    /// directory.
    Doctor,
    /// Write the WirePlumber A2DP configuration (run as root at install).
    ApplyWpConfig,
    /// Set the Bluetooth adapter's Class-of-Device and HCI name (run as root at boot).
    ApplyAdapterConfig,
    /// Print the version and exit.
    Version,
    /// Print usage and exit (also on unknown subcommands).
    Help,
}

/// The subcommand that a first argument names.
pub open spec fn command_named(arg: Seq<char>) -> Command {
    if arg == "doctor"@ {
        Command::Doctor
    } else if arg == "apply-wireplumber-config"@ {
        Command::ApplyWpConfig
    } else if arg == "apply-adapter-config"@ {
        Command::ApplyAdapterConfig
    } else if arg == "version"@ || arg == "--version"@ || arg == "-V"@ {
        Command::Version
    } else {
        Command::Help
    }
}

/// Parse the arguments that come after the program name. Without arguments the
/// daemon runs; only the first argument counts, and one that is not known asks for
/// help.
pub fn parse_args(args: &[String]) -> (command: Command)
    ensures
        command == (if args@.len() == 0 {
            Command::Run
        } else {
            command_named(args@[0]@)
        }),
{
    if args.len() == 0 {
        return Command::Run;
    }
    let arg = args[0].as_str();
    if same(arg, "doctor") {
        Command::Doctor
    } else if same(arg, "apply-wireplumber-config") {
        Command::ApplyWpConfig
    } else if same(arg, "apply-adapter-config") {
        Command::ApplyAdapterConfig
    } else if same(arg, "version") || same(arg, "--version") || same(arg, "-V") {
        Command::Version
    } else {
        Command::Help
    }
}

/// The usage, below the line with the version.
pub const USAGE: &'static str = "
USAGE:
    soundsync [SUBCOMMAND]

SUBCOMMANDS:
    (default)                 Run the daemon (Bluetooth A2DP receiver + web UI)
    doctor                    Self-check: verify binaries, PipeWire, WP config, adapter, web dir
    apply-wireplumber-config  Write the WirePlumber A2DP config (run as root at install)
    apply-adapter-config      Set Bluetooth adapter Class-of-Device + HCI name (run as root at boot)
    version, --version, -V    Print version and exit
    help, --help, -h          Print this help

ENVIRONMENT:
    SOUNDSYNC_BIND      Bind address (default: 0.0.0.0:8080)
    SOUNDSYNC_WEB_DIR   Web UI directory (default: /usr/share/soundsync/webui)
    SOUNDSYNC_NAME      Initial device name (overridden by persisted ~/.config/soundsync/device-name)
    SOUNDSYNC_SHUTDOWN_TIMEOUT  Hard-exit backstop in seconds (default: 8; must stay < unit TimeoutStopSec)
";

/// Every subcommand goes by its own words, and anything else asks for help.
pub proof fn subcommands_go_by_their_words(arg: Seq<char>)
    ensures
        command_named(arg) == Command::Doctor <==> arg == "doctor"@,
        command_named(arg) == Command::ApplyWpConfig <==> arg == "apply-wireplumber-config"@,
        command_named(arg) == Command::ApplyAdapterConfig <==> arg == "apply-adapter-config"@,
        command_named(arg) == Command::Version <==> arg == "version"@ || arg == "--version"@ || arg
            == "-V"@,
        command_named(arg) != Command::Run,
{
    reveal_strlit("doctor");
    reveal_strlit("apply-wireplumber-config");
    reveal_strlit("apply-adapter-config");
    reveal_strlit("version");
    reveal_strlit("--version");
    reveal_strlit("-V");
    assert("doctor"@.len() == 6);
    assert("apply-wireplumber-config"@.len() == 24);
    assert("apply-adapter-config"@.len() == 20);
    assert("version"@.len() == 7);
    assert("--version"@.len() == 9);
    assert("-V"@.len() == 2);
}

} // verus!
