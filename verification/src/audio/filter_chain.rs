//! The equaliser's filter-chain process: where its configuration is written and how
//! it is started.
//!
//! A configuration path given to `pipewire -c` replaces the base client context, so
//! the embedded way drops the generated file into the conf.d directory that the base
//! `filter-chain.conf` merges. Where `pipewire-filter-chain` is on the path it is
//! used directly.
use vstd::prelude::*;
use crate::dsp::eq::{config_text, generate_filter_chain_config, EqBand};
use crate::sys::command::{asked, succeeded, CommandRunner, Invocation};
use crate::sys::fs::{Fs, FsOp};
use crate::text::{cat2, cat3, str_views, views};

verus! {

/// Configuration file of the standalone tool.
pub const FILTER_CHAIN_CONF: &'static str = "filter-chain.conf";

/// The conf.d file of the embedded way.
pub const FILTER_CHAIN_CONFD_FILENAME: &'static str = "soundsync-eq.conf";

/// The tool that runs a filter-chain on its own.
pub const FILTER_CHAIN_BIN: &'static str = "pipewire-filter-chain";

/// The directory of the standalone configuration.
pub open spec fn config_dir_of(runtime_dir: Seq<char>) -> Seq<char> {
    runtime_dir + "/soundsync"@
}

/// The conf.d directory.
pub open spec fn confd_dir_of(home: Seq<char>) -> Seq<char> {
    home + "/.config/pipewire/filter-chain.conf.d"@
}

/// Directory the configuration is written to for the standalone tool.
pub fn filter_chain_config_dir(runtime_dir: &str) -> (dir: String)
    ensures
        dir@ == config_dir_of(runtime_dir@),
{
    cat2(runtime_dir, "/soundsync")
}

/// The conf.d file of the embedded way:
/// `~/.config/pipewire/filter-chain.conf.d/soundsync-eq.conf`.
pub fn filter_chain_confd_path(home: &str) -> (path: String)
    ensures
        path@ == confd_dir_of(home@) + "/"@ + FILTER_CHAIN_CONFD_FILENAME@,
{
    cat3(filter_chain_confd_dir(home).as_str(), "/", FILTER_CHAIN_CONFD_FILENAME)
}

/// The conf.d directory, without the file name.
pub fn filter_chain_confd_dir(home: &str) -> (dir: String)
    ensures
        dir@ == confd_dir_of(home@),
{
    cat2(home, "/.config/pipewire/filter-chain.conf.d")
}

/// Which binary runs the filter-chain (distributions differ).
#[derive(Debug, Clone, Copy, PartialEq, Eq, Structural)]
pub enum FilterChainTool {
    /// `pipewire-filter-chain --config <path>`.
    Standalone,
    /// A conf.d file and `pipewire -c filter-chain.conf`.
    PipewireEmbedded,
}

/// A ready-to-spawn filter-chain command.
#[derive(Debug, PartialEq, Eq)]
pub struct FilterChainCommand {
    pub program: &'static str,
    pub args: Vec<String>,
}

/// The program and arguments of a filter-chain.
pub open spec fn launch_args(tool: FilterChainTool, config_path: Seq<char>) -> (
    Seq<char>,
    Seq<Seq<char>>,
) {
    match tool {
        FilterChainTool::Standalone => (FILTER_CHAIN_BIN@, seq!["--config"@, config_path]),
        FilterChainTool::PipewireEmbedded => ("pipewire"@, seq!["-c"@, FILTER_CHAIN_CONF@]),
    }
}

impl FilterChainCommand {
    /// The program and its arguments.
    pub open spec fn says(self) -> (Seq<char>, Seq<Seq<char>>) {
        (self.program@, views(self.args@))
    }
}

/// Build the filter-chain command. The embedded way does not look at the path.
pub fn build_filter_chain_command(tool: FilterChainTool, config_path: &str) -> (command:
    FilterChainCommand)
    ensures
        command.says() == launch_args(tool, config_path@),
{
    match tool {
        FilterChainTool::Standalone => {
            let mut args: Vec<String> = Vec::new();
            args.push("--config".to_owned());
            args.push(config_path.to_owned());
            assert(views(args@) =~= launch_args(tool, config_path@).1);
            FilterChainCommand { program: FILTER_CHAIN_BIN, args }
        },
        FilterChainTool::PipewireEmbedded => build_embedded_launch(),
    }
}

/// Build the embedded launch command: `pipewire -c filter-chain.conf`.
pub fn build_embedded_launch() -> (command: FilterChainCommand)
    ensures
        forall|path: Seq<char>|
            command.says() == #[trigger] launch_args(FilterChainTool::PipewireEmbedded, path),
{
    let mut args: Vec<String> = Vec::new();
    args.push("-c".to_owned());
    args.push(FILTER_CHAIN_CONF.to_owned());
    assert(views(args@) =~= seq!["-c"@, FILTER_CHAIN_CONF@]);
    FilterChainCommand { program: "pipewire", args }
}

/// The arguments that ask for a program on the path.
pub open spec fn which_args(program: Seq<char>) -> Seq<Seq<char>> {
    seq![program]
}

/// Whether a program is on the path (`which`).
pub fn on_path<R: CommandRunner>(runner: &mut R, program: &str) -> (found: bool)
    ensures
        exists|run: Invocation|
            final(runner).trace() == old(runner).trace().push(run) && #[trigger] asked(
                run,
                "which"@,
                which_args(program@),
            ) && found == succeeded(run.answer),
{
    let args: [&str; 1] = [program];
    let answer = runner.run("which", &args);
    proof {
        assert(str_views((&args)@) =~= which_args(program@));
        let run = Invocation { program: "which"@, args: str_views((&args)@), answer };
        assert(asked(run, "which"@, which_args(program@)));
    }
    match &answer {
        Ok(o) => o.success(),
        Err(_) => false,
    }
}

/// Detect whether `pipewire-filter-chain` is available on the path.
pub fn pipewire_filter_chain_available<R: CommandRunner>(runner: &mut R) -> (found: bool)
    ensures
        exists|run: Invocation|
            final(runner).trace() == old(runner).trace().push(run) && #[trigger] asked(
                run,
                "which"@,
                which_args(FILTER_CHAIN_BIN@),
            ) && found == succeeded(run.answer),
{
    on_path(runner, FILTER_CHAIN_BIN)
}

/// The tool for a host: the standalone one where it is available.
pub open spec fn tool_for(standalone: bool) -> FilterChainTool {
    if standalone {
        FilterChainTool::Standalone
    } else {
        FilterChainTool::PipewireEmbedded
    }
}

/// Detect the filter-chain tool for this host: the standalone one if
/// `pipewire-filter-chain` is on the path, otherwise the embedded way.
pub fn detect_filter_chain_tool<R: CommandRunner>(runner: &mut R) -> (tool: FilterChainTool)
    ensures
        exists|run: Invocation|
            final(runner).trace() == old(runner).trace().push(run) && #[trigger] asked(
                run,
                "which"@,
                which_args(FILTER_CHAIN_BIN@),
            ) && tool == tool_for(succeeded(run.answer)),
{
    if pipewire_filter_chain_available(runner) {
        FilterChainTool::Standalone
    } else {
        FilterChainTool::PipewireEmbedded
    }
}

/// Where the configuration goes: a directory and a file name.
pub open spec fn config_place(tool: FilterChainTool, runtime_dir: Seq<char>, home: Seq<char>) -> (
    Seq<char>,
    Seq<char>,
) {
    match tool {
        FilterChainTool::Standalone => (config_dir_of(runtime_dir), FILTER_CHAIN_CONF@),
        FilterChainTool::PipewireEmbedded => (confd_dir_of(home), FILTER_CHAIN_CONFD_FILENAME@),
    }
}

/// Whether this write, and this result, prepare a filter-chain: the configuration is
/// written first, and there is a command to start only where that succeeded.
pub open spec fn is_preparation(
    op: FsOp,
    bands: Seq<EqBand>,
    gains: Seq<Seq<char>>,
    tool: FilterChainTool,
    runtime_dir: Seq<char>,
    home: Seq<char>,
    r: Result<FilterChainCommand, String>,
) -> bool {
    let (place, name) = config_place(tool, runtime_dir, home);
    &&& op matches FsOp::Write { dir, filename, contents, answer }
    &&& dir == place
    &&& filename == name
    &&& contents == config_text(bands, gains)
    &&& match answer {
        Ok(()) => r is Ok && r->Ok_0.says() == launch_args(tool, place + "/"@ + name),
        Err(e) => r is Err && r->Err_0@ == e@,
    }
}

/// Write the configuration of these bands and build the command that runs them.
///
/// The standalone tool reads `<runtime_dir>/soundsync/filter-chain.conf`; the
/// embedded way drops `soundsync-eq.conf` into the conf.d directory under `home`. If
/// the write fails there is nothing to start: better to retry than to run against a
/// stale configuration. `gains` holds the gain of each band written with one decimal.
pub fn prepare_filter_chain<F: Fs>(
    fs: &mut F,
    bands: &[EqBand],
    gains: &[String],
    runtime_dir: &str,
    tool: FilterChainTool,
    home: &str,
) -> (r: Result<FilterChainCommand, String>)
    requires
        bands@.len() > 0,
        gains@.len() == bands@.len(),
    ensures
        exists|op: FsOp|
            final(fs).ops() == old(fs).ops().push(op) && #[trigger] is_preparation(
                op,
                bands@,
                views(gains@),
                tool,
                runtime_dir@,
                home@,
                r,
            ),
{
    let config = generate_filter_chain_config(bands, gains);
    let (dir, name) = match tool {
        FilterChainTool::Standalone => (filter_chain_config_dir(runtime_dir), FILTER_CHAIN_CONF),
        FilterChainTool::PipewireEmbedded => (
            filter_chain_confd_dir(home),
            FILTER_CHAIN_CONFD_FILENAME,
        ),
    };
    let answer = fs.write_atomic(dir.as_str(), name, config.as_str());
    let ghost op = FsOp::Write { dir: dir@, filename: name@, contents: config@, answer };
    let r = match answer {
        Ok(()) => {
            let path = cat3(dir.as_str(), "/", name);
            Ok(build_filter_chain_command(tool, path.as_str()))
        },
        Err(e) => Err(e),
    };
    assert(is_preparation(op, bands@, views(gains@), tool, runtime_dir@, home@, r));
    r
}

/// The configuration is written before anything is started. The standalone tool is started
/// with the very file that was written; the embedded way has it written into the conf.d
/// directory of the home and is started with the base configuration.
pub proof fn chains_are_started_with_what_was_written(
    op: FsOp,
    bands: Seq<EqBand>,
    gains: Seq<Seq<char>>,
    tool: FilterChainTool,
    runtime_dir: Seq<char>,
    home: Seq<char>,
    r: Result<FilterChainCommand, String>,
)
    requires
        is_preparation(op, bands, gains, tool, runtime_dir, home, r),
    ensures
        op is Write,
        op->contents == config_text(bands, gains),
        r is Ok <==> op->Write_answer is Ok,
        r matches Err(e) ==> op->Write_answer matches Err(f) && e@ == f@,
        tool == FilterChainTool::Standalone ==> op->dir == runtime_dir + "/soundsync"@
            && op->filename == "filter-chain.conf"@,
        tool == FilterChainTool::PipewireEmbedded ==> op->dir == home
            + "/.config/pipewire/filter-chain.conf.d"@ && op->filename == "soundsync-eq.conf"@,
        r is Ok && tool == FilterChainTool::Standalone ==> r->Ok_0.program@
            == "pipewire-filter-chain"@ && views(r->Ok_0.args@) == seq![
            "--config"@,
            op->dir + "/"@ + op->filename,
        ],
        r is Ok && tool == FilterChainTool::PipewireEmbedded ==> r->Ok_0.program@ == "pipewire"@
            && views(r->Ok_0.args@) == seq!["-c"@, "filter-chain.conf"@],
{
}

/// The standalone tool is taken where it is there, and only there.
pub proof fn the_standalone_tool_is_preferred(standalone: bool)
    ensures
        tool_for(standalone) == FilterChainTool::Standalone <==> standalone,
{
}

} // verus!
