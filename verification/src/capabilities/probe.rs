//! Probing the host: the WirePlumber configuration format and the distribution.
use vstd::prelude::*;
use crate::capabilities::osrelease::{distribution_of, unknown, Distribution, OsRelease};
use crate::capabilities::version::{format_of, version_in, ConfigFormat, WpVersion};
use crate::sys::command::{asked, Answer, CommandRunner, Invocation};
use crate::sys::fs::{Fs, FsOp};
use crate::text::{lines_of, str_views};

verus! {

pub const OS_RELEASE_PATH: &'static str = "/etc/os-release";

/// Where the configuration for WirePlumber 0.5 and later is.
pub const SPA_CONFIG_PATH: &'static str = "/etc/wireplumber/wireplumber.conf.d/51-soundsync.conf";

/// Where the configuration for WirePlumber 0.4 is.
pub const LUA_CONFIG_PATH: &'static str = "/etc/wireplumber/bluetooth.lua.d/51-soundsync-a2dp.lua";

/// The file of a format.
pub open spec fn path_of(format: ConfigFormat) -> Seq<char> {
    match format {
        ConfigFormat::SpaJson => SPA_CONFIG_PATH@,
        ConfigFormat::Lua => LUA_CONFIG_PATH@,
    }
}

/// The file that the configuration of a format is in.
pub fn generate_path(format: ConfigFormat) -> (path: &'static str)
    ensures
        path@ == path_of(format),
{
    match format {
        ConfigFormat::SpaJson => SPA_CONFIG_PATH,
        ConfigFormat::Lua => LUA_CONFIG_PATH,
    }
}

/// The arguments of the version query.
pub open spec fn version_args() -> Seq<Seq<char>> {
    seq!["--version"@]
}

/// The version that `wireplumber --version` told, on either output, where it exited
/// with zero.
pub open spec fn version_told(answer: Answer) -> Option<WpVersion> {
    match answer {
        Ok(o) => if !o.ok() {
            None
        } else if version_in(o.stdout@) is Some {
            version_in(o.stdout@)
        } else {
            version_in(o.stderr@)
        },
        Err(_) => None,
    }
}

/// Read the version from what `wireplumber --version` answered.
pub fn version_from_answer(answer: &Answer) -> (version: Option<WpVersion>)
    ensures
        version == version_told(*answer),
{
    match answer {
        Ok(o) => if o.success() {
            let version = WpVersion::parse(o.stdout.as_str());
            if version.is_some() {
                version
            } else {
                WpVersion::parse(o.stderr.as_str())
            }
        } else {
            None
        },
        Err(_) => None,
    }
}

/// The format for a version that may not be known: Lua where it is not.
pub open spec fn format_told(version: Option<WpVersion>) -> ConfigFormat {
    match version {
        Some(v) => format_of(v),
        None => ConfigFormat::Lua,
    }
}

fn ask_version<R: CommandRunner>(runner: &mut R) -> (version: Option<WpVersion>)
    ensures
        exists|run: Invocation|
            final(runner).trace() == old(runner).trace().push(run) && #[trigger] asked(
                run,
                "wireplumber"@,
                version_args(),
            ) && version == version_told(run.answer),
{
    let args: [&str; 1] = ["--version"];
    let answer = runner.run("wireplumber", &args);
    proof {
        assert(str_views((&args)@) =~= version_args());
        let run = Invocation { program: "wireplumber"@, args: str_views((&args)@), answer };
        assert(asked(run, "wireplumber"@, version_args()));
    }
    version_from_answer(&answer)
}

/// Run `wireplumber --version` and decide the configuration format. Falls back to
/// Lua (the conservative default for an older WirePlumber) if the command fails or
/// the version cannot be parsed.
pub fn detect_config_format<R: CommandRunner>(runner: &mut R) -> (format: ConfigFormat)
    ensures
        exists|run: Invocation|
            final(runner).trace() == old(runner).trace().push(run) && #[trigger] asked(
                run,
                "wireplumber"@,
                version_args(),
            ) && format == format_told(version_told(run.answer)),
{
    match ask_version(runner) {
        Some(v) => v.config_format(),
        None => ConfigFormat::Lua,
    }
}

/// Whether an operation reads this file.
pub open spec fn is_read(op: FsOp, path: Seq<char>) -> bool {
    op matches FsOp::Read { path: p, .. } && p == path
}

/// Whether a read found the file.
pub open spec fn present(op: FsOp) -> bool {
    op matches FsOp::Read { answer, .. } && answer is Ok
}

/// Whether this format, and these reads, follow from what is known of the version: a
/// known version decides; else the format whose file alone is present; else Lua.
pub open spec fn is_guarded_choice(
    version: Option<WpVersion>,
    ops: Seq<FsOp>,
    format: ConfigFormat,
) -> bool {
    match version {
        Some(v) => ops.len() == 0 && format == format_of(v),
        None => {
            &&& ops.len() == 2
            &&& is_read(ops[0], SPA_CONFIG_PATH@)
            &&& is_read(ops[1], LUA_CONFIG_PATH@)
            &&& format == (if present(ops[0]) && !present(ops[1]) {
                ConfigFormat::SpaJson
            } else {
                ConfigFormat::Lua
            })
        },
    }
}

/// Like [`detect_config_format`], but where `wireplumber --version` is unreadable
/// (it does not start, exits with an error, or prints no version) it looks which of
/// the two configuration files is there, so that a WirePlumber that is briefly out of
/// reach does not make a check expect the wrong file.
///
/// 1. If the version is told, it decides.
/// 2. Else if exactly one of the files exists, its format is used.
/// 3. Else Lua.
pub fn detect_config_format_guarded<R: CommandRunner, F: Fs>(runner: &mut R, fs: &mut F) -> (format:
    ConfigFormat)
    ensures
        exists|run: Invocation, ops: Seq<FsOp>|
            final(runner).trace() == old(runner).trace().push(run) && final(fs).ops() == old(
                fs,
            ).ops() + ops && #[trigger] asked(run, "wireplumber"@, version_args())
                && #[trigger] is_guarded_choice(version_told(run.answer), ops, format),
{
    let ghost start = runner.trace();
    let ghost ops0 = fs.ops();
    let version = ask_version(runner);
    let ghost run = choose|run: Invocation|
        runner.trace() == start.push(run) && #[trigger] asked(
            run,
            "wireplumber"@,
            version_args(),
        ) && version == version_told(run.answer);
    if let Some(v) = version {
        let format = v.config_format();
        proof {
            let ops: Seq<FsOp> = Seq::empty();
            assert(ops0 =~= ops0 + ops);
            assert(is_guarded_choice(version_told(run.answer), ops, format));
        }
        return format;
    }
    let spa = fs.read_to_string(SPA_CONFIG_PATH);
    let lua = fs.read_to_string(LUA_CONFIG_PATH);
    let format = if spa.is_ok() && lua.is_err() {
        ConfigFormat::SpaJson
    } else {
        ConfigFormat::Lua
    };
    proof {
        let ops = seq![
            FsOp::Read { path: SPA_CONFIG_PATH@, answer: spa },
            FsOp::Read { path: LUA_CONFIG_PATH@, answer: lua },
        ];
        assert(fs.ops() =~= ops0 + ops);
        assert(is_guarded_choice(version_told(run.answer), ops, format));
    }
    format
}

/// The guarded choice agrees with the plain one wherever the version is told.
pub proof fn a_known_version_decides(version: Option<WpVersion>, ops: Seq<FsOp>, format: ConfigFormat)
    requires
        is_guarded_choice(version, ops, format),
        version is Some,
    ensures
        format == format_told(version),
{
}

/// What the contents of os-release say.
pub open spec fn distribution_told(answer: Result<String, String>) -> Distribution {
    match answer {
        Ok(s) => distribution_of(lines_of(s@)),
        Err(_) => unknown(),
    }
}

/// Read and parse `/etc/os-release`; nothing is known where that fails.
pub fn detect_os_release<F: Fs>(fs: &mut F) -> (os: OsRelease)
    ensures
        exists|answer: Result<String, String>|
            final(fs).ops() == old(fs).ops().push(
                (FsOp::Read { path: OS_RELEASE_PATH@, answer }),
            ) && os@ == #[trigger] distribution_told(answer),
{
    let answer = fs.read_to_string(OS_RELEASE_PATH);
    let os = match &answer {
        Ok(s) => OsRelease::parse(s.as_str()),
        Err(_) => OsRelease { id: None, version_id: None },
    };
    assert(os@ == distribution_told(answer));
    os
}

/// The version is told by a query that succeeded, on its output or else on its error output.
pub proof fn versions_are_told_by_success(answer: Answer)
    ensures
        answer is Err || answer->Ok_0.status != 0 ==> version_told(answer) is None,
        answer is Ok && answer->Ok_0.status == 0 && version_in(answer->Ok_0.stdout@) is Some
            ==> version_told(answer) == version_in(answer->Ok_0.stdout@),
        answer is Ok && answer->Ok_0.status == 0 && version_in(answer->Ok_0.stdout@) is None
            ==> version_told(answer) == version_in(answer->Ok_0.stderr@),
{
}

/// Without a version, SPA-JSON is expected where its file alone is there, and Lua otherwise;
/// the files of both are looked at.
pub proof fn present_files_decide_without_a_version(ops: Seq<FsOp>, format: ConfigFormat)
    requires
        is_guarded_choice(None, ops, format),
    ensures
        ops.len() == 2,
        ops[0] is Read && ops[0]->path == "/etc/wireplumber/wireplumber.conf.d/51-soundsync.conf"@,
        ops[1] is Read && ops[1]->path
            == "/etc/wireplumber/bluetooth.lua.d/51-soundsync-a2dp.lua"@,
        format == ConfigFormat::SpaJson <==> ops[0]->Read_answer is Ok && ops[1]->Read_answer is Err,
{
}

/// Each format has its own file, and without a version the format is Lua.
pub proof fn formats_have_their_files(format: ConfigFormat)
    ensures
        format == ConfigFormat::SpaJson ==> path_of(format)
            == "/etc/wireplumber/wireplumber.conf.d/51-soundsync.conf"@,
        format == ConfigFormat::Lua ==> path_of(format)
            == "/etc/wireplumber/bluetooth.lua.d/51-soundsync-a2dp.lua"@,
        format_told(None) == ConfigFormat::Lua,
{
}

/// The distribution is read from the file, where it can be.
pub proof fn distributions_are_read_from_the_file(answer: Result<String, String>)
    ensures
        answer is Err ==> distribution_told(answer).id is None && distribution_told(
            answer,
        ).version_id is None,
        answer matches Ok(s) ==> distribution_told(answer) == distribution_of(lines_of(s@)),
{
}

/// A version is asked for by the usual option alone.
pub proof fn versions_are_asked_for_by_option()
    ensures
        version_args() == seq!["--version"@],
{
}

} // verus!
