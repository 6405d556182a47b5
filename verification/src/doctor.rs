//! The read-only self-check (`soundsync doctor`).
use vstd::prelude::*;
use crate::capabilities::probe::{detect_config_format_guarded, generate_path, is_guarded_choice, is_read, path_of, present, version_args, version_told};
use crate::capabilities::version::ConfigFormat;
use crate::sys::command::{asked, succeeded, Answer, CommandRunner, Invocation};
use crate::sys::fs::{Fs, FsOp};
use crate::text::{cat2, cat3, join, joined, str_views};

verus! {

/// Outcome of a single check.
#[derive(Debug, Clone, Copy, PartialEq, Eq, Structural)]
pub enum CheckStatus {
    /// Everything looks good.
    Pass,
    /// Something is missing or suspicious, but the daemon can still run.
    Warn,
    /// A hard requirement is absent; the daemon will not work until fixed.
    Fail,
}

/// A named check with its outcome and a detail for the reader.
#[derive(Debug, PartialEq, Eq)]
pub struct Check {
    pub name: String,
    pub status: CheckStatus,
    pub detail: String,
}

/// What a check says.
#[verifier::ext_equal]
pub struct CheckData {
    pub name: Seq<char>,
    pub status: CheckStatus,
    pub detail: Seq<char>,
}

impl View for Check {
    type V = CheckData;

    open spec fn view(&self) -> CheckData {
        CheckData { name: self.name@, status: self.status, detail: self.detail@ }
    }
}

/// What the checks say.
pub open spec fn check_views(checks: Seq<Check>) -> Seq<CheckData> {
    checks.map_values(|c: Check| c@)
}

fn check(name: &str, status: CheckStatus, detail: String) -> (c: Check)
    ensures
        c@ == (CheckData { name: name@, status, detail: detail@ }),
{
    Check { name: name.to_owned(), status, detail }
}

/// The checks of [`run_checks`].
#[derive(Debug, PartialEq, Eq)]
pub struct DoctorReport {
    pub checks: Vec<Check>,
}

/// The mark of an outcome.
pub open spec fn icon_of(status: CheckStatus) -> Seq<char> {
    match status {
        CheckStatus::Pass => "✓"@,
        CheckStatus::Warn => "⚠"@,
        CheckStatus::Fail => "✗"@,
    }
}

/// A line of the report.
pub open spec fn report_line(c: CheckData) -> Seq<char> {
    icon_of(c.status) + " ["@ + c.name + "] "@ + c.detail + "\n"@
}

/// The report of these checks.
pub open spec fn report_text(checks: Seq<CheckData>) -> Seq<char>
    decreases checks.len(),
{
    if checks.len() == 0 {
        Seq::empty()
    } else {
        report_text(checks.drop_last()) + report_line(checks.last())
    }
}

impl View for DoctorReport {
    type V = Seq<CheckData>;

    open spec fn view(&self) -> Seq<CheckData> {
        check_views(self.checks@)
    }
}

impl DoctorReport {
    /// True if no check failed.
    pub fn ok(&self) -> (r: bool)
        ensures
            r == (forall|i: int|
                0 <= i < self@.len() ==> (#[trigger] self@[i]).status != CheckStatus::Fail),
    {
        let mut i: usize = 0;
        while i < self.checks.len()
            invariant
                i <= self.checks@.len(),
                forall|k: int| 0 <= k < i ==> (#[trigger] self@[k]).status != CheckStatus::Fail,
            decreases self.checks@.len() - i,
        {
            assert(self@[i as int] == self.checks@[i as int]@);
            if self.checks[i].status == CheckStatus::Fail {
                return false;
            }
            i = i + 1;
        }
        true
    }

    /// The report as text, one line to a check.
    pub fn text(&self) -> (out: String)
        ensures
            out@ == report_text(self@),
    {
        let mut out = String::new();
        let mut i: usize = 0;
        assert(out@ =~= report_text(self@.take(0)));
        while i < self.checks.len()
            invariant
                i <= self.checks@.len(),
                self@.len() == self.checks@.len(),
                out@ == report_text(self@.take(i as int)),
            decreases self.checks@.len() - i,
        {
            assert(self@.take(i + 1).drop_last() =~= self@.take(i as int));
            assert(self@[i as int] == self.checks@[i as int]@);
            let c = &self.checks[i];
            let mut line = match c.status {
                CheckStatus::Pass => "✓".to_owned(),
                CheckStatus::Warn => "⚠".to_owned(),
                CheckStatus::Fail => "✗".to_owned(),
            };
            line.append(" [");
            line.append(c.name.as_str());
            line.append("] ");
            line.append(c.detail.as_str());
            line.append("\n");
            assert(line@ == report_line(c@));
            out.append(line.as_str());
            i = i + 1;
        }
        assert(self@.take(self@.len() as int) =~= self@);
        out
    }
}

// ── Binaries ─────────────────────────────────────────────────────────────────

/// How many binaries the daemon depends on.
pub const REQUIRED_BIN_COUNT: usize = 10;

/// The binaries that the daemon depends on.
pub open spec fn required_bin_names() -> Seq<Seq<char>> {
    seq![
        "parec"@,
        "pw-cat"@,
        "pactl"@,
        "wpctl"@,
        "pw-link"@,
        "pw-metadata"@,
        "ffmpeg"@,
        "hciconfig"@,
        "pipewire"@,
        "wireplumber"@,
    ]
}

/// The binaries that the daemon depends on.
pub fn required_bins() -> (bins: [&'static str; 10])
    ensures
        str_views(bins@) == required_bin_names(),
{
    let bins = [
        "parec",
        "pw-cat",
        "pactl",
        "wpctl",
        "pw-link",
        "pw-metadata",
        "ffmpeg",
        "hciconfig",
        "pipewire",
        "wireplumber",
    ];
    assert(str_views(bins@) =~= required_bin_names());
    bins
}

/// The arguments that ask the shell for a command.
pub open spec fn command_args(bin: Seq<char>) -> Seq<Seq<char>> {
    seq!["-c"@, "command -v "@ + bin]
}

/// Whether each run asks for the binary in its place.
pub open spec fn asks_for_each(runs: Seq<Invocation>, bins: Seq<Seq<char>>) -> bool {
    runs.len() == bins.len() && forall|i: int|
        0 <= i < bins.len() ==> asked(#[trigger] runs[i], "sh"@, command_args(bins[i]))
}

/// The binaries whose run did not succeed.
pub open spec fn missing(runs: Seq<Invocation>, bins: Seq<Seq<char>>) -> Seq<Seq<char>>
    decreases bins.len(),
{
    if bins.len() == 0 {
        Seq::empty()
    } else {
        let head = missing(runs.drop_last(), bins.drop_last());
        if succeeded(runs.last().answer) {
            head
        } else {
            head.push(bins.last())
        }
    }
}

/// The check of the binaries.
pub open spec fn binaries_check(absent: Seq<Seq<char>>) -> CheckData {
    if absent.len() == 0 {
        CheckData {
            name: "binaries"@,
            status: CheckStatus::Pass,
            detail: "all required binaries present"@,
        }
    } else {
        CheckData {
            name: "binaries"@,
            status: CheckStatus::Fail,
            detail: "missing: "@ + joined(absent, ", "@),
        }
    }
}

fn check_binaries<R: CommandRunner>(runner: &mut R) -> (c: Check)
    ensures
        exists|runs: Seq<Invocation>|
            final(runner).trace() == old(runner).trace() + runs && #[trigger] asks_for_each(
                runs,
                required_bin_names(),
            ) && c@ == binaries_check(missing(runs, required_bin_names())),
{
    let ghost start = runner.trace();
    let ghost all = required_bin_names();
    let ghost mut runs: Seq<Invocation> = Seq::empty();
    let bins = required_bins();
    let mut absent: Vec<&str> = Vec::new();
    let mut i: usize = 0;
    assert(all.take(0) =~= Seq::empty());
    assert(start =~= start + runs);
    assert(str_views(absent@) =~= Seq::empty());
    while i < 10
        invariant
            i <= 10,
            bins@.len() == 10,
            all == str_views(bins@),
            runner.trace() == start + runs,
            asks_for_each(runs, all.take(i as int)),
            str_views(absent@) == missing(runs, all.take(i as int)),
        decreases 10 - i,
    {
        let bin = bins[i];
        let ghost before = runs;
        let ghost had = absent@;
        assert(all.take(i + 1).drop_last() =~= all.take(i as int));
        assert(all.take(i + 1).last() == bin@);
        let ask = cat2("command -v ", bin);
        let args: [&str; 2] = ["-c", ask.as_str()];
        let answer = runner.run("sh", &args);
        proof {
            assert(str_views((&args)@) =~= command_args(bin@));
            let run = Invocation { program: "sh"@, args: str_views((&args)@), answer };
            runs = before.push(run);
            assert(runner.trace() =~= start + runs);
            assert(runs.drop_last() =~= before);
            assert forall|k: int| 0 <= k <= i implies asked(
                #[trigger] runs[k],
                "sh"@,
                command_args(all.take(i + 1)[k]),
            ) by {
                if k < i {
                    assert(runs[k] == before[k]);
                    assert(all.take(i as int)[k] == all.take(i + 1)[k]);
                }
            }
        }
        let found = match &answer {
            Ok(o) => o.success(),
            Err(_) => false,
        };
        if !found {
            absent.push(bin);
            assert(str_views(absent@) =~= str_views(had).push(bin@));
        }
        i = i + 1;
    }
    assert(all.take(10) =~= all);
    assert(all =~= required_bin_names());
    if absent.len() == 0 {
        assert(missing(runs, all) =~= Seq::empty());
        check("binaries", CheckStatus::Pass, "all required binaries present".to_owned())
    } else {
        assert(missing(runs, all).len() == absent@.len());
        check("binaries", CheckStatus::Fail, cat2("missing: ", join(absent.as_slice(), ", ").as_str()))
    }
}

// ── PipeWire ─────────────────────────────────────────────────────────────────

/// The arguments that ask for the sound server.
pub open spec fn info_args() -> Seq<Seq<char>> {
    seq!["info"@]
}

/// The check that PipeWire runs.
pub open spec fn pipewire_check(answer: Answer) -> CheckData {
    if succeeded(answer) {
        CheckData {
            name: "pipewire-running"@,
            status: CheckStatus::Pass,
            detail: "PipeWire reachable via pactl"@,
        }
    } else {
        CheckData {
            name: "pipewire-running"@,
            status: CheckStatus::Fail,
            detail: "PipeWire not reachable; is the user session up?"@,
        }
    }
}

fn check_pipewire<R: CommandRunner>(runner: &mut R) -> (c: Check)
    ensures
        exists|run: Invocation|
            final(runner).trace() == old(runner).trace().push(run) && #[trigger] asked(
                run,
                "pactl"@,
                info_args(),
            ) && c@ == pipewire_check(run.answer),
{
    let args: [&str; 1] = ["info"];
    let answer = runner.run("pactl", &args);
    proof {
        assert(str_views((&args)@) =~= info_args());
        let run = Invocation { program: "pactl"@, args: str_views((&args)@), answer };
        assert(asked(run, "pactl"@, info_args()));
    }
    let up = match &answer {
        Ok(o) => o.success(),
        Err(_) => false,
    };
    if up {
        check(
            "pipewire-running",
            CheckStatus::Pass,
            "PipeWire reachable via pactl".to_owned(),
        )
    } else {
        check(
            "pipewire-running",
            CheckStatus::Fail,
            "PipeWire not reachable; is the user session up?".to_owned(),
        )
    }
}

// ── WirePlumber configuration ────────────────────────────────────────────────

/// The check of the WirePlumber configuration.
pub open spec fn wp_check(path: Seq<char>, found: bool) -> CheckData {
    if found {
        CheckData {
            name: "wp-config"@,
            status: CheckStatus::Pass,
            detail: "WirePlumber A2DP config present at "@ + path,
        }
    } else {
        CheckData {
            name: "wp-config"@,
            status: CheckStatus::Fail,
            detail: "WirePlumber A2DP config absent at "@ + path
                + "; run: sudo soundsync apply-wireplumber-config"@,
        }
    }
}

/// Whether these operations, after this answer on the version, check the
/// configuration of the format that they choose.
pub open spec fn is_wp_check(answer: Answer, ops: Seq<FsOp>, c: CheckData) -> bool {
    exists|format: ConfigFormat|
        ops.len() > 0 && #[trigger] is_guarded_choice(
            version_told(answer),
            ops.drop_last(),
            format,
        ) && is_read(ops.last(), path_of(format)) && c == wp_check(
            path_of(format),
            present(ops.last()),
        )
}

fn check_wp_config<R: CommandRunner, F: Fs>(runner: &mut R, fs: &mut F) -> (c: Check)
    ensures
        exists|run: Invocation, ops: Seq<FsOp>|
            final(runner).trace() == old(runner).trace().push(run) && final(fs).ops() == old(
                fs,
            ).ops() + ops && #[trigger] asked(run, "wireplumber"@, version_args())
                && #[trigger] is_wp_check(run.answer, ops, c@),
{
    let ghost start = runner.trace();
    let ghost ops0 = fs.ops();
    let format = detect_config_format_guarded(runner, fs);
    let ghost (run, looks) = choose|run: Invocation, ops: Seq<FsOp>|
        runner.trace() == start.push(run) && fs.ops() == ops0 + ops && #[trigger] asked(
            run,
            "wireplumber"@,
            version_args(),
        ) && #[trigger] is_guarded_choice(version_told(run.answer), ops, format);
    let path = generate_path(format);
    let answer = fs.read_to_string(path);
    let c = if answer.is_ok() {
        check("wp-config", CheckStatus::Pass, cat2("WirePlumber A2DP config present at ", path))
    } else {
        check(
            "wp-config",
            CheckStatus::Fail,
            cat3(
                "WirePlumber A2DP config absent at ",
                path,
                "; run: sudo soundsync apply-wireplumber-config",
            ),
        )
    };
    proof {
        let op = FsOp::Read { path: path@, answer };
        let ops = looks.push(op);
        assert(fs.ops() =~= ops0 + ops);
        assert(ops.drop_last() =~= looks);
        assert(is_wp_check(run.answer, ops, c@));
    }
    c
}

// ── Adapter and web directory ────────────────────────────────────────────────

/// The arguments that ask for an adapter.
pub open spec fn adapter_args(hci: Seq<char>) -> Seq<Seq<char>> {
    seq![hci]
}

/// The check of the Bluetooth adapter.
pub open spec fn adapter_check(hci: Seq<char>, answer: Answer) -> CheckData {
    if succeeded(answer) {
        CheckData { name: "bt-adapter"@, status: CheckStatus::Pass, detail: hci + " adapter present"@ }
    } else {
        CheckData {
            name: "bt-adapter"@,
            status: CheckStatus::Warn,
            detail: "no "@ + hci + " adapter"@,
        }
    }
}

fn check_adapter<R: CommandRunner>(runner: &mut R, hci: &str) -> (c: Check)
    ensures
        exists|run: Invocation|
            final(runner).trace() == old(runner).trace().push(run) && #[trigger] asked(
                run,
                "hciconfig"@,
                adapter_args(hci@),
            ) && c@ == adapter_check(hci@, run.answer),
{
    let args: [&str; 1] = [hci];
    let answer = runner.run("hciconfig", &args);
    proof {
        assert(str_views((&args)@) =~= adapter_args(hci@));
        let run = Invocation { program: "hciconfig"@, args: str_views((&args)@), answer };
        assert(asked(run, "hciconfig"@, adapter_args(hci@)));
    }
    let found = match &answer {
        Ok(o) => o.success(),
        Err(_) => false,
    };
    if found {
        check("bt-adapter", CheckStatus::Pass, cat2(hci, " adapter present"))
    } else {
        check("bt-adapter", CheckStatus::Warn, cat3("no ", hci, " adapter"))
    }
}

/// The start page of the web UI.
pub open spec fn index_of_dir(web_dir: Seq<char>) -> Seq<char> {
    web_dir + "/index.html"@
}

/// The check of the web directory.
pub open spec fn web_check(web_dir: Seq<char>, found: bool) -> CheckData {
    if found {
        CheckData {
            name: "web-dir"@,
            status: CheckStatus::Pass,
            detail: "SPA found at "@ + index_of_dir(web_dir),
        }
    } else {
        CheckData {
            name: "web-dir"@,
            status: CheckStatus::Warn,
            detail: "SPA not found at "@ + web_dir + "; set SOUNDSYNC_WEB_DIR"@,
        }
    }
}

fn check_web_dir<F: Fs>(fs: &mut F, web_dir: &str) -> (c: Check)
    ensures
        exists|op: FsOp|
            final(fs).ops() == old(fs).ops().push(op) && #[trigger] is_read(
                op,
                index_of_dir(web_dir@),
            ) && c@ == web_check(web_dir@, present(op)),
{
    let index = cat2(web_dir, "/index.html");
    let answer = fs.read_to_string(index.as_str());
    proof {
        let op = FsOp::Read { path: index@, answer };
        assert(is_read(op, index_of_dir(web_dir@)));
    }
    if answer.is_ok() {
        check("web-dir", CheckStatus::Pass, cat2("SPA found at ", index.as_str()))
    } else {
        check(
            "web-dir",
            CheckStatus::Warn,
            cat3("SPA not found at ", web_dir, "; set SOUNDSYNC_WEB_DIR"),
        )
    }
}

// ── The whole check ──────────────────────────────────────────────────────────

/// Whether these runs and operations, and these checks, are a self-check: the
/// binaries, the sound server, the WirePlumber configuration, the adapter and the web
/// directory, in this order.
pub open spec fn is_report(
    runs: Seq<Invocation>,
    ops: Seq<FsOp>,
    web_dir: Seq<char>,
    hci: Seq<char>,
    checks: Seq<CheckData>,
) -> bool {
    let n = required_bin_names().len() as int;
    &&& runs.len() == n + 3
    &&& ops.len() > 0
    &&& checks.len() == 5
    &&& asks_for_each(runs.take(n), required_bin_names())
    &&& checks[0] == binaries_check(missing(runs.take(n), required_bin_names()))
    &&& asked(runs[n], "pactl"@, info_args())
    &&& checks[1] == pipewire_check(runs[n].answer)
    &&& asked(runs[n + 1], "wireplumber"@, version_args())
    &&& is_wp_check(runs[n + 1].answer, ops.drop_last(), checks[2])
    &&& asked(runs[n + 2], "hciconfig"@, adapter_args(hci))
    &&& checks[3] == adapter_check(hci, runs[n + 2].answer)
    &&& is_read(ops.last(), index_of_dir(web_dir))
    &&& checks[4] == web_check(web_dir, present(ops.last()))
}

/// Run all checks, of the adapter `hci` and the web-UI directory `web_dir` as they
/// were resolved.
pub fn run_checks_on<R: CommandRunner, F: Fs>(
    runner: &mut R,
    fs: &mut F,
    web_dir: &str,
    hci: &str,
) -> (report: DoctorReport)
    ensures
        exists|runs: Seq<Invocation>, ops: Seq<FsOp>|
            final(runner).trace() == old(runner).trace() + runs && final(fs).ops() == old(fs).ops()
                + ops && #[trigger] is_report(runs, ops, web_dir@, hci@, report@),
{
    let ghost start = runner.trace();
    let ghost ops0 = fs.ops();
    let ghost names = required_bin_names();
    let c0 = check_binaries(runner);
    let ghost bin_runs = choose|runs: Seq<Invocation>|
        runner.trace() == start + runs && #[trigger] asks_for_each(runs, names) && c0@
            == binaries_check(missing(runs, names));
    let ghost t1 = runner.trace();
    let c1 = check_pipewire(runner);
    let ghost run1 = choose|run: Invocation|
        runner.trace() == t1.push(run) && #[trigger] asked(run, "pactl"@, info_args()) && c1@
            == pipewire_check(run.answer);
    let ghost t2 = runner.trace();
    let c2 = check_wp_config(runner, fs);
    let ghost (run2, wp_ops) = choose|run: Invocation, ops: Seq<FsOp>|
        runner.trace() == t2.push(run) && fs.ops() == ops0 + ops && #[trigger] asked(
            run,
            "wireplumber"@,
            version_args(),
        ) && #[trigger] is_wp_check(run.answer, ops, c2@);
    let ghost t3 = runner.trace();
    let c3 = check_adapter(runner, hci);
    let ghost run3 = choose|run: Invocation|
        runner.trace() == t3.push(run) && #[trigger] asked(
            run,
            "hciconfig"@,
            adapter_args(hci@),
        ) && c3@ == adapter_check(hci@, run.answer);
    let ghost o1 = fs.ops();
    let c4 = check_web_dir(fs, web_dir);
    let ghost web_op = choose|op: FsOp|
        fs.ops() == o1.push(op) && #[trigger] is_read(op, index_of_dir(web_dir@)) && c4@
            == web_check(web_dir@, present(op));
    let ghost said = seq![c0@, c1@, c2@, c3@, c4@];
    let mut checks: Vec<Check> = Vec::new();
    checks.push(c0);
    checks.push(c1);
    checks.push(c2);
    checks.push(c3);
    checks.push(c4);
    let report = DoctorReport { checks };
    proof {
        assert(report@ =~= said);
        let runs = bin_runs + seq![run1, run2, run3];
        let ops = wp_ops.push(web_op);
        assert(runner.trace() =~= start + runs);
        assert(fs.ops() =~= ops0 + ops);
        assert(runs.take(names.len() as int) =~= bin_runs);
        assert(ops.drop_last() =~= wp_ops);
        assert(is_report(runs, ops, web_dir@, hci@, report@));
    }
    report
}

/// Run all checks, with `hci0` as the adapter.
pub fn run_checks<R: CommandRunner, F: Fs>(runner: &mut R, fs: &mut F, web_dir: &str) -> (report:
    DoctorReport)
    ensures
        exists|runs: Seq<Invocation>, ops: Seq<FsOp>|
            final(runner).trace() == old(runner).trace() + runs && final(fs).ops() == old(fs).ops()
                + ops && #[trigger] is_report(
                runs,
                ops,
                web_dir@,
                crate::adapter_id::FALLBACK_ADAPTER@,
                report@,
            ),
{
    run_checks_on(runner, fs, web_dir, crate::adapter_id::FALLBACK_ADAPTER)
}

/// The self-check only reads: none of its file operations writes.
pub proof fn the_self_check_only_reads(
    runs: Seq<Invocation>,
    ops: Seq<FsOp>,
    web_dir: Seq<char>,
    hci: Seq<char>,
    checks: Seq<CheckData>,
)
    requires
        is_report(runs, ops, web_dir, hci, checks),
    ensures
        forall|i: int| 0 <= i < ops.len() ==> #[trigger] ops[i] is Read,
{
    let wp = ops.drop_last();
    let n = required_bin_names().len() as int;
    let format = choose|format: ConfigFormat|
        wp.len() > 0 && #[trigger] is_guarded_choice(
            version_told(runs[n + 1].answer),
            wp.drop_last(),
            format,
        ) && is_read(wp.last(), path_of(format)) && checks[2] == wp_check(
            path_of(format),
            present(wp.last()),
        );
    let looks = wp.drop_last();
    assert forall|i: int| 0 <= i < ops.len() implies #[trigger] ops[i] is Read by {
        if i == ops.len() - 1 {
            assert(ops[i] == ops.last());
        } else if i == wp.len() - 1 {
            assert(ops[i] == wp.last());
        } else {
            assert(ops[i] == looks[i]);
        }
    }
}

/// A missing adapter or web directory is a warning: it never fails the self-check.
pub proof fn adapter_and_web_directory_never_fail(
    runs: Seq<Invocation>,
    ops: Seq<FsOp>,
    web_dir: Seq<char>,
    hci: Seq<char>,
    checks: Seq<CheckData>,
)
    requires
        is_report(runs, ops, web_dir, hci, checks),
    ensures
        checks[3].status != CheckStatus::Fail,
        checks[4].status != CheckStatus::Fail,
{
}

/// Every check has its line in the report, in the order of the checks: its mark, its name
/// and its detail.
pub proof fn every_check_has_its_line(checks: Seq<CheckData>, i: int)
    requires
        0 <= i < checks.len(),
    ensures
        exists|mark: Seq<char>, after: Seq<char>|
            report_text(checks) == #[trigger] (report_text(checks.take(i)) + (mark + " ["@
                + checks[i].name + "] "@ + checks[i].detail + "\n"@) + after) && mark == (
            match checks[i].status {
                CheckStatus::Pass => "✓"@,
                CheckStatus::Warn => "⚠"@,
                CheckStatus::Fail => "✗"@,
            }),
    decreases checks.len(),
{
    let front = checks.drop_last();
    let mark = icon_of(checks[i].status);
    let line = mark + " ["@ + checks[i].name + "] "@ + checks[i].detail + "\n"@;
    if i == checks.len() - 1 {
        assert(front =~= checks.take(i));
        let after = Seq::<char>::empty();
        assert(report_text(checks) =~= report_text(checks.take(i)) + line + after);
    } else {
        every_check_has_its_line(front, i);
        assert(front[i] == checks[i]);
        assert(front.take(i) =~= checks.take(i));
        let (m, rest) = choose|mark: Seq<char>, after: Seq<char>|
            report_text(front) == #[trigger] (report_text(front.take(i)) + (mark + " ["@
                + front[i].name + "] "@ + front[i].detail + "\n"@) + after) && mark == (
            match front[i].status {
                CheckStatus::Pass => "✓"@,
                CheckStatus::Warn => "⚠"@,
                CheckStatus::Fail => "✗"@,
            });
        let after = rest + report_line(checks.last());
        assert(report_text(checks) =~= report_text(checks.take(i)) + line + after);
    }
}

/// A binary is missing exactly where its own run did not succeed, at whatever place it
/// stands.
pub proof fn missing_binaries_are_those_not_found(
    runs: Seq<Invocation>,
    bins: Seq<Seq<char>>,
    bin: Seq<char>,
)
    requires
        runs.len() == bins.len(),
    ensures
        missing(runs, bins).contains(bin) <==> exists|i: int|
            0 <= i < bins.len() && #[trigger] bins[i] == bin && (runs[i].answer is Err
                || runs[i].answer->Ok_0.status != 0),
        missing(runs, bins).len() == 0 <==> forall|i: int|
            0 <= i < runs.len() ==> (#[trigger] runs[i]).answer is Ok && runs[i].answer->Ok_0.status
                == 0,
    decreases bins.len(),
{
    let all = missing(runs, bins);
    if bins.len() > 0 {
        let n = bins.len() - 1;
        let (fr, fb) = (runs.drop_last(), bins.drop_last());
        let head = missing(fr, fb);
        missing_binaries_are_those_not_found(fr, fb, bin);
        assert forall|i: int| 0 <= i < n implies #[trigger] fr[i] == runs[i] && fb[i] == bins[i] by {}
        if head.contains(bin) {
            let a = choose|a: int| 0 <= a < head.len() && head[a] == bin;
            assert(all[a] == bin);
            let i = choose|i: int|
                0 <= i < fb.len() && #[trigger] fb[i] == bin && (fr[i].answer is Err
                    || fr[i].answer->Ok_0.status != 0);
            assert(bins[i] == bin && fr[i] == runs[i]);
        }
        if bins[n] == bin && !succeeded(runs[n].answer) {
            assert(all[head.len() as int] == bin);
        }
        if exists|i: int|
            0 <= i < bins.len() && #[trigger] bins[i] == bin && (runs[i].answer is Err
                || runs[i].answer->Ok_0.status != 0) {
            let i = choose|i: int|
                0 <= i < bins.len() && #[trigger] bins[i] == bin && (runs[i].answer is Err
                    || runs[i].answer->Ok_0.status != 0);
            if i < n {
                assert(fb[i] == bin && fr[i] == runs[i]);
            }
        }
        if all.contains(bin) && !head.contains(bin) {
            let a = choose|a: int| 0 <= a < all.len() && all[a] == bin;
            if a < head.len() {
                assert(head[a] == bin);
            }
            assert(bins[n] == bin);
        }
        if all.len() == 0 {
            assert forall|i: int| 0 <= i < runs.len() implies (#[trigger] runs[i]).answer is Ok
                && runs[i].answer->Ok_0.status == 0 by {
                if i < n {
                    assert(fr[i] == runs[i]);
                }
            }
        }
        if forall|i: int|
            0 <= i < runs.len() ==> (#[trigger] runs[i]).answer is Ok && runs[i].answer->Ok_0.status
                == 0 {
            assert forall|i: int| 0 <= i < fr.len() implies (#[trigger] fr[i]).answer is Ok
                && fr[i].answer->Ok_0.status == 0 by {
                assert(fr[i] == runs[i]);
            }
            assert(runs[n].answer is Ok);
        }
    }
}

/// Each check passes exactly where what it asked for was found: all of the binaries, the
/// sound server, the adapter, the start page.
pub proof fn checks_pass_where_things_are_found(
    runs: Seq<Invocation>,
    ops: Seq<FsOp>,
    web_dir: Seq<char>,
    hci: Seq<char>,
    checks: Seq<CheckData>,
)
    requires
        is_report(runs, ops, web_dir, hci, checks),
    ensures
        runs.len() == 13,
        checks[0].status == CheckStatus::Pass <==> forall|i: int|
            0 <= i < 10 ==> (#[trigger] runs[i]).answer is Ok && runs[i].answer->Ok_0.status == 0,
        checks[0].status != CheckStatus::Warn,
        checks[1].status == CheckStatus::Pass <==> runs[10].answer is Ok
            && runs[10].answer->Ok_0.status == 0,
        checks[1].status != CheckStatus::Warn,
        checks[3].status == CheckStatus::Pass <==> runs[12].answer is Ok
            && runs[12].answer->Ok_0.status == 0,
        runs[12].program == "hciconfig"@ && runs[12].args == seq![hci],
        ops.last() is Read && ops.last()->path == web_dir + "/index.html"@,
        checks[4].status == CheckStatus::Pass <==> ops.last()->Read_answer is Ok,
{
    let n = required_bin_names().len() as int;
    assert(n == 10);
    let first = runs.take(n);
    missing_binaries_are_those_not_found(first, required_bin_names(), Seq::empty());
    assert forall|i: int| 0 <= i < 10 implies #[trigger] first[i] == runs[i] by {}
    if forall|i: int|
        0 <= i < 10 ==> (#[trigger] runs[i]).answer is Ok && runs[i].answer->Ok_0.status == 0 {
        assert forall|i: int| 0 <= i < first.len() implies (#[trigger] first[i]).answer is Ok
            && first[i].answer->Ok_0.status == 0 by {
            assert(first[i] == runs[i]);
        }
    }
    if checks[0].status == CheckStatus::Pass {
        assert forall|i: int| 0 <= i < 10 implies (#[trigger] runs[i]).answer is Ok
            && runs[i].answer->Ok_0.status == 0 by {
            assert(first[i] == runs[i]);
        }
    }
}

/// The configuration of WirePlumber is looked for where its version, or else what is there,
/// says that it belongs; the check passes exactly where it is found.
pub proof fn the_configuration_is_looked_for_in_its_place(
    answer: Answer,
    ops: Seq<FsOp>,
    c: CheckData,
)
    requires
        is_wp_check(answer, ops, c),
    ensures
        ops.last() is Read,
        c.status == CheckStatus::Pass <==> ops.last()->Read_answer is Ok,
        c.status != CheckStatus::Warn,
        version_told(answer) matches Some(v) ==> ops.len() == 1 && ops.last()->path == path_of(
            crate::capabilities::version::format_of(v),
        ),
{
    let format = choose|format: ConfigFormat|
        ops.len() > 0 && #[trigger] is_guarded_choice(
            version_told(answer),
            ops.drop_last(),
            format,
        ) && is_read(ops.last(), path_of(format)) && c == wp_check(
            path_of(format),
            present(ops.last()),
        );
}

/// Each of the ten programs is asked for by name, then the sound server, the version of
/// WirePlumber and the adapter; a binary that was not found is named in the detail.
pub proof fn every_program_is_asked_for(
    runs: Seq<Invocation>,
    ops: Seq<FsOp>,
    web_dir: Seq<char>,
    hci: Seq<char>,
    checks: Seq<CheckData>,
    i: int,
)
    requires
        is_report(runs, ops, web_dir, hci, checks),
        0 <= i < 10,
    ensures
        runs[i].program == "sh"@ && runs[i].args == seq![
            "-c"@,
            "command -v "@ + required_bin_names()[i],
        ],
        runs[10].program == "pactl"@ && runs[10].args == seq!["info"@],
        runs[11].program == "wireplumber"@ && runs[11].args == seq!["--version"@],
        checks[0].name == "binaries"@ && checks[1].name == "pipewire-running"@ && checks[2].name
            == "wp-config"@ && checks[3].name == "bt-adapter"@ && checks[4].name == "web-dir"@,
        runs[i].answer is Err || runs[i].answer->Ok_0.status != 0 ==> checks[0].status
            == CheckStatus::Fail && exists|absent: Seq<Seq<char>>|
            checks[0].detail == "missing: "@ + #[trigger] joined(absent, ", "@) && absent.contains(
                required_bin_names()[i],
            ),
{
    let n = required_bin_names().len() as int;
    assert(n == 10);
    let first = runs.take(n);
    assert(first[i] == runs[i]);
    assert(asked(first[i], "sh"@, command_args(required_bin_names()[i])));
    let absent = missing(first, required_bin_names());
    missing_binaries_are_those_not_found(first, required_bin_names(), required_bin_names()[i]);
    if runs[i].answer is Err || runs[i].answer->Ok_0.status != 0 {
        assert(required_bin_names()[i] == required_bin_names()[i]);
        assert(absent.contains(required_bin_names()[i]));
        assert(absent.len() > 0);
        assert(checks[0].detail == "missing: "@ + joined(absent, ", "@));
    }
}

/// The ten programs that are needed.
pub proof fn ten_programs_are_needed()
    ensures
        required_bin_names() == seq![
            "parec"@,
            "pw-cat"@,
            "pactl"@,
            "wpctl"@,
            "pw-link"@,
            "pw-metadata"@,
            "ffmpeg"@,
            "hciconfig"@,
            "pipewire"@,
            "wireplumber"@,
        ],
{
}

/// What a check says depends on what was found, and names the place or the adapter that it
/// is about.
pub proof fn checks_tell_what_was_found(
    answer: Answer,
    hci: Seq<char>,
    path: Seq<char>,
    web_dir: Seq<char>,
)
    ensures
        answer is Ok && answer->Ok_0.status == 0 ==> pipewire_check(answer).status
            == CheckStatus::Pass && pipewire_check(answer).detail == "PipeWire reachable via pactl"@
            && adapter_check(hci, answer).status == CheckStatus::Pass && adapter_check(
            hci,
            answer,
        ).detail == hci + " adapter present"@,
        answer is Err || answer->Ok_0.status != 0 ==> pipewire_check(answer).status
            == CheckStatus::Fail && pipewire_check(answer).detail
            == "PipeWire not reachable; is the user session up?"@ && adapter_check(
            hci,
            answer,
        ).status == CheckStatus::Warn && adapter_check(hci, answer).detail == "no "@ + hci
            + " adapter"@,
        wp_check(path, true).status == CheckStatus::Pass && wp_check(path, true).detail
            == "WirePlumber A2DP config present at "@ + path,
        wp_check(path, false).status == CheckStatus::Fail && wp_check(path, false).detail
            == "WirePlumber A2DP config absent at "@ + path
            + "; run: sudo soundsync apply-wireplumber-config"@,
        web_check(web_dir, true).status == CheckStatus::Pass && web_check(web_dir, true).detail
            == "SPA found at "@ + (web_dir + "/index.html"@),
        web_check(web_dir, false).status == CheckStatus::Warn && web_check(web_dir, false).detail
            == "SPA not found at "@ + web_dir + "; set SOUNDSYNC_WEB_DIR"@,
        binaries_check(Seq::empty()).status == CheckStatus::Pass && binaries_check(
            Seq::empty(),
        ).detail == "all required binaries present"@,
{
}

/// A report holds five checks and rests on one run for each program and three more, the last
/// of them on the adapter.
pub proof fn reports_hold_five_checks(
    runs: Seq<Invocation>,
    ops: Seq<FsOp>,
    web_dir: Seq<char>,
    hci: Seq<char>,
    checks: Seq<CheckData>,
)
    requires
        is_report(runs, ops, web_dir, hci, checks),
    ensures
        checks.len() == 5,
        runs.len() == 13,
        runs[12].program == "hciconfig"@ && runs[12].args == seq![hci],
{
}

} // verus!
