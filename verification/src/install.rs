//! Install-time and boot-time configuration, run as root. Errors are texts for the
//! journal.
use vstd::prelude::*;
use crate::bluetooth::adapter::{class_args, hciconfig_result, name_args, set_class_of_device, set_hci_name, unit_result};
use crate::capabilities::probe::{detect_config_format, format_told, version_args, version_told};
use crate::capabilities::version::ConfigFormat;
use crate::sys::command::{asked, CommandRunner, Invocation};
use crate::text::cat2;

verus! {

/// What writing the WirePlumber configuration did.
#[derive(Debug, PartialEq, Eq)]
pub struct AppliedConfig {
    /// The file that was written.
    pub written_path: String,
    /// The file of the other format, which is removed where it is there.
    pub removed_stale_path: String,
    /// Whether WirePlumber was restarted.
    pub restarted: bool,
}

/// A truth value as it is written.
pub open spec fn shown_bool(b: bool) -> Seq<char> {
    if b {
        "true"@
    } else {
        "false"@
    }
}

/// The summary of what was done.
pub open spec fn summary_of(
    written_path: Seq<char>,
    removed_stale_path: Seq<char>,
    restarted: bool,
) -> Seq<char> {
    "wrote: "@ + written_path + "\nremoved stale: "@ + removed_stale_path
        + "\nwireplumber restarted: "@ + shown_bool(restarted)
}

/// Whether this result reports what applying a configuration came to.
pub open spec fn reports(applied: Result<AppliedConfig, String>, r: Result<String, String>) -> bool {
    match applied {
        Ok(a) => r is Ok && r->Ok_0@ == summary_of(
            a.written_path@,
            a.removed_stale_path@,
            a.restarted,
        ),
        Err(e) => r is Err && r->Err_0@ == "failed to write WirePlumber config: "@ + e@,
    }
}

/// Report what writing the WirePlumber A2DP configuration and restarting WirePlumber
/// came to: a summary on success, or an error text.
pub fn apply_wireplumber_config(applied: Result<AppliedConfig, String>) -> (r: Result<
    String,
    String,
>)
    ensures
        reports(applied, r),
{
    match applied {
        Ok(a) => {
            let mut out = cat2("wrote: ", a.written_path.as_str());
            out.append("\nremoved stale: ");
            out.append(a.removed_stale_path.as_str());
            out.append("\nwireplumber restarted: ");
            out.append(
                if a.restarted {
                    "true"
                } else {
                    "false"
                },
            );
            Ok(out)
        },
        Err(e) => Err(cat2("failed to write WirePlumber config: ", e.as_str())),
    }
}

/// Write the WirePlumber A2DP configuration in the format that suits the installed
/// version: `wireplumber --version` decides on the format, `apply` writes that and
/// restarts WirePlumber, and what it came to is reported.
pub fn apply_detected_config<
    R: CommandRunner,
    A: Fn(ConfigFormat) -> Result<AppliedConfig, String>,
>(runner: &mut R, apply: A) -> (r: Result<String, String>)
    requires
        forall|f: ConfigFormat| call_requires(apply, (f,)),
    ensures
        exists|run: Invocation, applied: Result<AppliedConfig, String>|
            {
                &&& final(runner).trace() == old(runner).trace().push(run)
                &&& #[trigger] asked(run, "wireplumber"@, version_args())
                &&& call_ensures(apply, (format_told(version_told(run.answer)),), applied)
                &&& #[trigger] reports(applied, r)
            },
{
    let ghost start = runner.trace();
    let format = detect_config_format(runner);
    let applied = apply(format);
    let ghost said = applied;
    let r = apply_wireplumber_config(applied);
    proof {
        let run = choose|run: Invocation|
            runner.trace() == start.push(run) && #[trigger] asked(
                run,
                "wireplumber"@,
                version_args(),
            ) && format == format_told(version_told(run.answer));
        assert(asked(run, "wireplumber"@, version_args()));
        assert(reports(said, r));
    }
    r
}

/// Whether these runs, and this result, configure an adapter: its class is set first,
/// and its name only where that succeeded.
pub open spec fn is_adapter_config(
    runs: Seq<Invocation>,
    hci: Seq<char>,
    name: Seq<char>,
    r: Result<(), Seq<char>>,
) -> bool {
    &&& runs.len() >= 1
    &&& asked(runs[0], "hciconfig"@, class_args(hci))
    &&& match hciconfig_result(class_args(hci), runs[0].answer) {
        Err(e) => runs.len() == 1 && r == Err::<(), Seq<char>>(e),
        Ok(()) => runs.len() == 2 && asked(runs[1], "hciconfig"@, name_args(hci, name)) && r
            == hciconfig_result(name_args(hci, name), runs[1].answer),
    }
}

/// Set the Bluetooth adapter's Class-of-Device (0x240414) and HCI-level name.
pub fn apply_adapter_config<R: CommandRunner>(runner: &mut R, hci: &str, name: &str) -> (r: Result<
    (),
    String,
>)
    ensures
        exists|runs: Seq<Invocation>|
            final(runner).trace() == old(runner).trace() + runs && #[trigger] is_adapter_config(
                runs,
                hci@,
                name@,
                unit_result(r),
            ),
{
    let ghost start = runner.trace();
    let class = set_class_of_device(runner, hci);
    let ghost run0 = choose|run: Invocation|
        runner.trace() == start.push(run) && #[trigger] asked(
            run,
            "hciconfig"@,
            class_args(hci@),
        ) && unit_result(class) == hciconfig_result(class_args(hci@), run.answer);
    let ghost one = seq![run0];
    assert(runner.trace() =~= start + one);
    if class.is_err() {
        assert(is_adapter_config(one, hci@, name@, unit_result(class)));
        return class;
    }
    let ghost middle = runner.trace();
    let r = set_hci_name(runner, hci, name);
    proof {
        let run1 = choose|run: Invocation|
            runner.trace() == middle.push(run) && #[trigger] asked(
                run,
                "hciconfig"@,
                name_args(hci@, name@),
            ) && unit_result(r) == hciconfig_result(name_args(hci@, name@), run.answer);
        let two = seq![run0, run1];
        assert(runner.trace() =~= start + two);
        assert(is_adapter_config(two, hci@, name@, unit_result(r)));
    }
    r
}

/// An adapter is configured where both its class and its name could be set; the name is not
/// tried where the class failed.
pub proof fn adapters_get_class_and_name(
    runs: Seq<Invocation>,
    hci: Seq<char>,
    name: Seq<char>,
    r: Result<(), Seq<char>>,
)
    requires
        is_adapter_config(runs, hci, name, r),
    ensures
        runs[0].program == "hciconfig"@ && runs[0].args == seq![hci, "class"@, "0x240414"@],
        runs[0].answer is Err || runs[0].answer->Ok_0.status != 0 ==> runs.len() == 1 && r is Err,
        runs[0].answer is Ok && runs[0].answer->Ok_0.status == 0 ==> runs.len() == 2
            && runs[1].program == "hciconfig"@ && runs[1].args == seq![hci, "name"@, name],
        r is Ok <==> runs.len() == 2 && runs[1].answer is Ok && runs[1].answer->Ok_0.status == 0,
{
}

/// The report tells the file that was written, the one that was removed and whether
/// WirePlumber was restarted, a line each; a failure is told with its reason.
pub proof fn reports_tell_what_was_done(
    applied: Result<AppliedConfig, String>,
    r: Result<String, String>,
)
    requires
        reports(applied, r),
    ensures
        r is Ok <==> applied is Ok,
        applied matches Ok(a) ==> r->Ok_0@ == "wrote: "@ + a.written_path@ + "\nremoved stale: "@
            + a.removed_stale_path@ + "\nwireplumber restarted: "@ + (if a.restarted {
            "true"@
        } else {
            "false"@
        }),
        applied matches Err(e) ==> crate::text::ends(r->Err_0@, e@),
{
    if let Err(e) = applied {
        crate::text::searching_goes_by_the_characters(r->Err_0@, e@);
    }
}

} // verus!
