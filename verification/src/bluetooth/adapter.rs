//! Adapter configuration that BlueZ does not offer, via `hciconfig`.
use vstd::prelude::*;
use crate::sys::command::{asked, Answer, CommandRunner, Invocation};
use crate::text::{cat2, debug_list, debug_list_text, str_views, trim, trimmed};

verus! {

/// Audio/Video major, HiFi minor, Rendering+Audio service bits. Audio sources
/// filter by the class of a device and skip adapters that do not look like a sink.
pub const ADAPTER_COD: &'static str = "0x240414";

/// What `hciconfig` with these arguments came to: success where it ran and exited
/// with zero, else an error that says what failed.
pub open spec fn hciconfig_result(args: Seq<Seq<char>>, answer: Answer) -> Result<(), Seq<char>> {
    match answer {
        Ok(o) => if o.ok() {
            Ok(())
        } else {
            Err("hciconfig "@ + debug_list_text(args) + " failed: "@ + trimmed(o.stderr@))
        },
        Err(e) => Err("failed to run hciconfig: "@ + e@),
    }
}

/// What a result with a message says.
pub open spec fn unit_result(r: Result<(), String>) -> Result<(), Seq<char>> {
    match r {
        Ok(()) => Ok(()),
        Err(e) => Err(e@),
    }
}

/// Run `hciconfig`.
pub fn run_hciconfig<R: CommandRunner>(runner: &mut R, args: &[&str]) -> (r: Result<(), String>)
    ensures
        exists|run: Invocation|
            final(runner).trace() == old(runner).trace().push(run) && #[trigger] asked(
                run,
                "hciconfig"@,
                str_views(args@),
            ) && unit_result(r) == hciconfig_result(str_views(args@), run.answer),
{
    let answer = runner.run("hciconfig", args);
    let ghost run = Invocation { program: "hciconfig"@, args: str_views(args@), answer };
    assert(asked(run, "hciconfig"@, str_views(args@)));
    match &answer {
        Ok(o) => if o.success() {
            Ok(())
        } else {
            let mut e = cat2("hciconfig ", debug_list(args).as_str());
            e.append(" failed: ");
            e.append(trim(o.stderr.as_str()).as_str());
            Err(e)
        },
        Err(e) => Err(cat2("failed to run hciconfig: ", e.as_str())),
    }
}

/// The arguments that set the class of an adapter.
pub open spec fn class_args(hci: Seq<char>) -> Seq<Seq<char>> {
    seq![hci, "class"@, ADAPTER_COD@]
}

/// The arguments that set the HCI name of an adapter.
pub open spec fn name_args(hci: Seq<char>, name: Seq<char>) -> Seq<Seq<char>> {
    seq![hci, "name"@, name]
}

/// Force the adapter's Class-of-Device via `hciconfig <hci> class 0x240414`.
pub fn set_class_of_device<R: CommandRunner>(runner: &mut R, hci: &str) -> (r: Result<(), String>)
    ensures
        exists|run: Invocation|
            final(runner).trace() == old(runner).trace().push(run) && #[trigger] asked(
                run,
                "hciconfig"@,
                class_args(hci@),
            ) && unit_result(r) == hciconfig_result(class_args(hci@), run.answer),
{
    let args: [&str; 3] = [hci, "class", ADAPTER_COD];
    assert(str_views((&args)@) =~= class_args(hci@));
    run_hciconfig(runner, &args)
}

/// Set the adapter's HCI-level name: some source firmwares read the raw HCI name
/// instead of the BlueZ alias.
pub fn set_hci_name<R: CommandRunner>(runner: &mut R, hci: &str, name: &str) -> (r: Result<
    (),
    String,
>)
    ensures
        exists|run: Invocation|
            final(runner).trace() == old(runner).trace().push(run) && #[trigger] asked(
                run,
                "hciconfig"@,
                name_args(hci@, name@),
            ) && unit_result(r) == hciconfig_result(name_args(hci@, name@), run.answer),
{
    let args: [&str; 3] = [hci, "name", name];
    assert(str_views((&args)@) =~= name_args(hci@, name@));
    run_hciconfig(runner, &args)
}

/// An adapter is told its class and its name under its own id, and the result says whether
/// `hciconfig` succeeded.
pub proof fn adapters_are_told_class_and_name(hci: Seq<char>, name: Seq<char>, answer: Answer)
    ensures
        class_args(hci) == seq![hci, "class"@, "0x240414"@],
        name_args(hci, name) == seq![hci, "name"@, name],
        hciconfig_result(class_args(hci), answer) is Ok <==> answer is Ok && answer->Ok_0.status == 0,
        hciconfig_result(name_args(hci, name), answer) is Ok <==> answer is Ok
            && answer->Ok_0.status == 0,
{
}

/// A call of `hciconfig` that cannot be made says so with the reason, one that fails names
/// its arguments and what was printed of it, and any other is as good as done.
pub proof fn failed_calls_are_told(args: Seq<Seq<char>>, answer: Answer)
    ensures
        hciconfig_result(args, answer) is Ok <==> answer is Ok && answer->Ok_0.status == 0,
        answer matches Err(e) ==> hciconfig_result(args, answer) == Err::<(), Seq<char>>(
            "failed to run hciconfig: "@ + e@,
        ),
        answer is Ok && answer->Ok_0.status != 0 ==> hciconfig_result(args, answer) == Err::<
            (),
            Seq<char>,
        >("hciconfig "@ + debug_list_text(args) + " failed: "@ + trimmed(answer->Ok_0.stderr@)),
{
}

} // verus!
