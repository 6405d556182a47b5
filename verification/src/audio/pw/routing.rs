//! Default-sink routing (pactl, with a wpctl fallback) and module unload.
use vstd::prelude::*;
use crate::audio::pw::parse::{find_wpctl_node_id, node_id_from};
use crate::sys::command::{asked, succeeded, Answer, CommandRunner, Invocation};
use crate::text::{cat2, cat3, cat4, decimal, lines_of, render, str_views, told, trim, trimmed};

verus! {

/// Which mechanism set the default sink.
#[derive(Debug, Clone, Copy, PartialEq, Eq, Structural)]
pub enum DefaultSink {
    Pactl,
    Wpctl(u32),
}

/// The arguments that make a sink the default by pactl.
pub open spec fn set_default_args(sink_name: Seq<char>) -> Seq<Seq<char>> {
    seq!["set-default-sink"@, sink_name]
}

/// The arguments that ask wpctl for its status.
pub open spec fn status_args() -> Seq<Seq<char>> {
    seq!["status"@]
}

/// The arguments that make a node the default by wpctl.
pub open spec fn set_node_args(id: nat) -> Seq<Seq<char>> {
    seq!["set-default"@, decimal(id)]
}

/// What setting node `id` by wpctl came to.
pub open spec fn node_set(id: nat, answer: Answer) -> Result<DefaultSink, Seq<char>> {
    match answer {
        Err(e) => Err("wpctl set-default failed: "@ + e@),
        Ok(o) => if o.ok() {
            Ok(DefaultSink::Wpctl(id as u32))
        } else {
            Err("`wpctl set-default "@ + decimal(id) + "` failed: "@ + trimmed(o.stderr@))
        },
    }
}

/// Whether these runs, and this result, are a routing of the default sink: pactl
/// first; where it fails, the node's id from `wpctl status` and `wpctl set-default`.
pub open spec fn is_routing(
    runs: Seq<Invocation>,
    sink_name: Seq<char>,
    r: Result<DefaultSink, Seq<char>>,
) -> bool {
    &&& runs.len() >= 1
    &&& asked(runs[0], "pactl"@, set_default_args(sink_name))
    &&& if succeeded(runs[0].answer) {
        runs.len() == 1 && r == Ok::<DefaultSink, Seq<char>>(DefaultSink::Pactl)
    } else {
        &&& runs.len() >= 2
        &&& asked(runs[1], "wpctl"@, status_args())
        &&& match runs[1].answer {
            Err(e) => runs.len() == 2 && r == Err::<DefaultSink, Seq<char>>(
                "wpctl status failed: "@ + e@,
            ),
            Ok(o) => if !o.ok() {
                runs.len() == 2 && r == Err::<DefaultSink, Seq<char>>(
                    "cannot set default sink "@ + sink_name
                        + ": pactl failed and `wpctl status` failed"@,
                )
            } else {
                match node_id_from(lines_of(o.stdout@), 0, sink_name) {
                    None => runs.len() == 2 && r == Err::<DefaultSink, Seq<char>>(
                        sink_name + " not found in `wpctl status`"@,
                    ),
                    Some(id) => runs.len() == 3 && asked(runs[2], "wpctl"@, set_node_args(id)) && r
                        == node_set(id, runs[2].answer),
                }
            },
        }
    }
}

/// Route the default sink to `sink_name`. Tries `pactl set-default-sink`; on failure
/// (non-zero or spawn error) falls back to resolving the node id from `wpctl status`
/// and `wpctl set-default <id>`.
pub fn set_default_sink<R: CommandRunner>(runner: &mut R, sink_name: &str) -> (r: Result<
    DefaultSink,
    String,
>)
    ensures
        exists|runs: Seq<Invocation>|
            final(runner).trace() == old(runner).trace() + runs && #[trigger] is_routing(
                runs,
                sink_name@,
                told(r),
            ),
{
    let ghost start = runner.trace();
    let args: [&str; 2] = ["set-default-sink", sink_name];
    let first = runner.run("pactl", &args);
    assert(str_views((&args)@) =~= set_default_args(sink_name@));
    let ghost run0 = Invocation { program: "pactl"@, args: set_default_args(sink_name@), answer: first };
    let done = match &first {
        Ok(o) => o.success(),
        Err(_) => false,
    };
    if done {
        assert(runner.trace() =~= start + seq![run0]);
        assert(is_routing(seq![run0], sink_name@, Ok(DefaultSink::Pactl)));
        return Ok(DefaultSink::Pactl);
    }
    let args: [&str; 1] = ["status"];
    let status = runner.run("wpctl", &args);
    assert(str_views((&args)@) =~= status_args());
    let ghost run1 = Invocation { program: "wpctl"@, args: status_args(), answer: status };
    let ghost two = seq![run0, run1];
    assert(runner.trace() =~= start + two);
    let out = match &status {
        Ok(o) => o,
        Err(e) => {
            let r = Err(cat2("wpctl status failed: ", e.as_str()));
            assert(is_routing(two, sink_name@, told(r)));
            return r;
        },
    };
    if !out.success() {
        let r = Err(
            cat3(
                "cannot set default sink ",
                sink_name,
                ": pactl failed and `wpctl status` failed",
            ),
        );
        assert(is_routing(two, sink_name@, told(r)));
        return r;
    }
    let id: u32 = match find_wpctl_node_id(out.stdout.as_str(), sink_name) {
        Some(id) => id,
        None => {
            let r = Err(cat2(sink_name, " not found in `wpctl status`"));
            assert(is_routing(two, sink_name@, told(r)));
            return r;
        },
    };
    let id_str = render(id as u64);
    let args: [&str; 2] = ["set-default", id_str.as_str()];
    let set = runner.run("wpctl", &args);
    assert(str_views((&args)@) =~= set_node_args(id as nat));
    let ghost run2 = Invocation { program: "wpctl"@, args: set_node_args(id as nat), answer: set };
    let ghost three = seq![run0, run1, run2];
    assert(runner.trace() =~= start + three);
    let r = match &set {
        Err(e) => Err(cat2("wpctl set-default failed: ", e.as_str())),
        Ok(o) => if o.success() {
            Ok(DefaultSink::Wpctl(id))
        } else {
            Err(
                cat4(
                    "`wpctl set-default ",
                    id_str.as_str(),
                    "` failed: ",
                    trim(o.stderr.as_str()).as_str(),
                ),
            )
        },
    };
    assert(is_routing(three, sink_name@, told(r)));
    r
}

/// The arguments that unload a module.
pub open spec fn unload_args(module_id: u32) -> Seq<Seq<char>> {
    seq!["unload-module"@, decimal(module_id as nat)]
}

/// What unloading a module came to.
pub open spec fn unload_result(module_id: u32, answer: Answer) -> Result<(), Seq<char>> {
    match answer {
        Err(e) => Err("failed to run pactl: "@ + e@),
        Ok(o) => if o.ok() {
            Ok(())
        } else {
            Err("unload-module "@ + decimal(module_id as nat) + " failed: "@ + trimmed(o.stderr@))
        },
    }
}

/// Unload a PulseAudio or pipewire-pulse module by id (`pactl unload-module`).
pub fn unload_module<R: CommandRunner>(runner: &mut R, module_id: u32) -> (r: Result<(), String>)
    ensures
        exists|run: Invocation|
            final(runner).trace() == old(runner).trace().push(run) && #[trigger] asked(
                run,
                "pactl"@,
                unload_args(module_id),
            ) && told(r) == unload_result(module_id, run.answer),
{
    let id_str = render(module_id as u64);
    let args: [&str; 2] = ["unload-module", id_str.as_str()];
    let answer = runner.run("pactl", &args);
    proof {
        assert(str_views((&args)@) =~= unload_args(module_id));
        let run = Invocation { program: "pactl"@, args: str_views((&args)@), answer };
        assert(asked(run, "pactl"@, unload_args(module_id)));
    }
    match &answer {
        Err(e) => Err(cat2("failed to run pactl: ", e.as_str())),
        Ok(o) => if o.success() {
            Ok(())
        } else {
            Err(
                cat4(
                    "unload-module ",
                    id_str.as_str(),
                    " failed: ",
                    trim(o.stderr.as_str()).as_str(),
                ),
            )
        },
    }
}

/// The default sink is set exactly where the last run that sets it succeeds: pactl names
/// the sink, wpctl the node that its status shows under that name; wpctl is asked only
/// where pactl failed.
pub proof fn routing_sets_the_named_sink(
    runs: Seq<Invocation>,
    sink_name: Seq<char>,
    r: Result<DefaultSink, Seq<char>>,
)
    requires
        is_routing(runs, sink_name, r),
    ensures
        runs[0].program == "pactl"@ && runs[0].args == seq!["set-default-sink"@, sink_name],
        r == Ok::<DefaultSink, Seq<char>>(DefaultSink::Pactl) <==> runs[0].answer is Ok
            && runs[0].answer->Ok_0.status == 0,
        runs[0].answer is Ok && runs[0].answer->Ok_0.status == 0 ==> runs.len() == 1,
        r is Ok ==> runs.last().answer is Ok && runs.last().answer->Ok_0.status == 0,
        r matches Ok(DefaultSink::Wpctl(id)) ==> runs.len() == 3 && runs[1].program == "wpctl"@
            && runs[1].args == seq!["status"@] && runs[2].program == "wpctl"@ && runs[2].args.len()
            == 2 && runs[2].args[0] == "set-default"@ && exists|n: nat|
            node_id_from(lines_of(runs[1].answer->Ok_0.stdout@), 0, sink_name) == Some(n)
                && runs[2].args[1] == #[trigger] decimal(n) && id == n as u32,
        runs.len() == 3 && runs[2].answer is Ok && runs[2].answer->Ok_0.status == 0 ==> r is Ok,
        runs.len() >= 2 && runs[1].answer is Ok && runs[1].answer->Ok_0.status == 0 && node_id_from(
            lines_of(runs[1].answer->Ok_0.stdout@),
            0,
            sink_name,
        ) is Some ==> runs.len() == 3,
{
    if runs.len() == 3 {
        let n = node_id_from(lines_of(runs[1].answer->Ok_0.stdout@), 0, sink_name)->0;
        assert(runs[2].args[1] == decimal(n));
    }
}

/// A module is unloaded exactly where pactl succeeds with its id.
pub proof fn unloading_tells_the_truth(module_id: u32, answer: Answer)
    ensures
        unload_result(module_id, answer) is Ok <==> answer is Ok && answer->Ok_0.status == 0,
        unload_args(module_id).len() == 2,
        unload_args(module_id)[0] == "unload-module"@,
        unload_args(module_id)[1] == decimal(module_id as nat),
{
}

} // verus!
