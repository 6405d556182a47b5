//! The capture null sink: reuse it or create it, and clear away duplicates.
use vstd::prelude::*;
use crate::audio::pw::parse::{id_value, null_sink_in, null_sinks_of, parse_all_null_sink_module_ids, parse_null_sink_module_id};
use crate::audio::pw::routing::{unload_args, unload_module, unload_result};
use crate::output::loopback::printed_ids_read_back;
use crate::sys::command::{asked, succeeded, Answer, CommandRunner, Invocation};
use crate::text::{cat2, cat3, cat4, cat5, contains, decimal, holds, lines_of, parse_u32, parsed, render, str_views, told, trim, trimmed, written_numbers_read_back};

verus! {

/// How often the null sink is tried to be created.
pub const MAX_ATTEMPTS: u32 = 10;

/// The longest wait between two attempts, in seconds.
pub const MAX_BACKOFF_SECS: u64 = 5;

/// Result of ensuring the null sink exists.
#[derive(Debug, Clone, Copy, PartialEq, Eq, Structural)]
pub struct NullSink {
    /// Module id, when known (pactl load-module prints it; reuse looks it up).
    pub module_id: Option<u32>,
    /// True if an existing sink was reused rather than newly created.
    pub reused: bool,
}

/// What one step of ensuring the null sink came to.
#[derive(Debug, PartialEq, Eq)]
pub enum EnsureStep {
    /// It is settled.
    Done(Result<NullSink, String>),
    /// Attempt `tried` has failed: wait, and go on from there.
    Retry { tried: u32, after_secs: u64 },
}

// ── Looking for the sink ─────────────────────────────────────────────────────

/// The arguments that list the modules.
pub open spec fn modules_args() -> Seq<Seq<char>> {
    seq!["list"@, "modules"@]
}

/// The null sink that a list of the modules shows.
pub open spec fn existing(answer: Answer, sink_name: Seq<char>) -> Option<nat> {
    match answer {
        Ok(o) => if o.ok() {
            null_sink_in(o.stdout@, sink_name)
        } else {
            None
        },
        Err(_) => None,
    }
}

/// Look for the null sink in the list of the modules.
pub fn find_existing<R: CommandRunner>(runner: &mut R, sink_name: &str) -> (id: Option<u32>)
    ensures
        exists|run: Invocation|
            final(runner).trace() == old(runner).trace().push(run) && #[trigger] asked(
                run,
                "pactl"@,
                modules_args(),
            ) && id_value(id) == existing(run.answer, sink_name@),
{
    let args: [&str; 2] = ["list", "modules"];
    let answer = runner.run("pactl", &args);
    proof {
        assert(str_views((&args)@) =~= modules_args());
        let run = Invocation { program: "pactl"@, args: str_views((&args)@), answer };
        assert(asked(run, "pactl"@, modules_args()));
    }
    match &answer {
        Ok(o) => if o.success() {
            parse_null_sink_module_id(o.stdout.as_str(), sink_name)
        } else {
            None
        },
        Err(_) => None,
    }
}

// ── Verifying that the sink is there ─────────────────────────────────────────

/// The arguments that list the sinks.
pub open spec fn sinks_args() -> Seq<Seq<char>> {
    seq!["list"@, "short"@, "sinks"@]
}

/// An optional module id as it is shown in messages.
pub open spec fn shown_id(id: Option<u32>) -> Seq<char> {
    match id {
        Some(n) => "Some("@ + decimal(n as nat) + ")"@,
        None => "None"@,
    }
}

/// Why the sink was not found: it never could be loaded, or it was loaded and did
/// not show up.
pub open spec fn missing_error(
    sink_name: Seq<char>,
    loaded: bool,
    module_id: Option<u32>,
    last_err: Seq<char>,
) -> Seq<char> {
    if loaded {
        "null sink "@ + sink_name + " was loaded (module "@ + shown_id(module_id)
            + ") but did not appear in `pactl list short sinks`"@
    } else {
        "null sink "@ + sink_name + " not created after "@ + decimal(MAX_ATTEMPTS as nat)
            + " attempts; last error: "@ + last_err
    }
}

/// Whether these runs, and this result, are a verification that the sink appears.
/// Where its module id is not known, it is looked up again.
pub open spec fn is_verification(
    runs: Seq<Invocation>,
    sink_name: Seq<char>,
    loaded: bool,
    module_id: Option<u32>,
    last_err: Seq<char>,
    r: Result<NullSink, Seq<char>>,
) -> bool {
    &&& runs.len() >= 1
    &&& asked(runs[0], "pactl"@, sinks_args())
    &&& match runs[0].answer {
        Err(e) => runs.len() == 1 && r == Err::<NullSink, Seq<char>>(
            "failed to run pactl for verification: "@ + e@,
        ),
        Ok(o) => if o.ok() && holds(o.stdout@, sink_name) {
            &&& r is Ok
            &&& r->Ok_0.reused == !loaded
            &&& if module_id is Some {
                runs.len() == 1 && r->Ok_0.module_id == module_id
            } else {
                runs.len() == 2 && asked(runs[1], "pactl"@, modules_args()) && id_value(
                    r->Ok_0.module_id,
                ) == existing(runs[1].answer, sink_name)
            }
        } else {
            runs.len() == 1 && r == Err::<NullSink, Seq<char>>(
                missing_error(sink_name, loaded, module_id, last_err),
            )
        },
    }
}

fn shown(id: Option<u32>) -> (out: String)
    ensures
        out@ == shown_id(id),
{
    match id {
        Some(n) => cat3("Some(", render(n as u64).as_str(), ")"),
        None => "None".to_owned(),
    }
}

fn verify_sink<R: CommandRunner>(
    runner: &mut R,
    sink_name: &str,
    loaded: bool,
    module_id: Option<u32>,
    last_err: &str,
) -> (r: Result<NullSink, String>)
    ensures
        exists|runs: Seq<Invocation>|
            final(runner).trace() == old(runner).trace() + runs && #[trigger] is_verification(
                runs,
                sink_name@,
                loaded,
                module_id,
                last_err@,
                told(r),
            ),
{
    let ghost start = runner.trace();
    let args: [&str; 3] = ["list", "short", "sinks"];
    let answer = runner.run("pactl", &args);
    assert(str_views((&args)@) =~= sinks_args());
    let ghost run0 = Invocation { program: "pactl"@, args: sinks_args(), answer };
    let ghost one = seq![run0];
    assert(runner.trace() =~= start + one);
    let r = match &answer {
        Err(e) => Err(cat2("failed to run pactl for verification: ", e.as_str())),
        Ok(o) => if o.success() && contains(o.stdout.as_str(), sink_name) {
            if module_id.is_some() {
                Ok(NullSink { module_id, reused: !loaded })
            } else {
                let id = find_existing(runner, sink_name);
                let r = Ok(NullSink { module_id: id, reused: !loaded });
                proof {
                    let run1 = choose|run: Invocation|
                        runner.trace() == (start + one).push(run) && #[trigger] asked(
                            run,
                            "pactl"@,
                            modules_args(),
                        ) && id_value(id) == existing(run.answer, sink_name@);
                    assert(runner.trace() =~= start + seq![run0, run1]);
                    assert(is_verification(
                        seq![run0, run1],
                        sink_name@,
                        loaded,
                        module_id,
                        last_err@,
                        told(r),
                    ));
                }
                return r;
            }
        } else if loaded {
            Err(
                cat5(
                    "null sink ",
                    sink_name,
                    " was loaded (module ",
                    shown(module_id).as_str(),
                    ") but did not appear in `pactl list short sinks`",
                ),
            )
        } else {
            let mut e = cat4(
                "null sink ",
                sink_name,
                " not created after ",
                render(MAX_ATTEMPTS as u64).as_str(),
            );
            e.append(" attempts; last error: ");
            e.append(last_err);
            Err(e)
        },
    };
    assert(is_verification(one, sink_name@, loaded, module_id, last_err@, told(r)));
    r
}

// ── Creating the sink ────────────────────────────────────────────────────────

/// The arguments that load the null sink.
pub open spec fn load_args(sink_name: Seq<char>, description: Seq<char>) -> Seq<Seq<char>> {
    seq![
        "load-module"@,
        "module-null-sink"@,
        "sink_name="@ + sink_name,
        "sink_properties=device.description="@ + description,
    ]
}

/// The wait after a failed attempt: as many seconds as there were attempts, up to
/// five.
pub open spec fn backoff(attempt: int) -> int {
    if attempt < MAX_BACKOFF_SECS {
        attempt
    } else {
        MAX_BACKOFF_SECS as int
    }
}

/// Whether these runs, and this step, are attempt `attempt` at creating the sink.
pub open spec fn is_attempt(
    runs: Seq<Invocation>,
    sink_name: Seq<char>,
    description: Seq<char>,
    attempt: int,
    step: EnsureStep,
) -> bool {
    &&& runs.len() >= 1
    &&& asked(runs[0], "pactl"@, load_args(sink_name, description))
    &&& match runs[0].answer {
        Err(e) => runs.len() == 1 && step is Done && told(step->Done_0) == Err::<
            NullSink,
            Seq<char>,
        >("failed to run pactl: "@ + e@),
        Ok(o) => if o.ok() {
            step is Done && exists|id: Option<u32>|
                id_value(id) == parsed(trimmed(o.stdout@), u32::MAX as nat)
                    && #[trigger] is_verification(
                    runs.skip(1),
                    sink_name,
                    true,
                    id,
                    Seq::empty(),
                    told(step->Done_0),
                )
        } else if attempt < MAX_ATTEMPTS {
            &&& runs.len() == 1
            &&& step matches EnsureStep::Retry { tried, after_secs }
            &&& tried == attempt
            &&& after_secs == backoff(attempt)
        } else {
            step is Done && is_verification(
                runs.skip(1),
                sink_name,
                false,
                None,
                trimmed(o.stderr@),
                told(step->Done_0),
            )
        },
    }
}

/// Whether these runs, and this step, go on ensuring the sink after `tried` failed
/// attempts: the sink is looked for once, before the first attempt.
pub open spec fn is_ensuring(
    runs: Seq<Invocation>,
    sink_name: Seq<char>,
    description: Seq<char>,
    tried: int,
    step: EnsureStep,
) -> bool {
    if tried == 0 {
        &&& runs.len() >= 1
        &&& asked(runs[0], "pactl"@, modules_args())
        &&& match existing(runs[0].answer, sink_name) {
            Some(id) => runs.len() == 1 && step is Done && told(step->Done_0) == Ok::<
                NullSink,
                Seq<char>,
            >(NullSink { module_id: Some(id as u32), reused: true }),
            None => is_attempt(runs.skip(1), sink_name, description, 1, step),
        }
    } else {
        is_attempt(runs, sink_name, description, tried + 1, step)
    }
}

fn try_load<R: CommandRunner>(
    runner: &mut R,
    sink_name: &str,
    description: &str,
    attempt: u32,
) -> (step: EnsureStep)
    requires
        1 <= attempt <= MAX_ATTEMPTS,
    ensures
        exists|runs: Seq<Invocation>|
            final(runner).trace() == old(runner).trace() + runs && #[trigger] is_attempt(
                runs,
                sink_name@,
                description@,
                attempt as int,
                step,
            ),
{
    let ghost start = runner.trace();
    let sink_arg = cat2("sink_name=", sink_name);
    let props_arg = cat2("sink_properties=device.description=", description);
    let args: [&str; 4] = [
        "load-module",
        "module-null-sink",
        sink_arg.as_str(),
        props_arg.as_str(),
    ];
    let answer = runner.run("pactl", &args);
    assert(str_views((&args)@) =~= load_args(sink_name@, description@));
    let ghost run0 = Invocation {
        program: "pactl"@,
        args: load_args(sink_name@, description@),
        answer,
    };
    let ghost one = seq![run0];
    assert(runner.trace() =~= start + one);
    let out = match &answer {
        Ok(o) => o,
        Err(e) => {
            let step = EnsureStep::Done(Err(cat2("failed to run pactl: ", e.as_str())));
            assert(is_attempt(one, sink_name@, description@, attempt as int, step));
            return step;
        },
    };
    if !out.success() && attempt < MAX_ATTEMPTS {
        let after_secs: u64 = if (attempt as u64) < MAX_BACKOFF_SECS {
            attempt as u64
        } else {
            MAX_BACKOFF_SECS
        };
        let step = EnsureStep::Retry { tried: attempt, after_secs };
        assert(is_attempt(one, sink_name@, description@, attempt as int, step));
        return step;
    }
    let loaded = out.success();
    let module_id = if loaded {
        parse_u32(trim(out.stdout.as_str()).as_str())
    } else {
        None
    };
    let last_err = if loaded {
        String::new()
    } else {
        trim(out.stderr.as_str())
    };
    let r = verify_sink(runner, sink_name, loaded, module_id, last_err.as_str());
    let ghost said = told(r);
    let step = EnsureStep::Done(r);
    proof {
        let more = choose|runs: Seq<Invocation>|
            runner.trace() == start + one + runs && #[trigger] is_verification(
                runs,
                sink_name@,
                loaded,
                module_id,
                last_err@,
                said,
            );
        let runs = one + more;
        assert(runner.trace() =~= start + runs);
        assert(runs.skip(1) =~= more);
        assert(last_err@ =~= (if loaded {
            Seq::empty()
        } else {
            trimmed(out.stderr@)
        }));
        assert(is_attempt(runs, sink_name@, description@, attempt as int, step));
    }
    step
}

/// Reuse the null sink if it already exists; otherwise create it via
/// `pactl load-module module-null-sink`, in up to ten attempts with a wait between
/// them (pipewire-pulse may not be ready right after boot), then verify that it
/// appears in `pactl list short sinks`.
///
/// Each call makes one attempt. `tried` is the number of attempts that have failed;
/// on `Retry` the caller waits and calls again with the number it holds.
pub fn ensure_null_sink<R: CommandRunner>(
    runner: &mut R,
    sink_name: &str,
    description: &str,
    tried: u32,
) -> (step: EnsureStep)
    requires
        tried < MAX_ATTEMPTS,
    ensures
        exists|runs: Seq<Invocation>|
            final(runner).trace() == old(runner).trace() + runs && #[trigger] is_ensuring(
                runs,
                sink_name@,
                description@,
                tried as int,
                step,
            ),
{
    let ghost start = runner.trace();
    if tried > 0 {
        let step = try_load(runner, sink_name, description, tried + 1);
        proof {
            let runs = choose|runs: Seq<Invocation>|
                runner.trace() == start + runs && #[trigger] is_attempt(
                    runs,
                    sink_name@,
                    description@,
                    tried + 1,
                    step,
                );
            assert(is_ensuring(runs, sink_name@, description@, tried as int, step));
        }
        return step;
    }
    let found = find_existing(runner, sink_name);
    let ghost run0 = choose|run: Invocation|
        runner.trace() == start.push(run) && #[trigger] asked(run, "pactl"@, modules_args())
            && id_value(found) == existing(run.answer, sink_name@);
    let ghost one = seq![run0];
    assert(runner.trace() =~= start + one);
    if found.is_some() {
        let step = EnsureStep::Done(Ok(NullSink { module_id: found, reused: true }));
        assert(is_ensuring(one, sink_name@, description@, 0, step));
        return step;
    }
    let step = try_load(runner, sink_name, description, 1);
    proof {
        let more = choose|runs: Seq<Invocation>|
            runner.trace() == start + one + runs && #[trigger] is_attempt(
                runs,
                sink_name@,
                description@,
                1,
                step,
            );
        let runs = one + more;
        assert(runner.trace() =~= start + runs);
        assert(runs.skip(1) =~= more);
        assert(is_ensuring(runs, sink_name@, description@, 0, step));
    }
    step
}

/// A sink that exists is reused: nothing is loaded.
pub proof fn an_existing_sink_is_reused(
    runs: Seq<Invocation>,
    sink_name: Seq<char>,
    description: Seq<char>,
    step: EnsureStep,
)
    requires
        is_ensuring(runs, sink_name, description, 0, step),
        existing(runs[0].answer, sink_name) is Some,
    ensures
        step is Done && step->Done_0 is Ok && step->Done_0->Ok_0.reused,
        forall|i: int|
            0 <= i < runs.len() ==> !asked(
                #[trigger] runs[i],
                "pactl"@,
                load_args(sink_name, description),
            ),
{
    assert(modules_args().len() != load_args(sink_name, description).len());
}

/// Every step either settles the matter or counts one more attempt, and the tenth
/// attempt settles it: creating the sink is attempted ten times at most.
pub proof fn attempts_are_bounded(
    runs: Seq<Invocation>,
    sink_name: Seq<char>,
    description: Seq<char>,
    tried: int,
    step: EnsureStep,
)
    requires
        0 <= tried < MAX_ATTEMPTS,
        is_ensuring(runs, sink_name, description, tried, step),
    ensures
        step matches EnsureStep::Retry { tried: t, after_secs } ==> t == tried + 1 && t
            < MAX_ATTEMPTS && 1 <= after_secs <= MAX_BACKOFF_SECS,
{
}

// ── Duplicates ───────────────────────────────────────────────────────────────

/// The arguments that list the modules, one to a line.
pub open spec fn short_modules_args() -> Seq<Seq<char>> {
    seq!["list"@, "short"@, "modules"@]
}

/// The ids without the one to keep.
pub open spec fn others(ids: Seq<u32>, keep: u32) -> Seq<u32>
    decreases ids.len(),
{
    if ids.len() == 0 {
        Seq::empty()
    } else {
        let head = others(ids.drop_last(), keep);
        if ids.last() == keep {
            head
        } else {
            head.push(ids.last())
        }
    }
}

/// How many of the runs succeeded.
pub open spec fn successes(runs: Seq<Invocation>) -> nat
    decreases runs.len(),
{
    if runs.len() == 0 {
        0
    } else {
        successes(runs.drop_last()) + if succeeded(runs.last().answer) {
            1nat
        } else {
            0nat
        }
    }
}

/// Whether the runs unload these modules, one after the other.
pub open spec fn unload_each(runs: Seq<Invocation>, ids: Seq<u32>) -> bool {
    runs.len() == ids.len() && forall|i: int|
        0 <= i < ids.len() ==> asked(#[trigger] runs[i], "pactl"@, unload_args(ids[i]))
}

/// The duplicates that a short list of the modules shows.
pub open spec fn duplicates(answer: Answer, sink_name: Seq<char>, canonical: u32) -> Seq<u32> {
    match answer {
        Ok(o) => if o.ok() {
            others(null_sinks_of(lines_of(o.stdout@), sink_name), canonical)
        } else {
            Seq::empty()
        },
        Err(_) => Seq::empty(),
    }
}

/// Whether these runs are a sweep that unloaded `count` duplicates.
pub open spec fn is_sweep(
    runs: Seq<Invocation>,
    sink_name: Seq<char>,
    canonical: u32,
    count: int,
) -> bool {
    &&& runs.len() >= 1
    &&& asked(runs[0], "pactl"@, short_modules_args())
    &&& unload_each(runs.skip(1), duplicates(runs[0].answer, sink_name, canonical))
    &&& count == successes(runs.skip(1))
}

/// Startup sweep of duplicate `sink_name=<sink_name>` null-sink modules. Given the
/// module id that [`ensure_null_sink`] established as the live sink, unload every
/// other `module-null-sink` whose arguments carry `sink_name=<sink_name>`.
///
/// Duplicates share the node name, so the survivor is told by its module id. Best
/// effort: a duplicate that cannot be unloaded is passed over.
///
/// Returns the number of duplicates that were unloaded.
pub fn sweep_duplicate_null_sinks<R: CommandRunner>(
    runner: &mut R,
    sink_name: &str,
    canonical_module_id: u32,
) -> (unloaded: usize)
    ensures
        exists|runs: Seq<Invocation>|
            final(runner).trace() == old(runner).trace() + runs && #[trigger] is_sweep(
                runs,
                sink_name@,
                canonical_module_id,
                unloaded as int,
            ),
{
    let ghost start = runner.trace();
    let args: [&str; 3] = ["list", "short", "modules"];
    let answer = runner.run("pactl", &args);
    assert(str_views((&args)@) =~= short_modules_args());
    let ghost run0 = Invocation { program: "pactl"@, args: short_modules_args(), answer };
    let ghost mut more: Seq<Invocation> = Seq::empty();
    assert(runner.trace() =~= start.push(run0) + more);
    let mut unloaded: usize = 0;
    let listed = match &answer {
        Ok(o) => o.success(),
        Err(_) => false,
    };
    let ids: Vec<u32> = match &answer {
        Ok(o) => if listed {
            parse_all_null_sink_module_ids(o.stdout.as_str(), sink_name)
        } else {
            Vec::new()
        },
        Err(_) => Vec::new(),
    };
    let mut i: usize = 0;
    assert(ids@.take(0) =~= Seq::empty());
    while i < ids.len()
        invariant
            i <= ids@.len(),
            unloaded <= i,
            runner.trace() == start.push(run0) + more,
            unload_each(more, others(ids@.take(i as int), canonical_module_id)),
            unloaded == successes(more),
        decreases ids@.len() - i,
    {
        let id: u32 = ids[i];
        assert(ids@.take(i + 1).drop_last() =~= ids@.take(i as int));
        assert(ids@.take(i + 1).last() == id);
        if id != canonical_module_id {
            let ghost before = more;
            let r = unload_module(runner, id);
            proof {
                let run = choose|run: Invocation|
                    runner.trace() == (start.push(run0) + before).push(run) && #[trigger] asked(
                        run,
                        "pactl"@,
                        unload_args(id),
                    ) && told(r) == unload_result(id, run.answer);
                more = before.push(run);
                assert(runner.trace() =~= start.push(run0) + more);
                assert(more.drop_last() =~= before);
            }
            if r.is_ok() {
                unloaded = unloaded + 1;
            }
        }
        i = i + 1;
    }
    proof {
        assert(ids@.take(ids@.len() as int) =~= ids@);
        let runs = seq![run0] + more;
        assert(runs.skip(1) =~= more);
        assert(runner.trace() =~= start + runs);
        assert(others(Seq::<u32>::empty(), canonical_module_id) =~= Seq::<u32>::empty());
        assert(ids@ =~= Seq::empty() || listed);
        assert(duplicates(answer, sink_name@, canonical_module_id) =~= others(
            ids@,
            canonical_module_id,
        ));
        assert(is_sweep(runs, sink_name@, canonical_module_id, unloaded as int));
    }
    unloaded
}

proof fn lemma_others(ids: Seq<u32>, keep: u32)
    ensures
        !others(ids, keep).contains(keep),
        forall|id: u32| id != keep && ids.contains(id) ==> #[trigger] others(ids, keep).contains(id),
    decreases ids.len(),
{
    if ids.len() > 0 {
        let head = ids.drop_last();
        lemma_others(head, keep);
        let o = others(ids, keep);
        let oh = others(head, keep);
        assert forall|i: int| 0 <= i < o.len() implies o[i] != keep by {
            if i < oh.len() {
                assert(oh.contains(oh[i]));
            }
        }
        assert forall|id: u32| id != keep && ids.contains(id) implies #[trigger] o.contains(id) by {
            let k = choose|k: int| 0 <= k < ids.len() && ids[k] == id;
            if k < head.len() {
                assert(head[k] == id);
                assert(oh.contains(id));
                let j = choose|j: int| 0 <= j < oh.len() && oh[j] == id;
                assert(o[j] == id);
            } else {
                assert(o.last() == id);
            }
        }
    }
}

/// A sweep never unloads the module that it is to keep, and asks for every other
/// one of that name to be unloaded.
pub proof fn sweeping_keeps_the_canonical_sink(
    runs: Seq<Invocation>,
    sink_name: Seq<char>,
    canonical: u32,
    count: int,
)
    requires
        is_sweep(runs, sink_name, canonical, count),
    ensures
        forall|i: int|
            0 <= i < runs.len() ==> !asked(#[trigger] runs[i], "pactl"@, unload_args(canonical)),
        succeeded(runs[0].answer) ==> forall|id: u32|
            id != canonical && #[trigger] null_sinks_of(
                lines_of(runs[0].answer->Ok_0.stdout@),
                sink_name,
            ).contains(id) ==> exists|i: int|
                1 <= i < runs.len() && asked(#[trigger] runs[i], "pactl"@, unload_args(id)),
        count <= runs.len() - 1,
{
    let dups = duplicates(runs[0].answer, sink_name, canonical);
    let more = runs.skip(1);
    assert(!dups.contains(canonical)) by {
        if succeeded(runs[0].answer) {
            lemma_others(
                null_sinks_of(lines_of(runs[0].answer->Ok_0.stdout@), sink_name),
                canonical,
            );
        }
    }
    assert forall|i: int| 0 <= i < runs.len() implies !asked(
        #[trigger] runs[i],
        "pactl"@,
        unload_args(canonical),
    ) by {
        if i == 0 {
            assert(short_modules_args().len() != unload_args(canonical).len());
        } else {
            assert(more[i - 1] == runs[i]);
            let id = dups[i - 1];
            assert(dups.contains(id));
            if unload_args(id) == unload_args(canonical) {
                assert(unload_args(id)[1] == decimal(id as nat));
                assert(unload_args(canonical)[1] == decimal(canonical as nat));
                written_numbers_read_back(id as nat, u32::MAX as nat);
                written_numbers_read_back(canonical as nat, u32::MAX as nat);
            }
        }
    }
    if succeeded(runs[0].answer) {
        let ids = null_sinks_of(lines_of(runs[0].answer->Ok_0.stdout@), sink_name);
        lemma_others(ids, canonical);
        assert forall|id: u32| id != canonical && #[trigger] ids.contains(id) implies exists|i: int|
            1 <= i < runs.len() && asked(#[trigger] runs[i], "pactl"@, unload_args(id)) by {
            assert(dups.contains(id));
            let j = choose|j: int| 0 <= j < dups.len() && dups[j] == id;
            assert(asked(more[j], "pactl"@, unload_args(dups[j])));
            assert(runs[j + 1] == more[j]);
        }
    }
    lemma_successes(more);
}

proof fn lemma_successes(runs: Seq<Invocation>)
    ensures
        successes(runs) <= runs.len(),
    decreases runs.len(),
{
    if runs.len() > 0 {
        lemma_successes(runs.drop_last());
    }
}

/// The sink is there exactly where the list of the sinks was printed with success and
/// mentions it; it then has the id that is known of it, or else the one that the list of
/// the modules shows, and counts as reused unless it was loaded.
pub proof fn the_sink_is_verified_by_its_name(
    runs: Seq<Invocation>,
    sink_name: Seq<char>,
    loaded: bool,
    module_id: Option<u32>,
    last_err: Seq<char>,
    r: Result<NullSink, Seq<char>>,
)
    requires
        is_verification(runs, sink_name, loaded, module_id, last_err, r),
    ensures
        runs[0].program == "pactl"@ && runs[0].args == seq!["list"@, "short"@, "sinks"@],
        r is Ok <==> runs[0].answer is Ok && runs[0].answer->Ok_0.status == 0 && holds(
            runs[0].answer->Ok_0.stdout@,
            sink_name,
        ),
        r matches Ok(s) ==> s.reused == !loaded,
        r is Ok && module_id is Some ==> r->Ok_0.module_id == module_id && runs.len() == 1,
        r is Ok && module_id is None ==> runs.len() == 2 && runs[1].program == "pactl"@
            && runs[1].args == seq!["list"@, "modules"@] && (runs[1].answer is Ok
            && runs[1].answer->Ok_0.status == 0 ==> id_value(r->Ok_0.module_id) == null_sink_in(
            runs[1].answer->Ok_0.stdout@,
            sink_name,
        )),
{
}

/// An attempt asks for a null sink of that name and description. A sink that is loaded and
/// shows up has the id that was printed; an attempt that fails is repeated after as many
/// seconds as there were attempts, five at most, and the tenth is the last.
pub proof fn attempts_load_the_sink(
    runs: Seq<Invocation>,
    sink_name: Seq<char>,
    description: Seq<char>,
    attempt: int,
    step: EnsureStep,
    n: u32,
)
    requires
        is_attempt(runs, sink_name, description, attempt, step),
        1 <= attempt,
    ensures
        runs[0].program == "pactl"@,
        runs[0].args.len() == 4,
        runs[0].args[0] == "load-module"@,
        runs[0].args[1] == "module-null-sink"@,
        runs[0].args[2] == "sink_name="@ + sink_name,
        runs[0].args[3] == "sink_properties=device.description="@ + description,
        runs[0].answer is Ok && runs[0].answer->Ok_0.status == 0 ==> step is Done && runs.len() >= 2,
        runs[0].answer is Ok && runs[0].answer->Ok_0.status == 0 && runs[0].answer->Ok_0.stdout@
            == decimal(n as nat) + seq!['\n'] && runs.len() >= 2 && runs[1].answer is Ok
            && runs[1].answer->Ok_0.status == 0 && holds(runs[1].answer->Ok_0.stdout@, sink_name)
            ==> step->Done_0 == Ok::<NullSink, String>(
            NullSink { module_id: Some(n), reused: false },
        ),
        runs[0].answer is Err ==> step is Done && step->Done_0 is Err,
        runs[0].answer is Ok && runs[0].answer->Ok_0.status != 0 && attempt < 10 ==> step
            == (EnsureStep::Retry {
            tried: attempt as u32,
            after_secs: (if attempt < 5 {
                attempt
            } else {
                5
            }) as u64,
        }),
        attempt >= 10 ==> step is Done,
{
    if runs[0].answer is Ok && runs[0].answer->Ok_0.status == 0 {
        let o = runs[0].answer->Ok_0;
        let id = choose|id: Option<u32>|
            id_value(id) == parsed(trimmed(o.stdout@), u32::MAX as nat) && #[trigger] is_verification(
                runs.skip(1),
                sink_name,
                true,
                id,
                Seq::empty(),
                told(step->Done_0),
            );
        assert(runs.skip(1)[0] == runs[1]);
        if o.stdout@ == decimal(n as nat) + seq!['\n'] {
            let empty = Seq::<char>::empty();
            let feed = seq!['\n'];
            assert(empty + decimal(n as nat) + feed =~= decimal(n as nat) + feed);
            printed_ids_read_back(empty, n, feed);
            assert(id == Some(n));
        }
    }
}

/// The sink is looked for before it is loaded, and looked for only once; one that is found
/// is used as it is.
pub proof fn sinks_are_looked_for_first(
    runs: Seq<Invocation>,
    sink_name: Seq<char>,
    description: Seq<char>,
    tried: int,
    step: EnsureStep,
)
    requires
        is_ensuring(runs, sink_name, description, tried, step),
    ensures
        tried == 0 ==> runs[0].program == "pactl"@ && runs[0].args == seq!["list"@, "modules"@],
        tried == 0 && runs[0].answer is Ok && runs[0].answer->Ok_0.status == 0 && null_sink_in(
            runs[0].answer->Ok_0.stdout@,
            sink_name,
        ) is Some ==> runs.len() == 1 && step is Done && step->Done_0 == Ok::<NullSink, String>(
            NullSink {
                module_id: Some(null_sink_in(runs[0].answer->Ok_0.stdout@, sink_name)->0 as u32),
                reused: true,
            },
        ),
        tried == 0 && (runs[0].answer is Err || runs[0].answer->Ok_0.status != 0 || null_sink_in(
            runs[0].answer->Ok_0.stdout@,
            sink_name,
        ) is None) ==> runs.len() >= 2 && runs[1].args.len() == 4 && runs[1].args[1]
            == "module-null-sink"@,
        tried > 0 ==> runs[0].args.len() == 4 && runs[0].args[1] == "module-null-sink"@,
{
    if tried == 0 && existing(runs[0].answer, sink_name) is None {
        assert(runs.skip(1)[0] == runs[1]);
    }
}

/// A sweep unloads nothing but null sinks of that name, and counts the modules that were
/// unloaded with success.
pub proof fn sweeping_unloads_only_duplicates(
    runs: Seq<Invocation>,
    sink_name: Seq<char>,
    canonical: u32,
    count: int,
)
    requires
        is_sweep(runs, sink_name, canonical, count),
    ensures
        forall|i: int|
            1 <= i < runs.len() ==> runs[0].answer is Ok && exists|id: u32|
                #[trigger] null_sinks_of(
                    lines_of(runs[0].answer->Ok_0.stdout@),
                    sink_name,
                ).contains(id) && id != canonical && asked(
                    #[trigger] runs[i],
                    "pactl"@,
                    seq!["unload-module"@, decimal(id as nat)],
                ),
        runs[0].answer is Err || runs[0].answer->Ok_0.status != 0 ==> runs.len() == 1 && count == 0,
        (forall|i: int|
            1 <= i < runs.len() ==> (#[trigger] runs[i]).answer is Ok && runs[i].answer->Ok_0.status
                == 0) ==> count == runs.len() - 1,
        (forall|i: int|
            1 <= i < runs.len() ==> (#[trigger] runs[i]).answer is Err
                || runs[i].answer->Ok_0.status != 0) ==> count == 0,
{
    let dups = duplicates(runs[0].answer, sink_name, canonical);
    let more = runs.skip(1);
    assert forall|i: int| 1 <= i < runs.len() implies runs[0].answer is Ok && exists|id: u32|
        #[trigger] null_sinks_of(lines_of(runs[0].answer->Ok_0.stdout@), sink_name).contains(id)
            && id != canonical && asked(
            #[trigger] runs[i],
            "pactl"@,
            seq!["unload-module"@, decimal(id as nat)],
        ) by {
        assert(more[i - 1] == runs[i]);
        let ids = null_sinks_of(lines_of(runs[0].answer->Ok_0.stdout@), sink_name);
        lemma_only_others(ids, canonical);
        let id = dups[i - 1];
        assert(dups.contains(id));
        assert(ids.contains(id));
        assert(asked(runs[i], "pactl"@, unload_args(id)));
    }
    assert forall|i: int| 0 <= i < more.len() implies #[trigger] more[i] == runs[i + 1] by {}
    lemma_counted(more);
    if forall|i: int|
        1 <= i < runs.len() ==> (#[trigger] runs[i]).answer is Ok && runs[i].answer->Ok_0.status
            == 0 {
        assert forall|i: int| 0 <= i < more.len() implies succeeded((#[trigger] more[i]).answer) by {
            assert(more[i] == runs[i + 1]);
        }
    }
    if forall|i: int|
        1 <= i < runs.len() ==> (#[trigger] runs[i]).answer is Err || runs[i].answer->Ok_0.status
            != 0 {
        assert forall|i: int| 0 <= i < more.len() implies !succeeded((#[trigger] more[i]).answer) by {
            assert(more[i] == runs[i + 1]);
        }
    }
}

proof fn lemma_only_others(ids: Seq<u32>, keep: u32)
    ensures
        forall|id: u32|
            #[trigger] others(ids, keep).contains(id) ==> ids.contains(id) && id != keep,
    decreases ids.len(),
{
    if ids.len() > 0 {
        let head = ids.drop_last();
        lemma_only_others(head, keep);
        let o = others(ids, keep);
        let oh = others(head, keep);
        assert forall|id: u32| #[trigger] o.contains(id) implies ids.contains(id) && id != keep by {
            let k = choose|k: int| 0 <= k < o.len() && o[k] == id;
            if k < oh.len() {
                assert(oh.contains(id));
                let j = choose|j: int| 0 <= j < head.len() && head[j] == id;
                assert(ids[j] == id);
            } else {
                assert(ids[ids.len() - 1] == id);
            }
        }
    }
}

proof fn lemma_counted(runs: Seq<Invocation>)
    ensures
        (forall|i: int| 0 <= i < runs.len() ==> succeeded((#[trigger] runs[i]).answer))
            ==> successes(runs) == runs.len(),
        (forall|i: int| 0 <= i < runs.len() ==> !succeeded((#[trigger] runs[i]).answer))
            ==> successes(runs) == 0,
    decreases runs.len(),
{
    if runs.len() > 0 {
        let head = runs.drop_last();
        lemma_counted(head);
        assert forall|i: int| 0 <= i < head.len() implies #[trigger] head[i] == runs[i] by {}
        assert(runs[runs.len() - 1] == runs.last());
    }
}

/// The error names the sink; one that was never loaded is told with the number of attempts
/// and the last error, one that was loaded with its module.
pub proof fn missing_sinks_are_told_with_their_reason(
    sink_name: Seq<char>,
    module_id: Option<u32>,
    last_err: Seq<char>,
)
    ensures
        missing_error(sink_name, false, module_id, last_err) == "null sink "@ + sink_name
            + " not created after "@ + decimal(10) + " attempts; last error: "@ + last_err,
        module_id matches Some(n) ==> missing_error(sink_name, true, module_id, last_err)
            == "null sink "@ + sink_name + " was loaded (module "@ + ("Some("@ + decimal(n as nat)
            + ")"@) + ") but did not appear in `pactl list short sinks`"@,
        module_id is None ==> missing_error(sink_name, true, module_id, last_err) == "null sink "@
            + sink_name + " was loaded (module "@ + "None"@
            + ") but did not appear in `pactl list short sinks`"@,
{
}

} // verus!
