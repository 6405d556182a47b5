//! The daemon's decisions: which capture tool runs, how the graph is brought up, and
//! when it is brought up again.
use vstd::prelude::*;
use crate::audio::filter_chain::{on_path, which_args};
use crate::audio::pw::capture_cmd::{captures_are_told_what_to_capture, build_capture_command, capture_args, CaptureCommand, CaptureSource, CaptureTool, SourceData};
use crate::audio::pw::events::GraphEvent;
use crate::audio::pw::null_sink::{sweeping_keeps_the_canonical_sink, ensure_null_sink, is_ensuring, is_sweep, sweep_duplicate_null_sinks, EnsureStep, NullSink, MAX_ATTEMPTS};
use crate::audio::pw::quantum::{probe_quantum, quantum_told, settings_args};
use crate::audio::pw::routing::{routing_sets_the_named_sink, unload_args, is_routing, set_default_sink, DefaultSink};
use crate::sys::command::{asked, succeeded, CommandRunner, Invocation};
use crate::text::{decimal, told, views};

verus! {

/// Commands sent to the daemon from the web layer.
#[derive(Debug, Clone, Copy, PartialEq, Eq, Structural)]
pub enum DaemonCommand {
    /// Re-assert the current routing (recreate the null sink, set the default sink).
    ReassertRouting,
    /// Play a brief audible test tone so the user can confirm audio routing.
    Identify,
}

/// The capture null sink.
pub const NULL_SINK_NAME: &'static str = "soundsync-capture";

/// The capture null sink as it is shown.
pub const NULL_SINK_DESC: &'static str = "SoundSync-Capture";

/// The sink side of the equaliser's filter-chain.
pub const EQ_SINK_NAME: &'static str = "effect_input.soundsync-eq";

/// Milliseconds over which a burst of graph events is collected.
pub const RECONCILE_DEBOUNCE_MS: u64 = 200;

/// The error where there is no capture tool.
pub const NO_CAPTURE_TOOL: &'static str = "no capture tool found (need parec or pw-cat)";

/// The shell command of the test tone: 880 Hz for a second, into the capture sink.
pub const IDENTIFY_SCRIPT: &'static str = "ffmpeg -f lavfi -i sine=frequency=880:duration=1 -ac 2 -ar 48000 -f s16le - 2>/dev/null | pw-cat --playback --rate=48000 --channels=2 --format=s16le --target=soundsync-capture - 2>/dev/null";

/// The routing that is wanted: told by the equaliser's controller, re-asserted on
/// every graph event.
#[derive(Debug, PartialEq, Eq)]
pub struct DesiredRoute {
    /// The sink to use as the system default sink.
    pub default_sink: String,
}

impl Clone for DesiredRoute {
    fn clone(&self) -> (r: Self)
        ensures
            r == *self,
    {
        DesiredRoute { default_sink: self.default_sink.clone() }
    }
}

impl Default for DesiredRoute {
    /// The equaliser starts off, so audio goes to the null sink.
    fn default() -> (r: Self)
        ensures
            r.default_sink@ == NULL_SINK_NAME@,
    {
        DesiredRoute { default_sink: NULL_SINK_NAME.to_owned() }
    }
}

/// What a command asks for.
#[derive(Debug, PartialEq, Eq)]
pub enum DaemonAction {
    /// Bring up the graph for the route that is wanted now, as after a graph event.
    BringUp,
    /// Start a program, without waiting for it.
    Spawn { program: String, args: Vec<String> },
}

/// What an action says: the program to start and its arguments, or nothing where the
/// graph is to be brought up.
pub open spec fn spawned(action: DaemonAction) -> Option<(Seq<char>, Seq<Seq<char>>)> {
    match action {
        DaemonAction::BringUp => None,
        DaemonAction::Spawn { program, args } => Some((program@, views(args@))),
    }
}

/// What a command asks for: routing is re-asserted by bringing up the graph, and the
/// test tone is played by a shell.
pub fn plan_command(command: DaemonCommand) -> (action: DaemonAction)
    ensures
        spawned(action) == (match command {
            DaemonCommand::ReassertRouting => None,
            DaemonCommand::Identify => Some(("sh"@, seq!["-c"@, IDENTIFY_SCRIPT@])),
        }),
{
    match command {
        DaemonCommand::ReassertRouting => DaemonAction::BringUp,
        DaemonCommand::Identify => {
            let mut args: Vec<String> = Vec::new();
            args.push("-c".to_owned());
            args.push(IDENTIFY_SCRIPT.to_owned());
            assert(views(args@) =~= seq!["-c"@, IDENTIFY_SCRIPT@]);
            DaemonAction::Spawn { program: "sh".to_owned(), args }
        },
    }
}

// ── Capture ──────────────────────────────────────────────────────────────────

/// Whether these runs look for a capture tool and find this one: `parec`, else
/// `pw-cat`.
pub open spec fn is_detection(runs: Seq<Invocation>, tool: Option<CaptureTool>) -> bool {
    &&& runs.len() >= 1
    &&& asked(runs[0], "which"@, which_args("parec"@))
    &&& if succeeded(runs[0].answer) {
        runs.len() == 1 && tool == Some(CaptureTool::Parec)
    } else {
        &&& runs.len() == 2
        &&& asked(runs[1], "which"@, which_args("pw-cat"@))
        &&& tool == (if succeeded(runs[1].answer) {
            Some(CaptureTool::PwCat)
        } else {
            None
        })
    }
}

/// Detect the available capture tool: prefer `parec`, fall back to `pw-cat`.
pub fn detect_capture_tool<R: CommandRunner>(runner: &mut R) -> (tool: Option<CaptureTool>)
    ensures
        exists|runs: Seq<Invocation>|
            final(runner).trace() == old(runner).trace() + runs && #[trigger] is_detection(
                runs,
                tool,
            ),
{
    let ghost start = runner.trace();
    let parec = on_path(runner, "parec");
    let ghost run0 = choose|run: Invocation|
        runner.trace() == start.push(run) && #[trigger] asked(run, "which"@, which_args("parec"@))
            && parec == succeeded(run.answer);
    let ghost one = seq![run0];
    assert(runner.trace() =~= start + one);
    if parec {
        assert(is_detection(one, Some(CaptureTool::Parec)));
        return Some(CaptureTool::Parec);
    }
    let ghost middle = runner.trace();
    let pw_cat = on_path(runner, "pw-cat");
    let ghost run1 = choose|run: Invocation|
        runner.trace() == middle.push(run) && #[trigger] asked(run, "which"@, which_args("pw-cat"@))
            && pw_cat == succeeded(run.answer);
    let ghost two = seq![run0, run1];
    assert(runner.trace() =~= start + two);
    let tool = if pw_cat {
        Some(CaptureTool::PwCat)
    } else {
        None
    };
    assert(is_detection(two, tool));
    tool
}

/// What a plan of the capture says.
pub open spec fn plan_told(r: Result<CaptureCommand, String>) -> Result<
    (Seq<char>, Seq<Seq<char>>),
    Seq<char>,
> {
    match r {
        Ok(c) => Ok(c.says()),
        Err(e) => Err(e@),
    }
}

/// The plan for a capture tool, with what the clock query answered.
pub open spec fn is_plan_for(
    tool: Option<CaptureTool>,
    rest: Seq<Invocation>,
    r: Result<(Seq<char>, Seq<Seq<char>>), Seq<char>>,
) -> bool {
    match tool {
        None => rest.len() == 0 && r == Err::<(Seq<char>, Seq<Seq<char>>), Seq<char>>(
            NO_CAPTURE_TOOL@,
        ),
        Some(tool) => {
            &&& rest.len() == 1
            &&& asked(rest[0], "pw-metadata"@, settings_args())
            &&& r == Ok::<(Seq<char>, Seq<Seq<char>>), Seq<char>>(
                capture_args(
                    tool,
                    SourceData::NullSinkMonitor(NULL_SINK_NAME@),
                    quantum_told(rest[0].answer).latency_ms(),
                ),
            )
        },
    }
}

/// Whether these runs, and this result, plan the capture: the tool is looked for, and
/// where there is one, the latency goes by the clock that is asked for next.
pub open spec fn is_capture_plan(
    runs: Seq<Invocation>,
    r: Result<(Seq<char>, Seq<Seq<char>>), Seq<char>>,
) -> bool {
    exists|looks: Seq<Invocation>, rest: Seq<Invocation>, tool: Option<CaptureTool>|
        runs == looks + rest && #[trigger] is_detection(looks, tool) && #[trigger] is_plan_for(
            tool,
            rest,
            r,
        )
}

/// Decide how PCM is captured: from the monitor of the null sink, with the tool that
/// is there, and a latency that suits the live quantum.
pub fn plan_capture<R: CommandRunner>(runner: &mut R) -> (r: Result<CaptureCommand, String>)
    ensures
        exists|runs: Seq<Invocation>|
            final(runner).trace() == old(runner).trace() + runs && #[trigger] is_capture_plan(
                runs,
                plan_told(r),
            ),
{
    let ghost start = runner.trace();
    let found = detect_capture_tool(runner);
    let ghost looks = choose|runs: Seq<Invocation>|
        runner.trace() == start + runs && #[trigger] is_detection(runs, found);
    let tool = match found {
        Some(tool) => tool,
        None => {
            let r = Err(NO_CAPTURE_TOOL.to_owned());
            proof {
                let rest: Seq<Invocation> = Seq::empty();
                assert(looks =~= looks + rest);
                assert(is_plan_for(found, rest, plan_told(r)));
                assert(is_capture_plan(looks, plan_told(r)));
            }
            return r;
        },
    };
    let ghost middle = runner.trace();
    let quantum = probe_quantum(runner);
    let latency: u32 = quantum.capture_latency_ms();
    let source = CaptureSource::NullSinkMonitor(NULL_SINK_NAME.to_owned());
    let r = Ok(build_capture_command(tool, &source, latency));
    proof {
        let run = choose|run: Invocation|
            runner.trace() == middle.push(run) && #[trigger] asked(
                run,
                "pw-metadata"@,
                settings_args(),
            ) && quantum == quantum_told(run.answer);
        let rest = seq![run];
        assert(is_plan_for(found, rest, plan_told(r)));
        assert(runner.trace() =~= start + (looks + rest));
        assert(is_capture_plan(looks + rest, plan_told(r)));
    }
    r
}

// ── Bring-up ─────────────────────────────────────────────────────────────────

/// What one step of bringing up the graph came to.
#[derive(Debug, PartialEq, Eq)]
pub enum BringUpStep {
    /// It is settled.
    Done(Result<(), String>),
    /// The null sink could not be created yet: wait, and go on from there.
    Retry { tried: u32, after_secs: u64 },
}

/// What routing came to, without how it was done.
pub open spec fn routed(r: Result<DefaultSink, Seq<char>>) -> Result<(), Seq<char>> {
    match r {
        Ok(_) => Ok(()),
        Err(e) => Err(e),
    }
}

/// Whether these runs sweep away duplicates of a sink, where its module is known.
pub open spec fn is_startup_sweep(runs: Seq<Invocation>, sink: NullSink) -> bool {
    match sink.module_id {
        Some(id) => exists|count: int| #[trigger] is_sweep(runs, NULL_SINK_NAME@, id, count),
        None => runs.len() == 0,
    }
}

/// Whether these runs, and this step, bring up the graph after `tried` failed
/// attempts at the null sink: the sink is ensured; once it is there, duplicates are
/// swept away (at startup only) and the default sink is set.
pub open spec fn is_bring_up(
    runs: Seq<Invocation>,
    sink_name: Seq<char>,
    tried: int,
    startup: bool,
    step: BringUpStep,
) -> bool {
    exists|
        ensuring: Seq<Invocation>,
        sweeping: Seq<Invocation>,
        routing: Seq<Invocation>,
        ensured: EnsureStep,
    |
        runs == ensuring + sweeping + routing && #[trigger] is_ensuring(
            ensuring,
            NULL_SINK_NAME@,
            NULL_SINK_DESC@,
            tried,
            ensured,
        ) && #[trigger] goes_on(ensured, sweeping, routing, sink_name, startup, step)
}

/// What follows once the null sink was ensured, or was not.
pub open spec fn goes_on(
    ensured: EnsureStep,
    sweeping: Seq<Invocation>,
    routing: Seq<Invocation>,
    sink_name: Seq<char>,
    startup: bool,
    step: BringUpStep,
) -> bool {
    match ensured {
        EnsureStep::Retry { tried, after_secs } => {
            &&& sweeping.len() == 0
            &&& routing.len() == 0
            &&& step == BringUpStep::Retry { tried, after_secs }
        },
        EnsureStep::Done(Err(e)) => {
            &&& sweeping.len() == 0
            &&& routing.len() == 0
            &&& step is Done
            &&& told(step->Done_0) == Err::<(), Seq<char>>(e@)
        },
        EnsureStep::Done(Ok(sink)) => {
            &&& if startup {
                is_startup_sweep(sweeping, sink)
            } else {
                sweeping.len() == 0
            }
            &&& step is Done
            &&& is_routed(routing, sink_name, told(step->Done_0))
        },
    }
}

/// Whether these runs route the default sink, with this outcome.
pub open spec fn is_routed(
    runs: Seq<Invocation>,
    sink_name: Seq<char>,
    outcome: Result<(), Seq<char>>,
) -> bool {
    exists|r: Result<DefaultSink, Seq<char>>|
        #[trigger] is_routing(runs, sink_name, r) && outcome == routed(r)
}

fn route<R: CommandRunner>(runner: &mut R, sink_name: &str) -> (r: Result<(), String>)
    ensures
        exists|runs: Seq<Invocation>|
            final(runner).trace() == old(runner).trace() + runs && #[trigger] is_routed(
                runs,
                sink_name@,
                told(r),
            ),
{
    let ghost start = runner.trace();
    let how = set_default_sink(runner, sink_name);
    let ghost said = told(how);
    let ghost runs = choose|runs: Seq<Invocation>|
        runner.trace() == start + runs && #[trigger] is_routing(runs, sink_name@, said);
    let r = match how {
        Ok(_) => Ok(()),
        Err(e) => Err(e),
    };
    assert(told(r) == routed(said));
    assert(is_routed(runs, sink_name@, told(r)));
    r
}

fn bring_up_step<R: CommandRunner>(runner: &mut R, sink_name: &str, tried: u32, startup: bool) -> (step:
    BringUpStep)
    requires
        tried < MAX_ATTEMPTS,
    ensures
        exists|runs: Seq<Invocation>|
            final(runner).trace() == old(runner).trace() + runs && #[trigger] is_bring_up(
                runs,
                sink_name@,
                tried as int,
                startup,
                step,
            ),
{
    let ghost start = runner.trace();
    let ghost none: Seq<Invocation> = Seq::empty();
    let ensured = ensure_null_sink(runner, NULL_SINK_NAME, NULL_SINK_DESC, tried);
    let ghost said = ensured;
    let ghost ensuring = choose|runs: Seq<Invocation>|
        runner.trace() == start + runs && #[trigger] is_ensuring(
            runs,
            NULL_SINK_NAME@,
            NULL_SINK_DESC@,
            tried as int,
            said,
        );
    let sink = match ensured {
        EnsureStep::Retry { tried: t, after_secs } => {
            let step = BringUpStep::Retry { tried: t, after_secs };
            proof {
                assert(ensuring =~= ensuring + none + none);
                assert(goes_on(said, none, none, sink_name@, startup, step));
                assert(is_bring_up(ensuring, sink_name@, tried as int, startup, step));
            }
            return step;
        },
        EnsureStep::Done(Err(e)) => {
            let step = BringUpStep::Done(Err(e));
            proof {
                assert(ensuring =~= ensuring + none + none);
                assert(goes_on(said, none, none, sink_name@, startup, step));
                assert(is_bring_up(ensuring, sink_name@, tried as int, startup, step));
            }
            return step;
        },
        EnsureStep::Done(Ok(sink)) => sink,
    };
    let ghost middle = runner.trace();
    let ghost mut sweeping = none;
    assert(middle =~= middle + none);
    if startup {
        if let Some(id) = sink.module_id {
            let count = sweep_duplicate_null_sinks(runner, NULL_SINK_NAME, id);
            proof {
                sweeping = choose|runs: Seq<Invocation>|
                    runner.trace() == middle + runs && #[trigger] is_sweep(
                        runs,
                        NULL_SINK_NAME@,
                        id,
                        count as int,
                    );
                assert(is_sweep(sweeping, NULL_SINK_NAME@, id, count as int));
            }
        }
        assert(is_startup_sweep(sweeping, sink));
    }
    let ghost late = runner.trace();
    let r = route(runner, sink_name);
    let ghost outcome = told(r);
    let step = BringUpStep::Done(r);
    proof {
        let routing = choose|runs: Seq<Invocation>|
            runner.trace() == late + runs && #[trigger] is_routed(runs, sink_name@, outcome);
        let runs = ensuring + sweeping + routing;
        assert(runner.trace() =~= start + runs);
        assert(goes_on(said, sweeping, routing, sink_name@, startup, step));
        assert(is_bring_up(runs, sink_name@, tried as int, startup, step));
    }
    step
}

/// User-level bring-up of the capture graph: ensure the null sink exists, then make
/// the desired sink the default sink. Each call makes one attempt at the null sink;
/// on `Retry` the caller waits and calls again with the number it holds.
pub fn bring_up<R: CommandRunner>(runner: &mut R, route: &DesiredRoute, tried: u32) -> (step:
    BringUpStep)
    requires
        tried < MAX_ATTEMPTS,
    ensures
        exists|runs: Seq<Invocation>|
            final(runner).trace() == old(runner).trace() + runs && #[trigger] is_bring_up(
                runs,
                route.default_sink@,
                tried as int,
                false,
                step,
            ),
{
    bring_up_step(runner, route.default_sink.as_str(), tried, false)
}

/// Bring-up at startup: as [`bring_up`], with duplicates of the null sink that an
/// earlier run left behind swept away before routing. Only at startup: a sweep on
/// every graph event would cause graph events of its own.
pub fn start_up<R: CommandRunner>(runner: &mut R, route: &DesiredRoute, tried: u32) -> (step:
    BringUpStep)
    requires
        tried < MAX_ATTEMPTS,
    ensures
        exists|runs: Seq<Invocation>|
            final(runner).trace() == old(runner).trace() + runs && #[trigger] is_bring_up(
                runs,
                route.default_sink@,
                tried as int,
                true,
                step,
            ),
{
    bring_up_step(runner, route.default_sink.as_str(), tried, true)
}

/// A graph counts as brought up only where these very runs found or created the null
/// sink, and then set the default sink.
pub proof fn bring_up_succeeds_only_with_a_sink(
    runs: Seq<Invocation>,
    sink_name: Seq<char>,
    tried: int,
    startup: bool,
    step: BringUpStep,
)
    requires
        is_bring_up(runs, sink_name, tried, startup, step),
        step is Done && step->Done_0 is Ok,
    ensures
        exists|
            ensuring: Seq<Invocation>,
            sweeping: Seq<Invocation>,
            routing: Seq<Invocation>,
            ensured: EnsureStep,
            r: Result<DefaultSink, Seq<char>>,
        |
            {
                &&& runs == #[trigger] ((ensuring + sweeping) + routing)
                &&& #[trigger] is_ensuring(
                    ensuring,
                    NULL_SINK_NAME@,
                    NULL_SINK_DESC@,
                    tried,
                    ensured,
                )
                &&& ensured is Done && ensured->Done_0 is Ok
                &&& #[trigger] is_routing(routing, sink_name, r)
                &&& r is Ok
            },
{
    let (ensuring, sweeping, routing, ensured) = choose|
        ensuring: Seq<Invocation>,
        sweeping: Seq<Invocation>,
        routing: Seq<Invocation>,
        ensured: EnsureStep,
    |
        runs == ensuring + sweeping + routing && #[trigger] is_ensuring(
            ensuring,
            NULL_SINK_NAME@,
            NULL_SINK_DESC@,
            tried,
            ensured,
        ) && #[trigger] goes_on(ensured, sweeping, routing, sink_name, startup, step);
    let r = choose|r: Result<DefaultSink, Seq<char>>|
        #[trigger] is_routing(routing, sink_name, r) && told(step->Done_0) == routed(r);
    assert(runs == (ensuring + sweeping) + routing);
    assert(is_ensuring(ensuring, NULL_SINK_NAME@, NULL_SINK_DESC@, tried, ensured));
    assert(is_routing(routing, sink_name, r));
}

// ── Reconciling ──────────────────────────────────────────────────────────────

/// What the reconcile loop is told.
#[derive(Debug, Clone, Copy, PartialEq, Eq, Structural)]
pub enum LoopEvent {
    /// A graph event arrived.
    Graph(GraphEvent),
    /// The source of graph events is gone.
    SourceGone,
    /// The debounce window is over.
    WindowOver,
    /// The daemon is to stop.
    Shutdown,
}

/// What the reconcile loop is to do.
#[derive(Debug, Clone, Copy, PartialEq, Eq, Structural)]
pub enum LoopAction {
    /// Nothing but wait.
    Wait,
    /// Start the debounce window of [`RECONCILE_DEBOUNCE_MS`].
    StartWindow,
    /// Re-assert the desired state.
    Reconcile,
    /// Return.
    Stop,
}

/// The state of the reconcile loop after an event, and what is to be done. The state
/// is whether a debounce window is open.
pub open spec fn loop_step(collecting: bool, e: LoopEvent) -> (bool, LoopAction) {
    match e {
        LoopEvent::Shutdown => (false, LoopAction::Stop),
        LoopEvent::Graph(_) => if collecting {
            (true, LoopAction::Wait)
        } else {
            (true, LoopAction::StartWindow)
        },
        LoopEvent::SourceGone => if collecting {
            (false, LoopAction::Reconcile)
        } else {
            (false, LoopAction::Stop)
        },
        LoopEvent::WindowOver => if collecting {
            (false, LoopAction::Reconcile)
        } else {
            (false, LoopAction::Wait)
        },
    }
}

/// The reconcile loop: a burst of graph events is collapsed into one re-assertion of
/// the desired state.
pub struct Reconciler {
    collecting: bool,
}

impl View for Reconciler {
    type V = bool;

    closed spec fn view(&self) -> bool {
        self.collecting
    }
}

impl Reconciler {
    pub fn new() -> (r: Self)
        ensures
            r@ == false,
    {
        Reconciler { collecting: false }
    }

    /// Take in an event; returns what is to be done.
    pub fn on_event(&mut self, event: LoopEvent) -> (action: LoopAction)
        ensures
            (final(self)@, action) == loop_step(old(self)@, event),
    {
        let collecting = self.collecting;
        match event {
            LoopEvent::Shutdown => {
                self.collecting = false;
                LoopAction::Stop
            },
            LoopEvent::Graph(_) => {
                self.collecting = true;
                if collecting {
                    LoopAction::Wait
                } else {
                    LoopAction::StartWindow
                }
            },
            LoopEvent::SourceGone => {
                self.collecting = false;
                if collecting {
                    LoopAction::Reconcile
                } else {
                    LoopAction::Stop
                }
            },
            LoopEvent::WindowOver => {
                self.collecting = false;
                if collecting {
                    LoopAction::Reconcile
                } else {
                    LoopAction::Wait
                }
            },
        }
    }
}

/// The state of the loop after these events.
pub open spec fn loop_state(collecting: bool, events: Seq<LoopEvent>) -> bool
    decreases events.len(),
{
    if events.len() == 0 {
        collecting
    } else {
        loop_step(loop_state(collecting, events.drop_last()), events.last()).0
    }
}

/// How often the loop re-asserts the desired state in these events.
pub open spec fn reconciles(collecting: bool, events: Seq<LoopEvent>) -> nat
    decreases events.len(),
{
    if events.len() == 0 {
        0
    } else {
        let head = events.drop_last();
        reconciles(collecting, head) + if loop_step(
            loop_state(collecting, head),
            events.last(),
        ).1 is Reconcile {
            1nat
        } else {
            0nat
        }
    }
}

proof fn lemma_burst(collecting: bool, burst: Seq<LoopEvent>)
    requires
        forall|i: int| 0 <= i < burst.len() ==> #[trigger] burst[i] is Graph,
    ensures
        loop_state(collecting, burst) == (collecting || burst.len() > 0),
        reconciles(collecting, burst) == 0,
    decreases burst.len(),
{
    if burst.len() > 0 {
        let head = burst.drop_last();
        assert forall|i: int| 0 <= i < head.len() implies #[trigger] head[i] is Graph by {
            assert(head[i] == burst[i]);
        }
        lemma_burst(collecting, head);
        assert(burst.last() is Graph);
    }
}

/// A burst of graph events, however long, leads to one re-assertion, when its window
/// is over or the source of events is gone.
pub proof fn a_burst_reconciles_once(burst: Seq<LoopEvent>, end: LoopEvent)
    requires
        burst.len() > 0,
        forall|i: int| 0 <= i < burst.len() ==> #[trigger] burst[i] is Graph,
        end is WindowOver || end is SourceGone,
    ensures
        reconciles(false, burst.push(end)) == 1,
        !loop_state(false, burst.push(end)),
{
    lemma_burst(false, burst);
    assert(burst.push(end).drop_last() =~= burst);
}

/// Shutdown stops the loop at once, without another re-assertion.
pub proof fn shutdown_stops_the_loop(collecting: bool)
    ensures
        loop_step(collecting, LoopEvent::Shutdown).1 is Stop,
{
}

/// `parec` is taken where it is there, else `pw-cat` where that is there, else nothing; the
/// latter is looked for only where the former is not there.
pub proof fn parec_is_preferred(runs: Seq<Invocation>, tool: Option<CaptureTool>)
    requires
        is_detection(runs, tool),
    ensures
        runs[0].program == "which"@ && runs[0].args == seq!["parec"@],
        tool == Some(CaptureTool::Parec) <==> runs[0].answer is Ok && runs[0].answer->Ok_0.status
            == 0,
        tool == Some(CaptureTool::Parec) <==> runs.len() == 1,
        tool != Some(CaptureTool::Parec) ==> runs.len() == 2 && runs[1].program == "which"@
            && runs[1].args == seq!["pw-cat"@],
        tool == Some(CaptureTool::PwCat) <==> runs.len() == 2 && runs[1].answer is Ok
            && runs[1].answer->Ok_0.status == 0,
{
}

/// What is captured is the monitor of the null sink, with the latency of the clock that was
/// told; there is no capture exactly where there is no tool.
pub proof fn the_null_sink_is_captured(
    tool: Option<CaptureTool>,
    rest: Seq<Invocation>,
    r: Result<(Seq<char>, Seq<Seq<char>>), Seq<char>>,
)
    requires
        is_plan_for(tool, rest, r),
    ensures
        r is Err <==> tool is None,
        tool == Some(CaptureTool::Parec) ==> r->Ok_0.0 == "parec"@ && r->Ok_0.1.contains(
            "--device="@ + ("soundsync-capture"@ + ".monitor"@),
        ) && r->Ok_0.1.contains(
            "--latency-msec="@ + decimal(quantum_told(rest[0].answer).latency_ms() as nat),
        ),
        tool == Some(CaptureTool::PwCat) ==> r->Ok_0.0 == "pw-cat"@ && r->Ok_0.1.len() == 10
            && r->Ok_0.1[7] == "--target"@ && r->Ok_0.1[8] == "soundsync-capture"@,
{
    if tool is Some {
        captures_are_told_what_to_capture(
            SourceData::NullSinkMonitor(NULL_SINK_NAME@),
            quantum_told(rest[0].answer).latency_ms(),
        );
    }
}

/// While the null sink is not there, nothing is swept or routed, and what held it up is
/// told. Once it is, duplicates are swept only at startup, and the outcome is that of the
/// routing.
pub proof fn routing_waits_for_the_sink(
    ensured: EnsureStep,
    sweeping: Seq<Invocation>,
    routing: Seq<Invocation>,
    sink_name: Seq<char>,
    startup: bool,
    step: BringUpStep,
)
    requires
        goes_on(ensured, sweeping, routing, sink_name, startup, step),
    ensures
        !(ensured is Done && ensured->Done_0 is Ok) ==> sweeping.len() == 0 && routing.len() == 0,
        ensured matches EnsureStep::Retry { tried, after_secs } ==> step == (BringUpStep::Retry {
            tried,
            after_secs,
        }),
        ensured is Done ==> step is Done,
        ensured is Done && ensured->Done_0 is Err ==> step->Done_0 is Err
            && step->Done_0->Err_0@ == ensured->Done_0->Err_0@,
        !startup ==> sweeping.len() == 0,
        ensured is Done && ensured->Done_0 is Ok ==> routing.len() > 0 && routing[0].program
            == "pactl"@ && routing[0].args == seq!["set-default-sink"@, sink_name],
        ensured is Done && ensured->Done_0 is Ok && routing[0].answer is Ok
            && routing[0].answer->Ok_0.status == 0 ==> step->Done_0 is Ok,
        ensured is Done && ensured->Done_0 is Ok && startup && ensured->Done_0->Ok_0.module_id is Some
            ==> sweeping.len() > 0,
{
    if ensured is Done && ensured->Done_0 is Ok {
        let outcome = told(step->Done_0);
        let r = choose|r: Result<DefaultSink, Seq<char>>|
            #[trigger] is_routing(routing, sink_name, r) && outcome == routed(r);
        assert(is_routing(routing, sink_name, r));
        routing_sets_the_named_sink(routing, sink_name, r);
    }
}

/// A graph event is never lost: it is followed by a reconciliation when the window is over
/// or its source is gone, whatever graph events come in between; and only a shutdown, or a
/// source that is gone while nothing is collected, stops the loop.
pub proof fn graph_events_are_reconciled(collecting: bool, g: GraphEvent, e: LoopEvent)
    ensures
        ({
            let (open, action) = loop_step(collecting, LoopEvent::Graph(g));
            &&& open
            &&& action == LoopAction::StartWindow <==> !collecting
            &&& action == LoopAction::Wait <==> collecting
            &&& loop_step(open, LoopEvent::WindowOver) == (false, LoopAction::Reconcile)
            &&& loop_step(open, LoopEvent::SourceGone) == (false, LoopAction::Reconcile)
        }),
        loop_step(collecting, e).1 == LoopAction::Stop <==> e == LoopEvent::Shutdown || (e
            == LoopEvent::SourceGone && !collecting),
        loop_step(collecting, e).1 == LoopAction::Reconcile ==> collecting,
        loop_step(collecting, e).0 <==> e is Graph,
{
}

/// There is a plan exactly where `parec` or `pw-cat` is there, and it is carried out by the
/// one that was found first.
pub proof fn plans_need_a_tool(
    runs: Seq<Invocation>,
    r: Result<(Seq<char>, Seq<Seq<char>>), Seq<char>>,
)
    requires
        is_capture_plan(runs, r),
    ensures
        runs.len() > 0 && runs[0].program == "which"@ && runs[0].args == seq!["parec"@],
        runs[0].answer is Ok && runs[0].answer->Ok_0.status == 0 ==> r is Ok && r->Ok_0.0
            == "parec"@,
        !(runs[0].answer is Ok && runs[0].answer->Ok_0.status == 0) ==> runs.len() > 1
            && runs[1].program == "which"@ && runs[1].args == seq!["pw-cat"@],
        !(runs[0].answer is Ok && runs[0].answer->Ok_0.status == 0) && runs[1].answer is Ok
            && runs[1].answer->Ok_0.status == 0 ==> r is Ok && r->Ok_0.0 == "pw-cat"@,
        !(runs[0].answer is Ok && runs[0].answer->Ok_0.status == 0) && !(runs[1].answer is Ok
            && runs[1].answer->Ok_0.status == 0) ==> r is Err && runs.len() == 2,
{
    let (looks, rest, tool) = choose|
        looks: Seq<Invocation>,
        rest: Seq<Invocation>,
        tool: Option<CaptureTool>,
    |
        runs == looks + rest && #[trigger] is_detection(looks, tool) && #[trigger] is_plan_for(
            tool,
            rest,
            r,
        );
    parec_is_preferred(looks, tool);
    the_null_sink_is_captured(tool, rest, r);
    assert(runs[0] == looks[0]);
    if looks.len() == 2 {
        assert(runs[1] == looks[1]);
    }
}

/// At startup the duplicates of the null sink are swept away, and the one that was ensured
/// is kept.
pub proof fn startups_keep_the_ensured_sink(sweeping: Seq<Invocation>, sink: NullSink)
    requires
        is_startup_sweep(sweeping, sink),
    ensures
        sink.module_id is None ==> sweeping.len() == 0,
        sink.module_id matches Some(id) ==> sweeping.len() > 0 && forall|i: int|
            0 <= i < sweeping.len() ==> !asked(
                #[trigger] sweeping[i],
                "pactl"@,
                seq!["unload-module"@, decimal(id as nat)],
            ),
{
    if let Some(id) = sink.module_id {
        let count = choose|count: int| #[trigger] is_sweep(sweeping, NULL_SINK_NAME@, id, count);
        sweeping_keeps_the_canonical_sink(sweeping, NULL_SINK_NAME@, id, count);
        assert forall|i: int| 0 <= i < sweeping.len() implies !asked(
            #[trigger] sweeping[i],
            "pactl"@,
            seq!["unload-module"@, decimal(id as nat)],
        ) by {
            assert(!asked(sweeping[i], "pactl"@, unload_args(id)));
        }
    }
}

} // verus!
