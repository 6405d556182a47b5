//! The output controller: routes the captured audio to at most one output.
//!
//! Sound cards and AirPlay receivers are fed by a PipeWire loopback, which the
//! controller loads and unloads itself. A Chromecast pulls an HTTP stream within
//! a cast session; the controller says when to start and when to stop one, and is
//! told when it has died. Starting one kind of output tears down the other first.
use vstd::prelude::*;
use crate::cast::client::{stream_url, stream_url_text};
use crate::output::discovery::{
    lemma_probed_by_kind, module_id_from, modules_are_found_by_name, names_module, parse_module_id_by_name, probe_outputs, probed,
};
use crate::output::loopback::{build_loopback_args, loopback_args, loopbacks_go_from_the_capture_to_the_sink, printed_ids_read_back, parse_loopback_module_id, printed_id};
use crate::output::{all_of, devices_view, AvailableOutputs, DeviceData, OutputCommand, OutputDevice, OutputKind, OutputsData};
use crate::state::{clone_active, CastHealth, OutputState};
use crate::sys::command::{asked, succeeded, Answer, CommandRunner, Invocation};
use crate::text::{decimal, lines_of, parsed, pieces_up_to, trimmed, render, same, str_views, views};

verus! {

/// How often the outputs are discovered anew, in seconds.
pub const REFRESH_INTERVAL_SECS: u64 = 10;

/// The CASTV2 port of a Chromecast that announces none.
pub const DEFAULT_CAST_PORT: u16 = 8009;

/// The first device of the list with that id.
pub open spec fn device_with_id(ds: Seq<DeviceData>, id: Seq<char>) -> Option<DeviceData>
    decreases ds.len(),
{
    if ds.len() == 0 {
        None
    } else if ds[0].id == id {
        Some(ds[0])
    } else {
        device_with_id(ds.drop_first(), id)
    }
}

/// A device is found by its id at whatever position of the list it stands; of several
/// with that id the first is found, and nothing is found only where none has it.
pub proof fn devices_are_found_wherever_they_stand(ds: Seq<DeviceData>, id: Seq<char>)
    ensures
        device_with_id(ds, id) is None <==> forall|i: int|
            0 <= i < ds.len() ==> (#[trigger] ds[i]).id != id,
        device_with_id(ds, id) matches Some(d) ==> exists|i: int|
            0 <= i < ds.len() && #[trigger] ds[i] == d && ds[i].id == id && forall|k: int|
                0 <= k < i ==> (#[trigger] ds[k]).id != id,
    decreases ds.len(),
{
    if ds.len() > 0 {
        let rest = ds.drop_first();
        devices_are_found_wherever_they_stand(rest, id);
        if ds[0].id == id {
            assert(device_with_id(ds, id) == Some(ds[0]));
        } else if device_with_id(rest, id) is Some {
            let d = device_with_id(rest, id)->0;
            let i = choose|i: int|
                0 <= i < rest.len() && #[trigger] rest[i] == d && rest[i].id == id && forall|k: int|
                    0 <= k < i ==> (#[trigger] rest[k]).id != id;
            assert(ds[i + 1] == d);
            assert forall|k: int| 0 <= k < i + 1 implies (#[trigger] ds[k]).id != id by {
                if k > 0 {
                    assert(rest[k - 1] == ds[k]);
                }
            }
        } else {
            assert forall|i: int| 0 <= i < ds.len() implies (#[trigger] ds[i]).id != id by {
                if i > 0 {
                    assert(rest[i - 1] == ds[i]);
                }
            }
        }
    }
}

/// What an optional device says.
pub open spec fn device_view(o: Option<OutputDevice>) -> Option<DeviceData> {
    match o {
        Some(d) => Some(d@),
        None => None,
    }
}

/// Find a device by kind + id in the available outputs.
pub fn find_device(available: &AvailableOutputs, kind: &OutputKind, id: &str) -> (out: Option<
    OutputDevice,
>)
    ensures
        device_view(out) == device_with_id(available@.of(*kind), id@),
        out is None <==> forall|i: int|
            0 <= i < available@.of(*kind).len() ==> (#[trigger] available@.of(*kind)[i]).id != id@,
        out matches Some(d) ==> exists|i: int|
            0 <= i < available@.of(*kind).len() && #[trigger] available@.of(*kind)[i] == d@
                && available@.of(*kind)[i].id == id@ && forall|k: int|
                0 <= k < i ==> (#[trigger] available@.of(*kind)[k]).id != id@,
{
    proof {
        devices_are_found_wherever_they_stand(available@.of(*kind), id@);
    }
    let list = match kind {
        OutputKind::Soundcard => &available.soundcard,
        OutputKind::Airplay => &available.airplay,
        OutputKind::Chromecast => &available.chromecast,
    };
    let ghost dv = devices_view(list@);
    let mut i: usize = 0;
    assert(dv.skip(0) == dv);
    while i < list.len()
        invariant
            i <= list@.len(),
            dv == devices_view(list@),
            dv == available@.of(*kind),
            device_with_id(dv, id@) == device_with_id(dv.skip(i as int), id@),
        decreases list@.len() - i,
    {
        assert(dv.skip(i as int)[0] == list@[i as int]@);
        assert(dv.skip(i as int).drop_first() == dv.skip(i as int + 1));
        if same(list[i].id.as_str(), id) {
            proof {
                devices_are_found_wherever_they_stand(available@.of(*kind), id@);
            }
            return Some(list[i].clone());
        }
        i = i + 1;
    }
    None
}

/// A cast session to start.
#[derive(Debug, PartialEq, Eq)]
pub struct CastTarget {
    pub addr: String,
    pub port: u16,
    pub url: String,
}

/// What is to be done about cast sessions: stop the running one, start a new one.
#[derive(Debug, PartialEq, Eq)]
pub struct CastOrder {
    pub stop: bool,
    pub start: Option<CastTarget>,
}

/// What a [`CastTarget`] says.
pub struct TargetData {
    pub addr: Seq<char>,
    pub port: u16,
    pub url: Seq<char>,
}

/// What an optional target says.
pub open spec fn target_view(o: Option<CastTarget>) -> Option<TargetData> {
    match o {
        Some(t) => Some(TargetData { addr: t.addr@, port: t.port, url: t.url@ }),
        None => None,
    }
}

/// The controller's state.
pub struct OutputController {
    active: Option<OutputDevice>,
    available: AvailableOutputs,
    /// The loaded loopback module.
    loopback: Option<u32>,
    /// Whether a cast session runs.
    casting: bool,
    cast_health: Option<CastHealth>,
    /// The `module-raop-discover` to unload in the end.
    raop: Option<u32>,
    lan_ip: String,
    bind_port: u16,
}

/// What an [`OutputController`] holds.
pub struct ControllerData {
    pub active: Option<DeviceData>,
    pub available: OutputsData,
    pub loopback: Option<u32>,
    pub casting: bool,
    pub cast_health: Option<CastHealth>,
    pub raop: Option<u32>,
    pub lan_ip: Seq<char>,
    pub bind_port: u16,
}

impl View for OutputController {
    type V = ControllerData;

    closed spec fn view(&self) -> ControllerData {
        ControllerData {
            active: device_view(self.active),
            available: self.available@,
            loopback: self.loopback,
            casting: self.casting,
            cast_health: self.cast_health,
            raop: self.raop,
            lan_ip: self.lan_ip@,
            bind_port: self.bind_port,
        }
    }
}

impl ControllerData {
    /// At most one output is fed, and it is the one shown as active: either a
    /// loopback to a sink, or a cast session to a Chromecast. A cast is shown as
    /// connecting exactly while its session runs.
    pub open spec fn single_active(self) -> bool {
        &&& self.active is None ==> self.loopback is None && !self.casting
        &&& self.active is Some ==> (self.loopback is Some) != self.casting
        &&& self.active is Some ==> self.casting == (self.active->0.kind
            == OutputKind::Chromecast)
        &&& (self.cast_health == Some(CastHealth::Connecting)) == self.casting
    }

    /// Nothing is fed.
    pub open spec fn torn_down(self) -> ControllerData {
        ControllerData {
            active: None,
            loopback: None,
            casting: false,
            cast_health: None,
            ..self
        }
    }

    /// After `pactl load-module module-loopback` gave this answer: the device is
    /// active only where the module was loaded and can be unloaded again.
    pub open spec fn routed(self, kind: OutputKind, sink: Seq<char>, answer: Answer) -> ControllerData {
        if succeeded(answer) && printed_id(answer->Ok_0.stdout@) is Some {
            ControllerData {
                loopback: Some(printed_id(answer->Ok_0.stdout@)->0 as u32),
                active: Some(self.device_for(kind, sink)),
                ..self
            }
        } else {
            ControllerData { loopback: None, active: None, ..self }
        }
    }

    /// The discovered device of a sink, or a minimal record of it.
    pub open spec fn device_for(self, kind: OutputKind, sink: Seq<char>) -> DeviceData {
        match device_with_id(self.available.of(kind), sink) {
            Some(d) => d,
            None => DeviceData { kind, id: sink, name: sink, addr: None, port: None },
        }
    }

    /// The session to start for a Chromecast: none for a device that is unknown
    /// or has no address, nor while our own address is unknown.
    pub open spec fn cast_target(self, id: Seq<char>) -> Option<TargetData> {
        match device_with_id(self.available.chromecast, id) {
            Some(d) => match d.addr {
                Some(addr) => if self.lan_ip.len() == 0 {
                    None
                } else {
                    Some(
                        TargetData {
                            addr,
                            port: match d.port {
                                Some(p) => p,
                                None => DEFAULT_CAST_PORT,
                            },
                            url: stream_url_text(self.lan_ip, self.bind_port),
                        },
                    )
                },
                None => None,
            },
            None => None,
        }
    }

    /// After a cast to that Chromecast was ordered.
    pub open spec fn cast_to(self, id: Seq<char>) -> ControllerData {
        if self.cast_target(id) is Some {
            ControllerData {
                active: device_with_id(self.available.chromecast, id),
                casting: true,
                cast_health: Some(CastHealth::Connecting),
                ..self
            }
        } else {
            self
        }
    }
}

/// Whether these runs unload that module, if there is one.
pub open spec fn unloads(runs: Seq<Invocation>, id: Option<u32>) -> bool {
    match id {
        Some(mid) => runs.len() == 1 && asked(
            runs[0],
            "pactl"@,
            seq!["unload-module"@, decimal(mid as nat)],
        ),
        None => runs.len() == 0,
    }
}

/// Whether these runs load a loopback to `sink` after unloading that module.
pub open spec fn reroutes(runs: Seq<Invocation>, id: Option<u32>, sink: Seq<char>) -> bool {
    &&& runs.len() > 0
    &&& unloads(runs.drop_last(), id)
    &&& asked(runs.last(), "pactl"@, loopback_args(sink))
}

/// Whether a command takes the controller from `s` to `t` by these runs, with
/// this order about cast sessions.
pub open spec fn handled(
    s: ControllerData,
    command: OutputCommand,
    runs: Seq<Invocation>,
    t: ControllerData,
    order: CastOrder,
) -> bool {
    &&& order.stop == s.casting
    &&& match command {
        OutputCommand::Clear => {
            &&& unloads(runs, s.loopback)
            &&& t == s.torn_down()
            &&& order.start is None
        },
        OutputCommand::Select { kind: OutputKind::Chromecast, id } => {
            &&& unloads(runs, s.loopback)
            &&& t == s.torn_down().cast_to(id@)
            &&& target_view(order.start) == s.torn_down().cast_target(id@)
        },
        OutputCommand::Select { kind, id } => {
            &&& reroutes(runs, s.loopback, id@)
            &&& t == s.torn_down().routed(kind, id@, runs.last().answer)
            &&& order.start is None
        },
    }
}

/// The module that is unloaded in the end, after these runs of the start: the one
/// that `pactl` loaded, or the one that was loaded already.
pub open spec fn raop_loaded(runs: Seq<Invocation>) -> Option<nat> {
    if succeeded(runs[0].answer) {
        printed_id(runs[0].answer->Ok_0.stdout@)
    } else if runs[0].answer is Ok && succeeded(runs[1].answer) {
        module_id_from(
            lines_of(runs[1].answer->Ok_0.stdout@),
            0,
            "module-raop-discover"@,
        )
    } else {
        None
    }
}

/// Whether these runs load `module-raop-discover`, looking for an earlier one
/// where that fails.
pub open spec fn loads_raop(runs: Seq<Invocation>) -> bool {
    &&& runs.len() == (if runs.len() > 0 && runs[0].answer is Ok && !succeeded(runs[0].answer) {
        2int
    } else {
        1
    })
    &&& asked(runs[0], "pactl"@, seq!["load-module"@, "module-raop-discover"@])
    &&& runs.len() == 2 ==> asked(runs[1], "pactl"@, seq!["list"@, "short"@, "modules"@])
}

/// An optional id as a number.
pub open spec fn id_value(id: Option<u32>) -> Option<nat> {
    match id {
        Some(n) => Some(n as nat),
        None => None,
    }
}

/// Load `module-raop-discover`, so that AirPlay receivers appear as sinks, and
/// give back the id to unload later. Best-effort: without it there is no AirPlay.
///
/// A failure to load most likely means that an earlier daemon left the module
/// behind: its id is looked up and adopted.
pub fn load_raop_discover<R: CommandRunner>(runner: &mut R) -> (id: Option<u32>)
    ensures
        exists|runs: Seq<Invocation>|
            final(runner).trace() == old(runner).trace() + runs && loads_raop(runs) && id_value(id)
                == #[trigger] raop_loaded(runs),
{
    let ghost t0 = runner.trace();
    let loaded = runner.run("pactl", &["load-module", "module-raop-discover"]);
    let ghost a = Invocation {
        program: "pactl"@,
        args: str_views((&["load-module", "module-raop-discover"])@),
        answer: loaded,
    };
    assert(a.args =~= seq!["load-module"@, "module-raop-discover"@]);
    assert(runner.trace() =~= t0 + seq![a]);
    let out = match &loaded {
        Ok(o) => o,
        Err(_) => {
            assert(loads_raop(seq![a]) && raop_loaded(seq![a]) is None);
            return None;
        },
    };
    if out.success() {
        let id = parse_loopback_module_id(out.stdout.as_str());
        assert(loads_raop(seq![a]) && raop_loaded(seq![a]) == id_value(id));
        return id;
    }
    let listed = runner.run("pactl", &["list", "short", "modules"]);
    let ghost b = Invocation {
        program: "pactl"@,
        args: str_views((&["list", "short", "modules"])@),
        answer: listed,
    };
    assert(b.args =~= seq!["list"@, "short"@, "modules"@]);
    assert(runner.trace() =~= t0 + seq![a, b]);
    assert(loads_raop(seq![a, b]));
    let id = match &listed {
        Ok(o) => if o.success() {
            parse_module_id_by_name(o.stdout.as_str(), "module-raop-discover")
        } else {
            None
        },
        Err(_) => None,
    };
    assert(raop_loaded(seq![a, b]) == id_value(id));
    id
}

/// Unload a loopback module, if there is one. Best-effort: whatever `pactl`
/// answers, the module counts as gone.
pub fn teardown_loopback<R: CommandRunner>(runner: &mut R, loopback_module_id: &mut Option<u32>)
    ensures
        *final(loopback_module_id) is None,
        exists|runs: Seq<Invocation>|
            final(runner).trace() == old(runner).trace() + runs && unloads(
                runs,
                *old(loopback_module_id),
            ),
{
    let ghost t0 = runner.trace();
    let taken = *loopback_module_id;
    *loopback_module_id = None;
    match taken {
        Some(mid) => {
            let id_str = render(mid as u64);
            let args: [&str; 2] = ["unload-module", id_str.as_str()];
            let answer = runner.run("pactl", &args);
            proof {
                let a = Invocation { program: "pactl"@, args: str_views((&args)@), answer };
                assert(a.args =~= seq!["unload-module"@, decimal(mid as nat)]);
                assert(runner.trace() =~= t0 + seq![a]);
                assert(unloads(seq![a], taken));
            }
        },
        None => {
            assert(runner.trace() =~= t0 + Seq::<Invocation>::empty());
            assert(unloads(Seq::<Invocation>::empty(), taken));
        },
    }
}

/// Load a loopback to `sink_id` and say what is active then: the module and the
/// device, both or neither. A module whose id cannot be read could never be
/// unloaded, so it does not count.
pub fn route_to_sink<R: CommandRunner>(
    runner: &mut R,
    available: &AvailableOutputs,
    kind: OutputKind,
    sink_id: &str,
) -> (out: Option<(u32, OutputDevice)>)
    ensures
        exists|run: Invocation|
            final(runner).trace() == old(runner).trace().push(run) && #[trigger] asked(
                run,
                "pactl"@,
                loopback_args(sink_id@),
            ) && match out {
                Some((mid, device)) => {
                    &&& succeeded(run.answer)
                    &&& printed_id(run.answer->Ok_0.stdout@) == Some(mid as nat)
                    &&& device@ == (match device_with_id(available@.of(kind), sink_id@) {
                        Some(d) => d,
                        None => DeviceData {
                            kind,
                            id: sink_id@,
                            name: sink_id@,
                            addr: None,
                            port: None,
                        },
                    })
                },
                None => !(succeeded(run.answer) && printed_id(run.answer->Ok_0.stdout@) is Some),
            },
{
    let args = build_loopback_args(sink_id);
    assert(views(args@).len() == 6);
    let a: [&str; 6] = [
        args[0].as_str(),
        args[1].as_str(),
        args[2].as_str(),
        args[3].as_str(),
        args[4].as_str(),
        args[5].as_str(),
    ];
    let answer = runner.run("pactl", &a);
    let ghost run = Invocation { program: "pactl"@, args: str_views((&a)@), answer };
    assert(run.args =~= views(args@));
    assert(asked(run, "pactl"@, loopback_args(sink_id@)));
    match &answer {
        Ok(o) => {
            if !o.success() {
                return None;
            }
            match parse_loopback_module_id(o.stdout.as_str()) {
                Some(mid) => {
                    let device = match find_device(available, &kind, sink_id) {
                        Some(d) => d,
                        None => OutputDevice {
                            kind,
                            id: sink_id.to_owned(),
                            name: sink_id.to_owned(),
                            addr: None,
                            port: None,
                        },
                    };
                    Some((mid, device))
                },
                None => None,
            }
        },
        Err(_) => None,
    }
}

impl OutputController {
    /// The controller's invariant.
    pub open spec fn wf(self) -> bool {
        self@.single_active() && self@.available.by_kind()
    }

    /// Start up: load `module-raop-discover` and discover the outputs. Nothing is
    /// active yet.
    pub fn start<R: CommandRunner>(runner: &mut R, lan_ip: String, bind_port: u16) -> (c: Self)
        ensures
            c.wf(),
            exists|raop: Seq<Invocation>, probe: Seq<Invocation>|
                final(runner).trace() == old(runner).trace() + raop + probe && loads_raop(raop)
                    && #[trigger] probed(probe, c@.available) && id_value(c@.raop)
                    == #[trigger] raop_loaded(raop),
            c@.active is None,
            c@.loopback is None,
            !c@.casting,
            c@.cast_health is None,
            c@.lan_ip == lan_ip@,
            c@.bind_port == bind_port,
    {
        let ghost t0 = runner.trace();
        let raop = load_raop_discover(runner);
        let ghost r0 = choose|runs: Seq<Invocation>|
            runner.trace() == t0 + runs && loads_raop(runs) && id_value(raop)
                == #[trigger] raop_loaded(runs);
        let ghost t1 = runner.trace();
        let available = probe_outputs(runner);
        let ghost r1 = choose|runs: Seq<Invocation>|
            runner.trace() == t1 + runs && probed(runs, available@);
        let c = OutputController {
            active: None,
            available,
            loopback: None,
            casting: false,
            cast_health: None,
            raop,
            lan_ip,
            bind_port,
        };
        assert(runner.trace() == t0 + r0 + r1);
        proof {
            lemma_probed_by_kind(r1[0].answer, r1[1].answer);
        }
        assert(probed(r1, c@.available));
        assert(id_value(c@.raop) == raop_loaded(r0));
        c
    }

    /// What is published after every step.
    pub fn state(&self) -> (s: OutputState)
        ensures
            device_view(s.active) == self@.active,
            s.available@ == self@.available,
            s.cast_health == self@.cast_health,
    {
        OutputState {
            active: clone_active(&self.active),
            available: self.available.clone(),
            cast_health: self.cast_health,
        }
    }

    /// Stop feeding whatever is fed: unload the loopback, and say whether a cast
    /// session is to be stopped.
    fn teardown<R: CommandRunner>(&mut self, runner: &mut R) -> (stop: bool)
        ensures
            final(self)@ == old(self)@.torn_down(),
            stop == old(self)@.casting,
            exists|runs: Seq<Invocation>|
                final(runner).trace() == old(runner).trace() + runs && unloads(
                    runs,
                    old(self)@.loopback,
                ),
    {
        let stop = self.casting;
        self.casting = false;
        self.active = None;
        self.cast_health = None;
        let mut loopback = self.loopback;
        teardown_loopback(runner, &mut loopback);
        self.loopback = loopback;
        stop
    }

    /// Carry out a command.
    pub fn handle<R: CommandRunner>(&mut self, runner: &mut R, command: OutputCommand) -> (order:
        CastOrder)
        requires
            old(self).wf(),
        ensures
            final(self).wf(),
            exists|runs: Seq<Invocation>|
                final(runner).trace() == old(runner).trace() + runs && #[trigger] handled(
                    old(self)@,
                    command,
                    runs,
                    final(self)@,
                    order,
                ),
    {
        let ghost s = self@;
        let ghost t0 = runner.trace();
        let stop = self.teardown(runner);
        let ghost r0 = choose|runs: Seq<Invocation>|
            runner.trace() == t0 + runs && unloads(runs, s.loopback);
        match command {
            OutputCommand::Clear => {
                let order = CastOrder { stop, start: None };
                assert(handled(s, command, r0, self@, order));
                order
            },
            OutputCommand::Select { kind, id } => match kind {
                OutputKind::Chromecast => {
                    let device = find_device(&self.available, &OutputKind::Chromecast, id.as_str());
                    let mut start: Option<CastTarget> = None;
                    if let Some(dev) = device {
                        if let Some(addr) = &dev.addr {
                            if !self.lan_ip.as_str().is_empty() {
                                let port: u16 = match dev.port {
                                    Some(p) => p,
                                    None => DEFAULT_CAST_PORT,
                                };
                                let url = stream_url(self.lan_ip.as_str(), self.bind_port);
                                start = Some(CastTarget { addr: addr.clone(), port, url });
                            }
                        }
                        if start.is_some() {
                            proof {
                                lemma_found_kind(
                                    self@.available.chromecast,
                                    OutputKind::Chromecast,
                                    id@,
                                );
                            }
                            self.casting = true;
                            self.cast_health = Some(CastHealth::Connecting);
                            self.active = Some(dev);
                        }
                    }
                    let order = CastOrder { stop, start };
                    assert(handled(s, command, r0, self@, order));
                    order
                },
                _ => {
                    let ghost t1 = runner.trace();
                    let routed = route_to_sink(runner, &self.available, kind, id.as_str());
                    let ghost run = runner.trace().last();
                    proof {
                        lemma_found_kind(self@.available.of(kind), kind, id@);
                    }
                    if let Some((mid, device)) = routed {
                        self.loopback = Some(mid);
                        self.active = Some(device);
                    }
                    let order = CastOrder { stop, start: None };
                    proof {
                        let runs = r0.push(run);
                        assert(runs.drop_last() == r0);
                        assert(runner.trace() =~= t0 + runs);
                        assert(handled(s, command, runs, self@, order));
                    }
                    order
                },
            },
        }
    }

    /// Discover the outputs anew. The active device stays, even where it is no
    /// longer among them: it may come back.
    pub fn refresh<R: CommandRunner>(&mut self, runner: &mut R)
        requires
            old(self).wf(),
        ensures
            final(self).wf(),
            exists|runs: Seq<Invocation>|
                final(runner).trace() == old(runner).trace() + runs && probed(
                    runs,
                    final(self)@.available,
                ),
            final(self)@ == (ControllerData { available: final(self)@.available, ..old(self)@ }),
    {
        let ghost t0 = runner.trace();
        let available = probe_outputs(runner);
        proof {
            let runs = choose|runs: Seq<Invocation>|
                runner.trace() == t0 + runs && probed(runs, available@);
            lemma_probed_by_kind(runs[0].answer, runs[1].answer);
        }
        self.available = available;
    }

    /// Take note whether the running cast session has died. A dead one no longer
    /// counts as active, and its loss is shown.
    pub fn cast_checked(&mut self, finished: bool)
        requires
            old(self).wf(),
        ensures
            final(self).wf(),
            final(self)@ == (if old(self)@.casting && finished {
                ControllerData {
                    active: None,
                    casting: false,
                    cast_health: Some(CastHealth::Lost),
                    ..old(self)@
                }
            } else {
                old(self)@
            }),
    {
        if self.casting && finished {
            self.casting = false;
            self.active = None;
            self.cast_health = Some(CastHealth::Lost);
        }
    }

    /// Leave nothing behind: unload the loopback and `module-raop-discover`, and
    /// say whether a cast session is to be stopped.
    pub fn shutdown<R: CommandRunner>(&mut self, runner: &mut R) -> (stop: bool)
        requires
            old(self).wf(),
        ensures
            final(self).wf(),
            stop == old(self)@.casting,
            final(self)@ == (ControllerData { raop: None, ..old(self)@.torn_down() }),
            exists|a: Seq<Invocation>, b: Seq<Invocation>|
                final(runner).trace() == old(runner).trace() + a + b && #[trigger] unloads(
                    a,
                    old(self)@.loopback,
                ) && #[trigger] unloads(b, old(self)@.raop),
    {
        let stop = self.teardown(runner);
        let mut raop = self.raop;
        teardown_loopback(runner, &mut raop);
        self.raop = raop;
        stop
    }
}

/// Whatever the command, at most one output is fed afterwards, and it is the one
/// that is shown.
pub proof fn commands_keep_a_single_output_active(
    s: ControllerData,
    command: OutputCommand,
    runs: Seq<Invocation>,
    t: ControllerData,
    order: CastOrder,
)
    requires
        s.available.by_kind(),
        handled(s, command, runs, t, order),
    ensures
        t.single_active(),
        t.available == s.available,
        t.raop == s.raop,
{
    if let OutputCommand::Select { kind, id } = command {
        lemma_found_kind(s.available.of(kind), kind, id@);
    }
}

/// A command first ends what was fed before: a loopback is unloaded by the very
/// first run, a cast session is ordered to stop.
pub proof fn commands_end_the_previous_output(
    s: ControllerData,
    command: OutputCommand,
    runs: Seq<Invocation>,
    t: ControllerData,
    order: CastOrder,
)
    requires
        handled(s, command, runs, t, order),
    ensures
        s.casting ==> order.stop,
        s.loopback is Some ==> runs.len() > 0 && asked(
            runs[0],
            "pactl"@,
            seq!["unload-module"@, decimal(s.loopback->0 as nat)],
        ),
{
    if let OutputCommand::Select { kind, id } = command {
        if kind != OutputKind::Chromecast && s.loopback is Some {
            assert(runs.drop_last()[0] == runs[0]);
        }
    }
}

/// A Chromecast never gets a loopback, a sink never a cast session.
pub proof fn kinds_use_their_own_transport(
    s: ControllerData,
    command: OutputCommand,
    runs: Seq<Invocation>,
    t: ControllerData,
    order: CastOrder,
)
    requires
        handled(s, command, runs, t, order),
        command is Select,
    ensures
        command->kind == OutputKind::Chromecast ==> t.loopback is None,
        command->kind != OutputKind::Chromecast ==> order.start is None && !t.casting,
{
}

/// A Chromecast that is selected is cast to, wherever it stands among the available
/// ones: at its address, at the port that it announces or else the usual one, with the
/// URL under which we are reached; and it is the active output from then on.
pub proof fn selected_chromecasts_are_cast_to(
    s: ControllerData,
    id: String,
    runs: Seq<Invocation>,
    t: ControllerData,
    order: CastOrder,
    i: int,
)
    requires
        handled(
            s,
            OutputCommand::Select { kind: OutputKind::Chromecast, id },
            runs,
            t,
            order,
        ),
        0 <= i < s.available.chromecast.len(),
        s.available.chromecast[i].id == id@,
        forall|k: int| 0 <= k < i ==> (#[trigger] s.available.chromecast[k]).id != id@,
        s.available.chromecast[i].addr is Some,
        s.lan_ip.len() > 0,
    ensures
        order.start is Some,
        order.start->0.addr@ == s.available.chromecast[i].addr->0,
        s.available.chromecast[i].port is Some ==> order.start->0.port
            == s.available.chromecast[i].port->0,
        s.available.chromecast[i].port is None ==> order.start->0.port == 8009,
        order.start->0.url@ == "http://"@ + s.lan_ip + ":"@ + decimal(s.bind_port as nat)
            + "/api/stream/audio.aac"@,
        t.active == Some(s.available.chromecast[i]),
        t.casting,
        t.cast_health == Some(CastHealth::Connecting),
        t.loopback is None,
{
    devices_are_found_wherever_they_stand(s.available.chromecast, id@);
    let d = device_with_id(s.available.chromecast, id@)->0;
    let j = choose|j: int|
        0 <= j < s.available.chromecast.len() && #[trigger] s.available.chromecast[j] == d
            && s.available.chromecast[j].id == id@ && forall|k: int|
            0 <= k < j ==> (#[trigger] s.available.chromecast[k]).id != id@;
    assert(s.available.chromecast[i].id == id@);
    assert(i == j);
}

/// A Chromecast that is not available, has no address, or cannot reach us is not cast
/// to: nothing is active then.
pub proof fn unknown_chromecasts_are_not_cast_to(
    s: ControllerData,
    id: String,
    runs: Seq<Invocation>,
    t: ControllerData,
    order: CastOrder,
)
    requires
        handled(
            s,
            OutputCommand::Select { kind: OutputKind::Chromecast, id },
            runs,
            t,
            order,
        ),
        s.lan_ip.len() == 0 || forall|k: int|
            0 <= k < s.available.chromecast.len() && (#[trigger] s.available.chromecast[k]).id
                == id@ ==> s.available.chromecast[k].addr is None,
    ensures
        order.start is None,
        t.active is None,
        !t.casting,
        t.cast_health is None,
        t.loopback is None,
{
    devices_are_found_wherever_they_stand(s.available.chromecast, id@);
}

/// A sink that is selected gets a loopback, loaded by the last run. Where `pactl`
/// succeeds and prints an id, that module is the one to unload later and the sink is
/// active: the available device of that kind and id, wherever it stands. Where it does
/// not, nothing is active.
pub proof fn selected_sinks_get_a_loopback(
    s: ControllerData,
    kind: OutputKind,
    id: String,
    runs: Seq<Invocation>,
    t: ControllerData,
    order: CastOrder,
    n: u32,
)
    requires
        kind != OutputKind::Chromecast,
        handled(s, OutputCommand::Select { kind, id }, runs, t, order),
    ensures
        runs.len() > 0,
        runs.last().program == "pactl"@,
        runs.last().args.len() == 6,
        runs.last().args[0] == "load-module"@,
        runs.last().args[1] == "module-loopback"@,
        runs.last().args[2] == "source="@ + "soundsync-capture.monitor"@,
        runs.last().args[3] == "sink="@ + id@,
        runs.last().answer is Ok && runs.last().answer->Ok_0.status == 0
            && runs.last().answer->Ok_0.stdout@ == decimal(n as nat) + seq!['\n'] ==> t.loopback
            == Some(n) && t.active is Some && t.active->0.id == id@,
        runs.last().answer is Err || runs.last().answer->Ok_0.status != 0 ==> t.loopback is None
            && t.active is None,
        forall|i: int|
            t.active is Some && 0 <= i < s.available.of(kind).len() && (#[trigger] s.available.of(
                kind,
            )[i]).id == id@ && (forall|k: int|
                0 <= k < i ==> (#[trigger] s.available.of(kind)[k]).id != id@) ==> t.active == Some(
                s.available.of(kind)[i],
            ),
        !t.casting,
        t.cast_health is None,
        order.start is None,
{
    let ds = s.available.of(kind);
    loopbacks_go_from_the_capture_to_the_sink(id@);
    devices_are_found_wherever_they_stand(ds, id@);
    let empty = Seq::<char>::empty();
    let feed = seq!['\n'];
    assert(empty + decimal(n as nat) + feed =~= decimal(n as nat) + feed);
    printed_ids_read_back(empty, n, feed);
    if device_with_id(ds, id@) is Some {
        let d = device_with_id(ds, id@)->0;
        let j = choose|j: int|
            0 <= j < ds.len() && #[trigger] ds[j] == d && ds[j].id == id@ && forall|k: int|
                0 <= k < j ==> (#[trigger] ds[k]).id != id@;
        assert forall|i: int|
            0 <= i < ds.len() && (#[trigger] ds[i]).id == id@ && (forall|k: int|
                0 <= k < i ==> (#[trigger] ds[k]).id != id@) implies ds[i] == d by {
            assert(i == j);
        }
    }
}

/// Clearing leaves nothing active, and runs nothing but what unloads the loopback.
pub proof fn clearing_leaves_nothing_active(
    s: ControllerData,
    runs: Seq<Invocation>,
    t: ControllerData,
    order: CastOrder,
)
    requires
        handled(s, OutputCommand::Clear, runs, t, order),
    ensures
        t.active is None,
        t.loopback is None,
        !t.casting,
        t.cast_health is None,
        t.available == s.available,
        order.stop == s.casting,
        order.start is None,
        runs.len() == (if s.loopback is Some {
            1int
        } else {
            0
        }),
        s.loopback is Some ==> runs[0].program == "pactl"@ && runs[0].args == seq![
            "unload-module"@,
            decimal(s.loopback->0 as nat),
        ],
{
}

proof fn lemma_found_kind(ds: Seq<DeviceData>, kind: OutputKind, id: Seq<char>)
    requires
        all_of(ds, kind),
    ensures
        device_with_id(ds, id) is Some ==> device_with_id(ds, id)->0.kind == kind,
    decreases ds.len(),
{
    if ds.len() > 0 {
        assert(ds[0].kind == kind);
        assert forall|i: int| 0 <= i < ds.drop_first().len() implies (
        #[trigger] ds.drop_first()[i]).kind == kind by {
            assert(ds.drop_first()[i] == ds[i + 1]);
        }
        lemma_found_kind(ds.drop_first(), kind, id);
    }
}

/// The module for AirPlay is the one that was loaded now; where that failed it is one that
/// was loaded before, at whatever line it is listed; where `pactl` cannot be run there is
/// none.
pub proof fn airplay_modules_are_loaded_or_adopted(runs: Seq<Invocation>, n: u32, i: int)
    requires
        loads_raop(runs),
    ensures
        runs[0].program == "pactl"@ && runs[0].args == seq!["load-module"@, "module-raop-discover"@],
        runs[0].answer is Ok && runs[0].answer->Ok_0.status == 0 && runs[0].answer->Ok_0.stdout@
            == decimal(n as nat) + seq!['\n'] ==> raop_loaded(runs) == Some(n as nat) && runs.len()
            == 1,
        runs[0].answer is Err ==> raop_loaded(runs) is None && runs.len() == 1,
        runs[0].answer is Ok && runs[0].answer->Ok_0.status != 0 ==> runs.len() == 2
            && runs[1].program == "pactl"@ && runs[1].args == seq!["list"@, "short"@, "modules"@],
        runs.len() == 2 && runs[1].answer is Ok && runs[1].answer->Ok_0.status == 0 && 0 <= i
            < lines_of(runs[1].answer->Ok_0.stdout@).len() && names_module(
            lines_of(runs[1].answer->Ok_0.stdout@)[i],
            "module-raop-discover"@,
        ) && (forall|k: int|
            0 <= k < i ==> !names_module(
                #[trigger] lines_of(runs[1].answer->Ok_0.stdout@)[k],
                "module-raop-discover"@,
            )) ==> raop_loaded(runs) == parsed(
            pieces_up_to(trimmed(lines_of(runs[1].answer->Ok_0.stdout@)[i]), 3, '\t')[0],
            u32::MAX as nat,
        ),
        runs.len() == 2 && (runs[1].answer is Err || runs[1].answer->Ok_0.status != 0)
            ==> raop_loaded(runs) is None,
{
    let empty = Seq::<char>::empty();
    let feed = seq!['\n'];
    assert(empty + decimal(n as nat) + feed =~= decimal(n as nat) + feed);
    printed_ids_read_back(empty, n, feed);
    if runs.len() == 2 && runs[1].answer is Ok {
        let ls = lines_of(runs[1].answer->Ok_0.stdout@);
        if 0 <= i < ls.len() && names_module(ls[i], "module-raop-discover"@) && (forall|k: int|
            0 <= k < i ==> !names_module(#[trigger] ls[k], "module-raop-discover"@)) {
            modules_are_found_by_name(ls, i, "module-raop-discover"@);
        }
    }
}

} // verus!
