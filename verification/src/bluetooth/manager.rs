//! The Bluetooth manager state. Tracks each known device (a passive sink never
//! connects by itself) and reconciles which of them have audio flowing.
use vstd::prelude::*;
use crate::bluetooth::audio_node::{addresses_of_lines, is_set_of, listed_sources, probe_bluez_input_addresses, sources_result};
use crate::bluetooth::device::DeviceState;
use crate::bluetooth::devices::BluezEvent;
use crate::bluetooth::events::{applied, apply_event, DeviceEvent};
use crate::sys::command::{CommandRunner, Invocation};
use crate::text::{before, clone_opt, less, lines_of, order_is_irreflexive, order_is_total, order_is_transitive, same, views};

verus! {

/// A device's current view, for publishing to the UI.
#[derive(Debug, PartialEq, Eq)]
pub struct DeviceSnapshot {
    pub addr: String,
    pub name: Option<String>,
    pub state: DeviceState,
    /// BlueZ `Icon` hint; the last-known value is kept.
    pub icon: Option<String>,
}

impl Clone for DeviceSnapshot {
    fn clone(&self) -> (r: Self)
        ensures
            r == *self,
    {
        DeviceSnapshot {
            addr: self.addr.clone(),
            name: clone_opt(&self.name),
            state: self.state,
            icon: clone_opt(&self.icon),
        }
    }
}

/// What is known of a device, besides its address.
pub struct Known {
    pub name: Option<Seq<char>>,
    pub state: DeviceState,
    pub icon: Option<Seq<char>>,
}

impl DeviceSnapshot {
    /// What a snapshot says of its device.
    pub open spec fn known(self) -> Known {
        Known {
            name: crate::text::opt_view(self.name),
            state: self.state,
            icon: crate::text::opt_view(self.icon),
        }
    }
}

/// Whether the snapshots are in the order of their addresses, each address once.
pub open spec fn in_order(s: Seq<DeviceSnapshot>) -> bool {
    forall|i: int, j: int|
        0 <= i < j < s.len() ==> before((#[trigger] s[i]).addr@, (#[trigger] s[j]).addr@)
}

/// Whether none of the snapshots is of a device that is being connected to.
pub open spec fn settled(s: Seq<DeviceSnapshot>) -> bool {
    forall|i: int| 0 <= i < s.len() ==> (#[trigger] s[i]).state != DeviceState::Connecting
}

/// Whether no device is being connected to.
pub open spec fn none_connecting(known: Map<Seq<char>, Known>) -> bool {
    forall|addr: Seq<char>|
        known.dom().contains(addr) ==> (#[trigger] known[addr]).state != DeviceState::Connecting
}

/// Whether one of the snapshots is of that address.
pub open spec fn listed(s: Seq<DeviceSnapshot>, addr: Seq<char>) -> bool {
    exists|i: int| 0 <= i < s.len() && (#[trigger] s[i]).addr@ == addr
}

/// Where the snapshot of an address stands.
pub open spec fn place(s: Seq<DeviceSnapshot>, addr: Seq<char>) -> int {
    choose|i: int| 0 <= i < s.len() && (#[trigger] s[i]).addr@ == addr
}

/// What the snapshots say, by address.
pub open spec fn known_of(s: Seq<DeviceSnapshot>) -> Map<Seq<char>, Known> {
    Map::new(
        |addr: Seq<char>| listed(s, addr),
        |addr: Seq<char>| s[place(s, addr)].known(),
    )
}

proof fn lemma_known(s: Seq<DeviceSnapshot>, i: int)
    requires
        in_order(s),
        0 <= i < s.len(),
    ensures
        known_of(s).dom().contains(s[i].addr@),
        known_of(s)[s[i].addr@] == s[i].known(),
{
    let addr = s[i].addr@;
    assert(listed(s, addr));
    let j = place(s, addr);
    assert(0 <= j < s.len() && s[j].addr@ == addr);
    if j != i {
        order_is_irreflexive(addr);
    }
}

/// Tracks device states, keyed by address.
pub struct BtManager {
    devices: Vec<DeviceSnapshot>,
}

impl View for BtManager {
    type V = Map<Seq<char>, Known>;

    closed spec fn view(&self) -> Map<Seq<char>, Known> {
        known_of(self.devices@)
    }
}

/// The devices after an event. A device that appears is recorded as discovered
/// unless more is known; a name or icon that is known is never lost; a connection
/// or disconnection is taken as it is reported, even of an unknown device.
pub open spec fn after_event(known: Map<Seq<char>, Known>, ev: BluezEvent) -> Map<Seq<char>, Known> {
    match ev {
        BluezEvent::DeviceAdded { addr, name, icon } => {
            let old = if known.dom().contains(addr@) {
                known[addr@]
            } else {
                Known { name: None, state: DeviceState::Disconnected, icon: None }
            };
            known.insert(
                addr@,
                Known {
                    name: if name is Some {
                        crate::text::opt_view(name)
                    } else {
                        old.name
                    },
                    state: if old.state == DeviceState::Disconnected {
                        DeviceState::Discovered
                    } else {
                        old.state
                    },
                    icon: if icon is Some {
                        crate::text::opt_view(icon)
                    } else {
                        old.icon
                    },
                },
            )
        },
        BluezEvent::DeviceRemoved { addr } => known.remove(addr@),
        BluezEvent::Connected { addr } => known.insert(
            addr@,
            with_state(known, addr@, DeviceState::Connected),
        ),
        BluezEvent::Disconnected { addr } => known.insert(
            addr@,
            with_state(known, addr@, DeviceState::Disconnected),
        ),
    }
}

/// What is known of a device, with another state.
pub open spec fn with_state(
    known: Map<Seq<char>, Known>,
    addr: Seq<char>,
    state: DeviceState,
) -> Known {
    if known.dom().contains(addr) {
        Known { state, ..known[addr] }
    } else {
        Known { name: None, state, icon: None }
    }
}

/// The devices after a probe found these addresses to have audio flowing.
pub open spec fn after_probe(known: Map<Seq<char>, Known>, active: Seq<Seq<char>>) -> Map<
    Seq<char>,
    Known,
> {
    Map::new(
        |addr: Seq<char>| known.dom().contains(addr),
        |addr: Seq<char>| Known { state: probed_state(known[addr].state, active.contains(addr)), ..known[addr] },
    )
}

/// The state of a device after a probe.
pub open spec fn probed_state(state: DeviceState, active: bool) -> DeviceState {
    applied(
        state,
        if active {
            DeviceEvent::AudioNodeAppeared
        } else {
            DeviceEvent::AudioNodeDisappeared
        },
    )
}

impl Default for BtManager {
    fn default() -> (m: Self)
        ensures
            m@ == Map::<Seq<char>, Known>::empty(),
    {
        BtManager::new()
    }
}

impl BtManager {
    #[verifier::type_invariant]
    spec fn ordered(self) -> bool {
        in_order(self.devices@) && settled(self.devices@)
    }

    /// No device is known.
    pub fn new() -> (m: Self)
        ensures
            m@ == Map::<Seq<char>, Known>::empty(),
    {
        let m = BtManager { devices: Vec::new() };
        assert(m@ =~= Map::empty());
        m
    }

    /// Where the device of that address stands, or would stand.
    fn position(&self, addr: &str) -> (r: (bool, usize))
        ensures
            r.0 == self@.dom().contains(addr@),
            r.1 <= self.devices@.len(),
            r.0 ==> r.1 < self.devices@.len() && self.devices@[r.1 as int].addr@ == addr@,
            forall|k: int| 0 <= k < r.1 ==> before((#[trigger] self.devices@[k]).addr@, addr@),
            !r.0 ==> forall|k: int|
                r.1 <= k < self.devices@.len() ==> before(addr@, (#[trigger] self.devices@[k]).addr@),
    {
        proof {
            use_type_invariant(self);
        }
        let mut i: usize = 0;
        while i < self.devices.len() && less(self.devices[i].addr.as_str(), addr)
            invariant
                i <= self.devices@.len(),
                forall|k: int| 0 <= k < i ==> before((#[trigger] self.devices@[k]).addr@, addr@),
            decreases self.devices@.len() - i,
        {
            i = i + 1;
        }
        let ghost s = self.devices@;
        proof {
            assert forall|k: int| 0 <= k < i implies (#[trigger] s[k]).addr@ != addr@ by {
                order_is_irreflexive(addr@);
            }
        }
        if i < self.devices.len() {
            if same(self.devices[i].addr.as_str(), addr) {
                assert(listed(s, addr@));
                return (true, i);
            }
            proof {
                order_is_total(s[i as int].addr@, addr@);
                assert forall|k: int| i <= k < s.len() implies before(
                    addr@,
                    (#[trigger] s[k]).addr@,
                ) by {
                    if k > i {
                        order_is_transitive(addr@, s[i as int].addr@, s[k].addr@);
                    }
                }
                assert forall|k: int| i <= k < s.len() implies (#[trigger] s[k]).addr@ != addr@ by {
                    order_is_irreflexive(addr@);
                }
            }
        }
        (false, i)
    }

    /// Record a device, in place of what was known of it.
    fn put(&mut self, snap: DeviceSnapshot)
        requires
            snap.state != DeviceState::Connecting,
        ensures
            final(self)@ == old(self)@.insert(snap.addr@, snap.known()),
    {
        proof {
            use_type_invariant(&*self);
        }
        let (found, i) = self.position(snap.addr.as_str());
        let ghost s = self.devices@;
        let ghost addr = snap.addr@;
        let ghost new = snap;
        let mut devices: Vec<DeviceSnapshot> = Vec::new();
        std::mem::swap(&mut devices, &mut self.devices);
        if found {
            devices.set(i, snap);
            proof {
                let t = devices@;
                assert(t =~= s.update(i as int, new));
                assert forall|a: int, b: int| 0 <= a < b < t.len() implies before(
                    (#[trigger] t[a]).addr@,
                    (#[trigger] t[b]).addr@,
                ) by {
                    assert(s[a].addr@ == t[a].addr@);
                    assert(s[b].addr@ == t[b].addr@);
                }
                lemma_put(s, t, i as int, new);
            }
        } else {
            devices.insert(i, snap);
            proof {
                let t = devices@;
                assert(t =~= s.insert(i as int, new));
                assert forall|a: int, b: int| 0 <= a < b < t.len() implies before(
                    (#[trigger] t[a]).addr@,
                    (#[trigger] t[b]).addr@,
                ) by {
                    let x = if a < i { a } else { a - 1 };
                    let y = if b < i { b } else { b - 1 };
                    if a == i {
                        assert(t[b] == s[y]);
                    } else if b == i {
                        assert(t[a] == s[x]);
                    } else {
                        assert(t[a] == s[x]);
                        assert(t[b] == s[y]);
                    }
                }
                lemma_insert(s, t, i as int, new);
            }
        }
        self.devices = devices;
    }

    /// What is known of a device.
    fn lookup(&self, addr: &str) -> (out: Option<DeviceSnapshot>)
        ensures
            match out {
                Some(d) => self@.dom().contains(addr@) && d.addr@ == addr@ && d.known()
                    == self@[addr@] && d.state != DeviceState::Connecting,
                None => !self@.dom().contains(addr@),
            },
    {
        proof {
            use_type_invariant(self);
        }
        let (found, i) = self.position(addr);
        if found {
            proof {
                lemma_known(self.devices@, i as int);
            }
            Some(self.devices[i].clone())
        } else {
            None
        }
    }

    /// Handle a BlueZ event: track state only, never connect.
    pub fn on_event(&mut self, ev: &BluezEvent)
        ensures
            final(self)@ == after_event(old(self)@, *ev),
    {
        match ev {
            BluezEvent::DeviceAdded { addr, name, icon } => {
                let mut snap = match self.lookup(addr.as_str()) {
                    Some(d) => d,
                    None => DeviceSnapshot {
                        addr: addr.clone(),
                        name: None,
                        state: DeviceState::Disconnected,
                        icon: None,
                    },
                };
                if name.is_some() {
                    snap.name = clone_opt(name);
                }
                if icon.is_some() {
                    snap.icon = clone_opt(icon);
                }
                if snap.state == DeviceState::Disconnected {
                    snap.state = DeviceState::Discovered;
                }
                self.put(snap);
            },
            BluezEvent::Connected { addr } => self.set_state(addr.as_str(), DeviceState::Connected),
            BluezEvent::Disconnected { addr } => self.set_state(
                addr.as_str(),
                DeviceState::Disconnected,
            ),
            BluezEvent::DeviceRemoved { addr } => self.remove(addr.as_str()),
        }
    }

    /// Forget a device.
    fn remove(&mut self, addr: &str)
        ensures
            final(self)@ == old(self)@.remove(addr@),
    {
        proof {
            use_type_invariant(&*self);
        }
        let (found, i) = self.position(addr);
        if found {
            let ghost s = self.devices@;
            let mut devices: Vec<DeviceSnapshot> = Vec::new();
            std::mem::swap(&mut devices, &mut self.devices);
            let _gone = devices.remove(i);
            proof {
                let t = devices@;
                assert(t =~= s.remove(i as int));
                assert forall|a: int, b: int| 0 <= a < b < t.len() implies before(
                    (#[trigger] t[a]).addr@,
                    (#[trigger] t[b]).addr@,
                ) by {
                    let x = if a < i { a } else { a + 1 };
                    let y = if b < i { b } else { b + 1 };
                    assert(t[a] == s[x]);
                    assert(t[b] == s[y]);
                }
                lemma_remove(s, t, i as int);
            }
            self.devices = devices;
        } else {
            assert(self@ =~= self@.remove(addr@));
        }
    }

    fn set_state(&mut self, addr: &str, state: DeviceState)
        requires
            state != DeviceState::Connecting,
        ensures
            final(self)@ == old(self)@.insert(addr@, with_state(old(self)@, addr@, state)),
    {
        let snap = match self.lookup(addr) {
            Some(d) => DeviceSnapshot { state, ..d },
            None => DeviceSnapshot { addr: addr.to_owned(), name: None, state, icon: None },
        };
        self.put(snap);
    }

    /// The state of one device, if known. A sink never connects by itself, so no device
    /// is ever in the state of being connected to.
    pub fn state_of(&self, addr: &str) -> (out: Option<DeviceState>)
        ensures
            out != Some(DeviceState::Connecting),
            out == (if self@.dom().contains(addr@) {
                Some(self@[addr@].state)
            } else {
                None
            }),
    {
        match self.lookup(addr) {
            Some(d) => Some(d.state),
            None => None,
        }
    }

    /// Current device states, sorted by address.
    pub fn snapshot(&self) -> (out: Vec<DeviceSnapshot>)
        ensures
            in_order(out@),
            settled(out@),
            known_of(out@) == self@,
    {
        proof {
            use_type_invariant(self);
        }
        let mut out: Vec<DeviceSnapshot> = Vec::new();
        let mut i: usize = 0;
        while i < self.devices.len()
            invariant
                i <= self.devices@.len(),
                out@ == self.devices@.take(i as int),
            decreases self.devices@.len() - i,
        {
            out.push(self.devices[i].clone());
            i = i + 1;
            assert(out@ =~= self.devices@.take(i as int));
        }
        assert(self.devices@.take(self.devices@.len() as int) =~= self.devices@);
        out
    }

    /// Probe which devices have audio flowing, and reconcile. Where the probe fails,
    /// nothing changes.
    pub fn probe<R: CommandRunner>(&mut self, runner: &mut R) -> (r: Result<(), String>)
        ensures
            exists|run: Invocation|
                final(runner).trace() == old(runner).trace().push(run)
                    && #[trigger] listed_sources(run) && match (r, sources_result(run.answer)) {
                    (Ok(()), Ok(text)) => final(self)@ == after_probe(
                        old(self)@,
                        addresses_of_lines(lines_of(text)),
                    ),
                    (Err(a), Err(b)) => a@ == b && final(self)@ == old(self)@,
                    _ => false,
                },
    {
        match probe_bluez_input_addresses(runner) {
            Ok(active) => {
                let ghost known = self@;
                self.reconcile_audio(&active);
                proof {
                    let run = runner.trace().last();
                    let told = addresses_of_lines(lines_of(sources_result(run.answer)->Ok_0));
                    assert(is_set_of(views(active@), told));
                    lemma_same_probe(known, views(active@), told);
                }
                Ok(())
            },
            Err(e) => Err(e),
        }
    }

    /// Reconcile which devices have audio flowing with the addresses that have a
    /// `bluez_input.*` node.
    pub fn reconcile_audio(&mut self, active: &Vec<String>)
        ensures
            final(self)@ == after_probe(old(self)@, views(active@)),
    {
        proof {
            use_type_invariant(&*self);
        }
        let ghost s = self.devices@;
        let ghost av = views(active@);
        let mut devices: Vec<DeviceSnapshot> = Vec::new();
        std::mem::swap(&mut devices, &mut self.devices);
        let mut i: usize = 0;
        while i < devices.len()
            invariant
                i <= devices@.len(),
                av == views(active@),
                devices@.len() == s.len(),
                forall|k: int| i <= k < s.len() ==> devices@[k] == s[k],
                forall|k: int|
                    0 <= k < i ==> (#[trigger] devices@[k]) == (DeviceSnapshot {
                        state: probed_state(s[k].state, av.contains(s[k].addr@)),
                        ..s[k]
                    }),
            decreases devices@.len() - i,
        {
            let snap = devices[i].clone();
            let ev = if is_in(active, snap.addr.as_str()) {
                DeviceEvent::AudioNodeAppeared
            } else {
                DeviceEvent::AudioNodeDisappeared
            };
            let state = apply_event(snap.state, ev);
            devices.set(i, DeviceSnapshot { state, ..snap });
            i = i + 1;
        }
        proof {
            let t = devices@;
            assert(in_order(t)) by {
                assert forall|a: int, b: int| 0 <= a < b < t.len() implies before(
                    (#[trigger] t[a]).addr@,
                    (#[trigger] t[b]).addr@,
                ) by {
                    assert(t[a].addr == s[a].addr);
                    assert(t[b].addr == s[b].addr);
                }
            }
            assert(settled(t)) by {
                assert forall|k: int| 0 <= k < t.len() implies (#[trigger] t[k]).state
                    != DeviceState::Connecting by {
                    assert(s[k].state != DeviceState::Connecting);
                    assert(t[k].state == probed_state(s[k].state, av.contains(s[k].addr@)));
                }
            }
            lemma_probed(s, t, av);
        }
        self.devices = devices;
    }
}

fn is_in(active: &Vec<String>, addr: &str) -> (r: bool)
    ensures
        r == views(active@).contains(addr@),
{
    let mut i: usize = 0;
    while i < active.len()
        invariant
            i <= active@.len(),
            forall|k: int| 0 <= k < i ==> views(active@)[k] != addr@,
        decreases active@.len() - i,
    {
        if same(active[i].as_str(), addr) {
            assert(views(active@)[i as int] == addr@);
            return true;
        }
        i = i + 1;
    }
    false
}

proof fn lemma_put(s: Seq<DeviceSnapshot>, t: Seq<DeviceSnapshot>, i: int, snap: DeviceSnapshot)
    requires
        in_order(s),
        in_order(t),
        0 <= i < s.len(),
        s[i].addr@ == snap.addr@,
        t == s.update(i, snap),
    ensures
        known_of(t) == known_of(s).insert(snap.addr@, snap.known()),
{
    let m = known_of(s).insert(snap.addr@, snap.known());
    assert forall|a: Seq<char>| known_of(t).dom().contains(a) == m.dom().contains(a) by {
        if listed(t, a) {
            let k = choose|k: int| 0 <= k < t.len() && (#[trigger] t[k]).addr@ == a;
            assert(s[k].addr@ == a);
        }
        if listed(s, a) {
            let k = choose|k: int| 0 <= k < s.len() && (#[trigger] s[k]).addr@ == a;
            assert(t[k].addr@ == a);
        }
        assert(t[i].addr@ == snap.addr@);
    }
    assert forall|a: Seq<char>| known_of(t).dom().contains(a) implies known_of(t)[a] == m[a] by {
        let k = choose|k: int| 0 <= k < t.len() && (#[trigger] t[k]).addr@ == a;
        lemma_known(t, k);
        lemma_known(s, k);
        if k != i {
            assert(s[k] == t[k]);
            if a == snap.addr@ {
                lemma_known(t, i);
                order_is_irreflexive(a);
                assert(t[k].addr@ == t[i].addr@);
            }
        }
    }
    assert(known_of(t) =~= m);
}

proof fn lemma_insert(s: Seq<DeviceSnapshot>, t: Seq<DeviceSnapshot>, i: int, snap: DeviceSnapshot)
    requires
        in_order(s),
        in_order(t),
        0 <= i <= s.len(),
        t == s.insert(i, snap),
    ensures
        known_of(t) == known_of(s).insert(snap.addr@, snap.known()),
{
    let m = known_of(s).insert(snap.addr@, snap.known());
    assert(t[i] == snap);
    lemma_known(t, i);
    assert forall|a: Seq<char>| known_of(t).dom().contains(a) == m.dom().contains(a) by {
        if listed(t, a) {
            let k = choose|k: int| 0 <= k < t.len() && (#[trigger] t[k]).addr@ == a;
            if k < i {
                assert(s[k].addr@ == a);
            } else if k > i {
                assert(s[k - 1].addr@ == a);
            }
        }
        if listed(s, a) {
            let k = choose|k: int| 0 <= k < s.len() && (#[trigger] s[k]).addr@ == a;
            if k < i {
                assert(t[k].addr@ == a);
            } else {
                assert(t[k + 1].addr@ == a);
            }
        }
    }
    assert forall|a: Seq<char>| known_of(t).dom().contains(a) implies known_of(t)[a] == m[a] by {
        let k = choose|k: int| 0 <= k < t.len() && (#[trigger] t[k]).addr@ == a;
        lemma_known(t, k);
        if k != i {
            let j = if k < i { k } else { k - 1 };
            assert(s[j] == t[k]);
            lemma_known(s, j);
            if a == snap.addr@ {
                order_is_irreflexive(a);
                assert(t[k].addr@ == t[i].addr@);
            }
        }
    }
    assert(known_of(t) =~= m);
}

proof fn lemma_remove(s: Seq<DeviceSnapshot>, t: Seq<DeviceSnapshot>, i: int)
    requires
        in_order(s),
        in_order(t),
        0 <= i < s.len(),
        t == s.remove(i),
    ensures
        known_of(t) == known_of(s).remove(s[i].addr@),
{
    let m = known_of(s).remove(s[i].addr@);
    assert forall|a: Seq<char>| known_of(t).dom().contains(a) == m.dom().contains(a) by {
        if listed(t, a) {
            let k = choose|k: int| 0 <= k < t.len() && (#[trigger] t[k]).addr@ == a;
            let j = if k < i { k } else { k + 1 };
            assert(s[j] == t[k]);
            assert(s[j].addr@ == a);
            if a == s[i].addr@ {
                order_is_irreflexive(a);
            }
        }
        if listed(s, a) && a != s[i].addr@ {
            let k = choose|k: int| 0 <= k < s.len() && (#[trigger] s[k]).addr@ == a;
            if k < i {
                assert(t[k].addr@ == a);
            } else {
                assert(t[k - 1].addr@ == a);
            }
        }
    }
    assert forall|a: Seq<char>| known_of(t).dom().contains(a) implies known_of(t)[a] == m[a] by {
        let k = choose|k: int| 0 <= k < t.len() && (#[trigger] t[k]).addr@ == a;
        let j = if k < i { k } else { k + 1 };
        assert(s[j] == t[k]);
        lemma_known(t, k);
        lemma_known(s, j);
        if a == s[i].addr@ {
            order_is_irreflexive(a);
        }
    }
    assert(known_of(t) =~= m);
}

proof fn lemma_probed(s: Seq<DeviceSnapshot>, t: Seq<DeviceSnapshot>, active: Seq<Seq<char>>)
    requires
        in_order(s),
        in_order(t),
        t.len() == s.len(),
        forall|k: int|
            0 <= k < s.len() ==> (#[trigger] t[k]) == (DeviceSnapshot {
                state: probed_state(s[k].state, active.contains(s[k].addr@)),
                ..s[k]
            }),
    ensures
        known_of(t) == after_probe(known_of(s), active),
{
    let m = after_probe(known_of(s), active);
    assert forall|a: Seq<char>| known_of(t).dom().contains(a) == m.dom().contains(a) by {
        if listed(t, a) {
            let k = choose|k: int| 0 <= k < t.len() && (#[trigger] t[k]).addr@ == a;
            assert(s[k].addr@ == a);
        }
        if listed(s, a) {
            let k = choose|k: int| 0 <= k < s.len() && (#[trigger] s[k]).addr@ == a;
            assert(t[k].addr@ == a);
        }
    }
    assert forall|a: Seq<char>| known_of(t).dom().contains(a) implies known_of(t)[a] == m[a] by {
        let k = choose|k: int| 0 <= k < t.len() && (#[trigger] t[k]).addr@ == a;
        lemma_known(t, k);
        lemma_known(s, k);
        assert(s[k].addr@ == a);
    }
    assert(known_of(t) =~= m);
}

proof fn lemma_same_probe(
    known: Map<Seq<char>, Known>,
    active: Seq<Seq<char>>,
    others: Seq<Seq<char>>,
)
    requires
        is_set_of(active, others),
    ensures
        after_probe(known, active) == after_probe(known, others),
{
    assert forall|addr: Seq<char>| known.dom().contains(addr) implies #[trigger] after_probe(
        known,
        active,
    )[addr] == after_probe(known, others)[addr] by {
        assert(active.contains(addr) == others.contains(addr));
    }
    assert(after_probe(known, active) =~= after_probe(known, others));
}

// ── Laws ─────────────────────────────────────────────────────────────────────

/// A sink is passive: that a device appears never makes it connected, and changes
/// nothing about the other devices.
pub proof fn discovery_never_connects(
    known: Map<Seq<char>, Known>,
    addr: String,
    name: Option<String>,
    icon: Option<String>,
    other: Seq<char>,
)
    ensures
        ({
            let after = after_event(known, BluezEvent::DeviceAdded { addr, name, icon });
            &&& after.dom().contains(addr@)
            &&& known.dom().contains(addr@) && known[addr@].state != DeviceState::Disconnected
                ==> after[addr@].state == known[addr@].state
            &&& !known.dom().contains(addr@) || known[addr@].state == DeviceState::Disconnected
                ==> after[addr@].state == DeviceState::Discovered
            &&& other != addr@ ==> after.dom().contains(other) == known.dom().contains(other)
                && after[other] == known[other]
        }),
{
}

/// What is known of a device's name and icon is never lost while the device is
/// listed: only a newer name or icon replaces it.
pub proof fn names_and_icons_are_kept(known: Map<Seq<char>, Known>, ev: BluezEvent, addr: Seq<char>)
    requires
        known.dom().contains(addr),
        after_event(known, ev).dom().contains(addr),
    ensures
        known[addr].name is Some ==> after_event(known, ev)[addr].name is Some,
        known[addr].icon is Some ==> after_event(known, ev)[addr].icon is Some,
        !(ev is DeviceAdded) ==> after_event(known, ev)[addr].name == known[addr].name
            && after_event(known, ev)[addr].icon == known[addr].icon,
{
}

/// No device is ever being connected to, since a sink never connects by itself: neither
/// an event nor a probe leads there, and a manager starts without devices.
pub proof fn no_device_is_ever_being_connected_to(
    known: Map<Seq<char>, Known>,
    ev: BluezEvent,
    active: Seq<Seq<char>>,
)
    ensures
        none_connecting(Map::<Seq<char>, Known>::empty()),
        none_connecting(known) ==> none_connecting(after_event(known, ev)),
        none_connecting(known) ==> none_connecting(after_probe(known, active)),
{
    if none_connecting(known) {
        let next = after_event(known, ev);
        assert forall|addr: Seq<char>| next.dom().contains(addr) implies (
        #[trigger] next[addr]).state != DeviceState::Connecting by {
            if known.dom().contains(addr) {
                assert(known[addr].state != DeviceState::Connecting);
            }
        }
        let probed = after_probe(known, active);
        assert forall|addr: Seq<char>| probed.dom().contains(addr) implies (
        #[trigger] probed[addr]).state != DeviceState::Connecting by {
            assert(known[addr].state != DeviceState::Connecting);
        }
    }
}

/// A probe makes audio active on exactly the devices that are connected and have a
/// node; it neither adds nor drops a device, never ends a connection, and leaves
/// what is merely discovered or disconnected as it is.
pub proof fn probes_only_move_between_connected_and_active(
    known: Map<Seq<char>, Known>,
    active: Seq<Seq<char>>,
    addr: Seq<char>,
)
    requires
        known.dom().contains(addr),
    ensures
        after_probe(known, active).dom() == known.dom(),
        ({
            let old = known[addr].state;
            let new = after_probe(known, active)[addr].state;
            &&& new == DeviceState::AudioActive <==> (old == DeviceState::AudioActive || old
                == DeviceState::Connected) && active.contains(addr)
            &&& (old == DeviceState::AudioActive || old == DeviceState::Connected)
                && !active.contains(addr) ==> new == DeviceState::Connected
            &&& old == DeviceState::Discovered || old == DeviceState::Disconnected ==> new == old
        }),
        after_probe(known, active)[addr].name == known[addr].name,
        after_probe(known, active)[addr].icon == known[addr].icon,
{
    assert(after_probe(known, active).dom() =~= known.dom());
}

/// A connection and a disconnection are taken as they are reported, a removal forgets the
/// device, and none of them touches another device.
pub proof fn reports_are_taken_as_they_are(
    known: Map<Seq<char>, Known>,
    addr: String,
    other: Seq<char>,
)
    requires
        other != addr@,
    ensures
        ({
            let up = after_event(known, BluezEvent::Connected { addr });
            let down = after_event(known, BluezEvent::Disconnected { addr });
            let gone = after_event(known, BluezEvent::DeviceRemoved { addr });
            &&& up.contains_key(addr@) && up[addr@].state == DeviceState::Connected
            &&& down.contains_key(addr@) && down[addr@].state == DeviceState::Disconnected
            &&& !gone.contains_key(addr@)
            &&& up.contains_key(other) == known.contains_key(other)
            &&& down.contains_key(other) == known.contains_key(other)
            &&& gone.contains_key(other) == known.contains_key(other)
            &&& known.contains_key(other) ==> up[other] == known[other] && down[other]
                == known[other] && gone[other] == known[other]
        }),
{
}

/// A device that is announced is known by the name and icon that it is announced with; what
/// was known stays where the announcement says nothing.
pub proof fn announcements_bring_name_and_icon(
    known: Map<Seq<char>, Known>,
    addr: String,
    name: Option<String>,
    icon: Option<String>,
)
    ensures
        ({
            let after = after_event(known, BluezEvent::DeviceAdded { addr, name, icon });
            &&& name is Some ==> after[addr@].name == Some(name->0@)
            &&& icon is Some ==> after[addr@].icon == Some(icon->0@)
            &&& name is None && known.contains_key(addr@) ==> after[addr@].name == known[addr@].name
            &&& icon is None && known.contains_key(addr@) ==> after[addr@].icon == known[addr@].icon
            &&& name is None && !known.contains_key(addr@) ==> after[addr@].name is None
            &&& icon is None && !known.contains_key(addr@) ==> after[addr@].icon is None
        }),
{
}

/// Snapshots in the order of their addresses list every known device once, with what is
/// known of it, and no other device.
pub proof fn snapshots_list_the_known_devices(
    s: Seq<DeviceSnapshot>,
    i: int,
    j: int,
    addr: Seq<char>,
)
    requires
        in_order(s),
        0 <= i < s.len(),
    ensures
        known_of(s).contains_key(s[i].addr@),
        known_of(s)[s[i].addr@].state == s[i].state,
        known_of(s)[s[i].addr@].name == crate::text::opt_view(s[i].name),
        known_of(s)[s[i].addr@].icon == crate::text::opt_view(s[i].icon),
        known_of(s).contains_key(addr) ==> exists|k: int|
            0 <= k < s.len() && (#[trigger] s[k]).addr@ == addr,
        i < j < s.len() ==> before(s[i].addr@, s[j].addr@) && s[i].addr@ != s[j].addr@,
{
    lemma_known(s, i);
    if i < j < s.len() {
        assert(before(s[i].addr@, s[j].addr@));
        order_is_irreflexive(s[i].addr@);
    }
}

} // verus!
