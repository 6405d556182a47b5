//! BlueZ device events, and which of them a watched adapter gives rise to.
//!
//! An A2DP sink is passive: it never inquires. Devices that are paired or
//! connected are announced at start; every other one is watched and announced
//! when it connects.
use vstd::prelude::*;
use crate::text::{clone_opt, same, views};

verus! {

/// A BlueZ device lifecycle event observed on the adapter.
#[derive(Debug, PartialEq, Eq)]
pub enum BluezEvent {
    /// A device appeared (address; name + BlueZ icon if known).
    DeviceAdded { addr: String, name: Option<String>, icon: Option<String> },
    /// A device was removed from the adapter.
    DeviceRemoved { addr: String },
    /// BlueZ reports the device connected.
    Connected { addr: String },
    /// BlueZ reports the device disconnected.
    Disconnected { addr: String },
}

impl Clone for BluezEvent {
    fn clone(&self) -> (r: Self)
        ensures
            r == *self,
    {
        match self {
            BluezEvent::DeviceAdded { addr, name, icon } => BluezEvent::DeviceAdded {
                addr: addr.clone(),
                name: clone_opt(name),
                icon: clone_opt(icon),
            },
            BluezEvent::DeviceRemoved { addr } => BluezEvent::DeviceRemoved { addr: addr.clone() },
            BluezEvent::Connected { addr } => BluezEvent::Connected { addr: addr.clone() },
            BluezEvent::Disconnected { addr } => BluezEvent::Disconnected { addr: addr.clone() },
        }
    }
}

/// What BlueZ knows of a device.
#[derive(Debug, PartialEq, Eq)]
pub struct DeviceFacts {
    pub addr: String,
    pub paired: bool,
    pub connected: bool,
    pub name: Option<String>,
    pub icon: Option<String>,
}

impl DeviceFacts {
    /// The announcement of the device.
    pub open spec fn announcement(self) -> BluezEvent {
        BluezEvent::DeviceAdded { addr: self.addr, name: self.name, icon: self.icon }
    }

    /// The events of a device that is paired or connected: its announcement, and
    /// its connection where it has one.
    pub open spec fn events(self) -> Seq<BluezEvent> {
        if self.connected {
            seq![self.announcement(), BluezEvent::Connected { addr: self.addr }]
        } else if self.paired {
            seq![self.announcement()]
        } else {
            Seq::empty()
        }
    }
}

/// The events that facts about a device give rise to: none for one that is
/// neither paired nor connected.
pub fn events_of(facts: &DeviceFacts) -> (out: Vec<BluezEvent>)
    ensures
        out@ == facts.events(),
{
    let mut out: Vec<BluezEvent> = Vec::new();
    if facts.paired || facts.connected {
        out.push(
            BluezEvent::DeviceAdded {
                addr: facts.addr.clone(),
                name: clone_opt(&facts.name),
                icon: clone_opt(&facts.icon),
            },
        );
        if facts.connected {
            out.push(BluezEvent::Connected { addr: facts.addr.clone() });
        }
    }
    assert(out@ =~= facts.events());
    out
}

/// The events of a change of a device's connection. A device that connects is
/// announced once more: its name may be known only now.
pub fn connection_changed(
    addr: &String,
    connected: bool,
    name: Option<String>,
    icon: Option<String>,
) -> (out: Vec<BluezEvent>)
    ensures
        out@ == (if connected {
            seq![
                (BluezEvent::DeviceAdded { addr: *addr, name, icon }),
                (BluezEvent::Connected { addr: *addr }),
            ]
        } else {
            seq![(BluezEvent::Disconnected { addr: *addr })]
        }),
{
    let mut out: Vec<BluezEvent> = Vec::new();
    if connected {
        out.push(BluezEvent::DeviceAdded { addr: addr.clone(), name, icon });
        out.push(BluezEvent::Connected { addr: addr.clone() });
    } else {
        out.push(BluezEvent::Disconnected { addr: addr.clone() });
    }
    out
}

/// Whether the devices of an adapter are being watched at all.
pub struct Watching {
    on: bool,
}

impl View for Watching {
    type V = bool;

    closed spec fn view(&self) -> bool {
        self.on
    }
}

impl Watching {
    /// Nothing is watched yet.
    pub fn new() -> (w: Self)
        ensures
            !w@,
    {
        Watching { on: false }
    }

    /// Watching is to start; says whether it is to begin now. While it goes on, another
    /// start changes nothing.
    pub fn start(&mut self) -> (begin: bool)
        ensures
            begin == !old(self)@,
            final(self)@,
    {
        let begin = !self.on;
        self.on = true;
        begin
    }

    /// Watching is to stop; says whether it is to end now. Where nothing is watched,
    /// a stop changes nothing.
    pub fn stop(&mut self) -> (end: bool)
        ensures
            end == old(self)@,
            !final(self)@,
    {
        let end = self.on;
        self.on = false;
        end
    }
}

/// Which devices of an adapter are watched for changes of their connection.
pub struct Watched {
    addrs: Vec<String>,
}

impl View for Watched {
    type V = Set<Seq<char>>;

    closed spec fn view(&self) -> Set<Seq<char>> {
        views(self.addrs@).to_set()
    }
}

impl Watched {
    /// No device is watched yet.
    pub fn new() -> (w: Self)
        ensures
            w@ == Set::<Seq<char>>::empty(),
    {
        let w = Watched { addrs: Vec::new() };
        assert(w@ =~= Set::empty());
        w
    }

    /// Watch a device; whether it was not watched before.
    fn watch(&mut self, addr: &String) -> (fresh: bool)
        ensures
            fresh == !old(self)@.contains(addr@),
            final(self)@ == old(self)@.insert(addr@),
    {
        let ghost before = views(self.addrs@);
        let mut i: usize = 0;
        while i < self.addrs.len()
            invariant
                i <= self.addrs@.len(),
                before == views(self.addrs@),
                self@ == before.to_set(),
                self@ == old(self)@,
                forall|k: int| 0 <= k < i ==> before[k] != addr@,
            decreases self.addrs@.len() - i,
        {
            if same(self.addrs[i].as_str(), addr.as_str()) {
                proof {
                    assert(before[i as int] == addr@);
                    assert(before.to_set().contains(addr@));
                    assert(self@ =~= self@.insert(addr@));
                }
                return false;
            }
            i = i + 1;
        }
        self.addrs.push(addr.clone());
        proof {
            let now = views(self.addrs@);
            assert(now =~= before.push(addr@));
            assert forall|x: Seq<char>| now.to_set().contains(x) == before.to_set().insert(
                addr@,
            ).contains(x) by {
                if before.contains(x) {
                    let k = choose|k: int| 0 <= k < before.len() && before[k] == x;
                    assert(now[k] == x);
                }
                if x == addr@ {
                    assert(now[before.len() as int] == x);
                }
            }
            assert(self@ =~= old(self)@.insert(addr@));
        }
        true
    }

    /// A device that BlueZ knew when the watching began: only one that is paired
    /// or connected is announced and watched.
    pub fn seeded(&mut self, facts: &DeviceFacts) -> (r: (bool, Vec<BluezEvent>))
        ensures
            r.1@ == facts.events(),
            r.0 == ((facts.paired || facts.connected) && !old(self)@.contains(facts.addr@)),
            final(self)@ == (if facts.paired || facts.connected {
                old(self)@.insert(facts.addr@)
            } else {
                old(self)@
            }),
    {
        let events = events_of(facts);
        let watch = if facts.paired || facts.connected {
            self.watch(&facts.addr)
        } else {
            false
        };
        (watch, events)
    }

    /// A device that the adapter added later: it is watched in any case, so that
    /// the connection of a phone that is only now being paired is seen.
    pub fn added(&mut self, facts: &DeviceFacts) -> (r: (bool, Vec<BluezEvent>))
        ensures
            r.1@ == facts.events(),
            r.0 == !old(self)@.contains(facts.addr@),
            final(self)@ == old(self)@.insert(facts.addr@),
    {
        let watch = self.watch(&facts.addr);
        (watch, events_of(facts))
    }
}

/// A device that is neither paired nor connected is passed over; any other one is announced
/// under its address, with its name and icon, and one that is connected is then reported as
/// connected.
pub proof fn known_devices_are_announced(facts: DeviceFacts)
    ensures
        facts.events().len() == (if facts.connected {
            2int
        } else if facts.paired {
            1
        } else {
            0
        }),
        facts.connected || facts.paired ==> (facts.events()[0] matches BluezEvent::DeviceAdded {
            addr,
            name,
            icon,
        } && addr == facts.addr && name == facts.name && icon == facts.icon),
        facts.connected ==> facts.events()[1] == (BluezEvent::Connected { addr: facts.addr }),
{
}

} // verus!
