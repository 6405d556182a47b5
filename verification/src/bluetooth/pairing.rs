//! The re-openable, auto-expiring pairing window.
//!
//! While it is open, the adapter is discoverable and pairable. The window says
//! what to do next; whoever runs it carries that out in order, ignoring failures,
//! and reports what happens then.
use vstd::prelude::*;

verus! {

/// Commands to the pairing window.
#[derive(Debug, Clone, Copy, PartialEq, Eq, Structural)]
pub enum PairingCommand {
    /// Open (or re-open and extend) the window for `duration` milliseconds.
    Open { duration: u64 },
    /// Close the window now.
    Close,
}

/// What happens to the window.
#[derive(Debug, Clone, Copy, PartialEq, Eq, Structural)]
pub enum WindowEvent {
    Command(PairingCommand),
    /// The armed duration has passed.
    Expired,
    /// No command will come any more.
    SenderGone,
    Shutdown,
}

/// What is to be done.
#[derive(Debug, Clone, Copy, PartialEq, Eq, Structural)]
pub enum WindowAction {
    SetDiscoverable(bool),
    SetPairable(bool),
    /// Tell the others whether the window is open.
    Publish(bool),
    /// (Re-)start the timer, in milliseconds.
    Arm(u64),
    /// Stop running the window.
    Finish,
}

/// The window.
#[derive(Debug, PartialEq, Eq)]
pub struct PairingWindow {
    open: bool,
}

impl View for PairingWindow {
    type V = bool;

    closed spec fn view(&self) -> bool {
        self.open
    }
}

/// What closes the window.
pub open spec fn closing() -> Seq<WindowAction> {
    seq![
        WindowAction::SetDiscoverable(false),
        WindowAction::SetPairable(false),
        WindowAction::Publish(false),
    ]
}

/// What an event makes to be done while the window is open or not. A closed window
/// opens only on a command. An open one closes when it expires, on a command, when
/// no command can come any more and on shutdown; a command to open re-asserts the
/// adapter's state and starts the timer anew.
pub open spec fn actions(open: bool, event: WindowEvent) -> Seq<WindowAction> {
    if open {
        match event {
            WindowEvent::Command(PairingCommand::Open { duration }) => seq![
                WindowAction::SetDiscoverable(true),
                WindowAction::SetPairable(true),
                WindowAction::Arm(duration),
            ],
            WindowEvent::Shutdown => closing().push(WindowAction::Finish),
            _ => closing(),
        }
    } else {
        match event {
            WindowEvent::Command(PairingCommand::Open { duration }) => seq![
                WindowAction::SetDiscoverable(true),
                WindowAction::SetPairable(true),
                WindowAction::Publish(true),
                WindowAction::Arm(duration),
            ],
            WindowEvent::Command(PairingCommand::Close) => Seq::empty(),
            WindowEvent::Expired => Seq::empty(),
            WindowEvent::SenderGone => seq![WindowAction::Finish],
            WindowEvent::Shutdown => seq![WindowAction::Finish],
        }
    }
}

/// Whether the window is open after an event.
pub open spec fn opened(event: WindowEvent) -> bool {
    event matches WindowEvent::Command(PairingCommand::Open { .. })
}

fn push_closing(out: &mut Vec<WindowAction>)
    ensures
        final(out)@ == old(out)@ + closing(),
{
    out.push(WindowAction::SetDiscoverable(false));
    out.push(WindowAction::SetPairable(false));
    out.push(WindowAction::Publish(false));
    assert(out@ =~= old(out)@ + closing());
}

impl PairingWindow {
    /// A closed window, and what makes the adapter match it.
    pub fn start() -> (r: (Self, Vec<WindowAction>))
        ensures
            !r.0@,
            r.1@ == closing(),
    {
        let mut out: Vec<WindowAction> = Vec::new();
        push_closing(&mut out);
        assert(out@ =~= closing());
        (PairingWindow { open: false }, out)
    }

    /// Whether the window is open.
    pub fn is_open(&self) -> (r: bool)
        ensures
            r == self@,
    {
        self.open
    }

    /// What an event makes to be done.
    pub fn on_event(&mut self, event: WindowEvent) -> (out: Vec<WindowAction>)
        ensures
            out@ == actions(old(self)@, event),
            final(self)@ == opened(event),
    {
        let mut out: Vec<WindowAction> = Vec::new();
        match event {
            WindowEvent::Command(PairingCommand::Open { duration }) => {
                out.push(WindowAction::SetDiscoverable(true));
                out.push(WindowAction::SetPairable(true));
                if !self.open {
                    out.push(WindowAction::Publish(true));
                }
                out.push(WindowAction::Arm(duration));
                self.open = true;
            },
            WindowEvent::Command(PairingCommand::Close) | WindowEvent::Expired => {
                if self.open {
                    push_closing(&mut out);
                }
                self.open = false;
            },
            WindowEvent::SenderGone => {
                if self.open {
                    push_closing(&mut out);
                } else {
                    out.push(WindowAction::Finish);
                }
                self.open = false;
            },
            WindowEvent::Shutdown => {
                if self.open {
                    push_closing(&mut out);
                }
                out.push(WindowAction::Finish);
                self.open = false;
            },
        }
        assert(out@ =~= actions(old(self)@, event));
        out
    }
}

/// What the adapter and the others see.
pub struct Visible {
    pub discoverable: bool,
    pub pairable: bool,
    pub published: bool,
}

/// What they see after these actions were carried out.
pub open spec fn seen(v: Visible, acts: Seq<WindowAction>) -> Visible
    decreases acts.len(),
{
    if acts.len() == 0 {
        v
    } else {
        let before = seen(v, acts.drop_last());
        match acts.last() {
            WindowAction::SetDiscoverable(on) => Visible { discoverable: on, ..before },
            WindowAction::SetPairable(on) => Visible { pairable: on, ..before },
            WindowAction::Publish(on) => Visible { published: on, ..before },
            _ => before,
        }
    }
}

/// Whether they see the window as it is.
pub open spec fn matches_window(v: Visible, open: bool) -> bool {
    v.discoverable == open && v.pairable == open && v.published == open
}

/// Whatever the adapter was before, it is neither discoverable nor pairable once
/// the window has started.
pub proof fn starting_closes_the_adapter(v: Visible)
    ensures
        matches_window(seen(v, closing()), false),
{
    reveal_with_fuel(seen, 4);
    let c = closing();
    assert(c.drop_last() =~= seq![WindowAction::SetDiscoverable(false), WindowAction::SetPairable(false)]);
    assert(c.drop_last().drop_last() =~= seq![WindowAction::SetDiscoverable(false)]);
    assert(c.drop_last().drop_last().drop_last() =~= Seq::empty());
}

/// The adapter is discoverable and pairable exactly while the window is open: it
/// can never be left open behind a closed window.
#[verifier::rlimit(30)]
pub proof fn the_adapter_follows_the_window(v: Visible, open: bool, event: WindowEvent)
    requires
        matches_window(v, open),
    ensures
        matches_window(seen(v, actions(open, event)), opened(event)),
{
    reveal_with_fuel(seen, 6);
    let a = actions(open, event);
    if a.len() > 0 {
        let b = a.drop_last();
        if b.len() > 0 {
            let c = b.drop_last();
            if c.len() > 0 {
                let d = c.drop_last();
                if d.len() > 0 {
                    assert(d.drop_last() =~= Seq::empty());
                }
            }
        }
    }
}

/// A window that does not finish can be opened again at any time.
pub proof fn the_window_can_be_reopened(open: bool, duration: u64)
    ensures
        opened(WindowEvent::Command(PairingCommand::Open { duration })),
        actions(open, WindowEvent::Command(PairingCommand::Open { duration })).last()
            == WindowAction::Arm(duration),
{
}

/// The timer is started by commands to open and by nothing else, with the duration that
/// they ask for; the others are told exactly where the window opens or closes; and the
/// window finishes on shutdown, or where no command can come and it is closed.
pub proof fn windows_do_what_they_are_told(open: bool, event: WindowEvent, duration: u64)
    ensures
        actions(open, event).contains(WindowAction::Arm(duration)) <==> event
            == WindowEvent::Command(PairingCommand::Open { duration }),
        actions(open, event).contains(WindowAction::Publish(true)) <==> !open && event matches
            WindowEvent::Command(PairingCommand::Open { .. }),
        actions(open, event).contains(WindowAction::Publish(false)) <==> open && !(event matches
            WindowEvent::Command(PairingCommand::Open { .. })),
        actions(open, event).contains(WindowAction::Finish) <==> event == WindowEvent::Shutdown || (
        event == WindowEvent::SenderGone && !open),
        opened(event) <==> event matches WindowEvent::Command(PairingCommand::Open { .. }),
{
    let a = actions(open, event);
    if event is Command {
        if let WindowEvent::Command(PairingCommand::Open { duration: d }) = event {
            if open {
                assert(a[2] == WindowAction::Arm(d));
            } else {
                assert(a[2] == WindowAction::Publish(true));
                assert(a[3] == WindowAction::Arm(d));
            }
        } else if open {
            assert(a[2] == WindowAction::Publish(false));
        }
    } else if open {
        assert(a[2] == WindowAction::Publish(false));
        if event == WindowEvent::Shutdown {
            assert(a[3] == WindowAction::Finish);
        }
    } else if event != WindowEvent::Expired {
        assert(a[0] == WindowAction::Finish);
    }
}

} // verus!
