//! The seam through which the adapter's visibility is set.
use vstd::prelude::*;
use crate::bluetooth::pairing::WindowAction;

verus! {

/// One setting of the adapter that was asked for.
pub enum AdapterSetting {
    Discoverable(bool),
    Pairable(bool),
}

/// Adapter operations that the Bluetooth logic needs. `settings` is the history of
/// what was asked for, oldest first.
pub trait BluetoothControl {
    spec fn settings(&self) -> Seq<AdapterSetting>;

    /// Make the adapter discoverable (visible to other devices) or not.
    fn set_discoverable(&mut self, on: bool) -> (r: Result<(), String>)
        ensures
            final(self).settings() == old(self).settings().push(AdapterSetting::Discoverable(on)),
    ;

    /// Make the adapter pairable or not.
    fn set_pairable(&mut self, on: bool) -> (r: Result<(), String>)
        ensures
            final(self).settings() == old(self).settings().push(AdapterSetting::Pairable(on)),
    ;
}

/// Sets the adapter's visibility by two functions.
pub struct FnControl<D: Fn(bool) -> Result<(), String>, P: Fn(bool) -> Result<(), String>> {
    discoverable: D,
    pairable: P,
    history: Ghost<Seq<AdapterSetting>>,
}

impl<D: Fn(bool) -> Result<(), String>, P: Fn(bool) -> Result<(), String>> FnControl<D, P> {
    #[verifier::type_invariant]
    spec fn total(self) -> bool {
        &&& forall|on: bool| call_requires(self.discoverable, (on,))
        &&& forall|on: bool| call_requires(self.pairable, (on,))
    }

    /// A control that has not been asked for anything yet.
    pub fn new(discoverable: D, pairable: P) -> (r: Self)
        requires
            forall|on: bool| call_requires(discoverable, (on,)),
            forall|on: bool| call_requires(pairable, (on,)),
        ensures
            r.settings() == Seq::<AdapterSetting>::empty(),
    {
        FnControl { discoverable, pairable, history: Ghost(Seq::empty()) }
    }
}

impl<D: Fn(bool) -> Result<(), String>, P: Fn(bool) -> Result<(), String>> BluetoothControl for FnControl<
    D,
    P,
> {
    closed spec fn settings(&self) -> Seq<AdapterSetting> {
        self.history@
    }

    fn set_discoverable(&mut self, on: bool) -> (r: Result<(), String>) {
        proof {
            use_type_invariant(&*self);
        }
        let r = (self.discoverable)(on);
        self.history = Ghost(self.history@.push(AdapterSetting::Discoverable(on)));
        r
    }

    fn set_pairable(&mut self, on: bool) -> (r: Result<(), String>) {
        proof {
            use_type_invariant(&*self);
        }
        let r = (self.pairable)(on);
        self.history = Ghost(self.history@.push(AdapterSetting::Pairable(on)));
        r
    }
}

/// What an action asks of the adapter.
pub open spec fn setting_of(a: WindowAction) -> Option<AdapterSetting> {
    match a {
        WindowAction::SetDiscoverable(on) => Some(AdapterSetting::Discoverable(on)),
        WindowAction::SetPairable(on) => Some(AdapterSetting::Pairable(on)),
        _ => None,
    }
}

/// What actions ask of the adapter, in their order.
pub open spec fn settings_of(actions: Seq<WindowAction>) -> Seq<AdapterSetting>
    decreases actions.len(),
{
    if actions.len() == 0 {
        Seq::empty()
    } else {
        let head = settings_of(actions.drop_last());
        match setting_of(actions.last()) {
            Some(s) => head.push(s),
            None => head,
        }
    }
}

/// Carry out what an action asks of the adapter. A failure is passed over: the next
/// assertion of the window's state makes up for it.
pub fn carry_out<C: BluetoothControl>(control: &mut C, action: WindowAction)
    ensures
        final(control).settings() == (match setting_of(action) {
            Some(s) => old(control).settings().push(s),
            None => old(control).settings(),
        }),
{
    match action {
        WindowAction::SetDiscoverable(on) => {
            let _ = control.set_discoverable(on);
        },
        WindowAction::SetPairable(on) => {
            let _ = control.set_pairable(on);
        },
        _ => {},
    }
}

/// Carry out what actions ask of the adapter, in their order.
pub fn carry_out_all<C: BluetoothControl>(control: &mut C, actions: &[WindowAction])
    ensures
        final(control).settings() == old(control).settings() + settings_of(actions@),
{
    let ghost start = control.settings();
    let mut i: usize = 0;
    assert(start =~= start + settings_of(actions@.take(0)));
    while i < actions.len()
        invariant
            i <= actions@.len(),
            control.settings() == start + settings_of(actions@.take(i as int)),
        decreases actions@.len() - i,
    {
        assert(actions@.take(i + 1).drop_last() =~= actions@.take(i as int));
        carry_out(control, actions[i]);
        assert(control.settings() =~= start + settings_of(actions@.take(i + 1)));
        i = i + 1;
    }
    assert(actions@.take(actions@.len() as int) =~= actions@);
}

/// What one action after another asks of the adapter is what all of them ask; only the two
/// settings of the adapter ask for anything.
pub proof fn settings_follow_the_actions(a: Seq<WindowAction>, b: Seq<WindowAction>, on: bool)
    ensures
        settings_of(a + b) == settings_of(a) + settings_of(b),
        settings_of(seq![WindowAction::SetDiscoverable(on)]) == seq![AdapterSetting::Discoverable(on)],
        settings_of(seq![WindowAction::SetPairable(on)]) == seq![AdapterSetting::Pairable(on)],
        settings_of(seq![WindowAction::Publish(on)]).len() == 0,
        settings_of(seq![WindowAction::Finish]).len() == 0,
        settings_of(Seq::empty()).len() == 0,
    decreases b.len(),
{
    reveal_with_fuel(settings_of, 2);
    assert(seq![WindowAction::SetDiscoverable(on)].drop_last() =~= Seq::empty());
    assert(seq![WindowAction::SetPairable(on)].drop_last() =~= Seq::empty());
    assert(seq![WindowAction::Publish(on)].drop_last() =~= Seq::empty());
    assert(seq![WindowAction::Finish].drop_last() =~= Seq::empty());
    assert(settings_of(seq![WindowAction::SetDiscoverable(on)]) =~= seq![
        AdapterSetting::Discoverable(on),
    ]);
    assert(settings_of(seq![WindowAction::SetPairable(on)]) =~= seq![AdapterSetting::Pairable(on)]);
    if b.len() > 0 {
        settings_follow_the_actions(a, b.drop_last(), on);
        assert((a + b).drop_last() =~= a + b.drop_last());
        assert((a + b).last() == b.last());
        assert(settings_of(a + b) =~= settings_of(a) + settings_of(b));
    } else {
        assert(a + b =~= a);
        assert(settings_of(a) + settings_of(b) =~= settings_of(a));
    }
}

} // verus!
