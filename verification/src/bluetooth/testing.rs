//! A stand-in for the adapter, for tests.
use vstd::prelude::*;
use crate::bluetooth::control::{AdapterSetting, BluetoothControl};

verus! {

/// Records every `set_discoverable` and `set_pairable` call.
#[derive(Debug)]
pub struct FakeBluetoothControl {
    calls: Vec<(&'static str, bool)>,
}

/// What a recorded call asked for.
pub open spec fn recorded(call: (&str, bool)) -> AdapterSetting {
    if call.0@ == "discoverable"@ {
        AdapterSetting::Discoverable(call.1)
    } else {
        AdapterSetting::Pairable(call.1)
    }
}

impl FakeBluetoothControl {
    pub fn new() -> (c: Self)
        ensures
            c.settings() == Seq::<AdapterSetting>::empty(),
    {
        let c = FakeBluetoothControl { calls: Vec::new() };
        assert(c.settings() =~= Seq::empty());
        c
    }

    /// All recorded calls, in order.
    pub fn calls(&self) -> (out: Vec<(&'static str, bool)>)
        ensures
            out@.map_values(|call: (&'static str, bool)| recorded(call)) == self.settings(),
    {
        let mut out: Vec<(&'static str, bool)> = Vec::new();
        let mut i: usize = 0;
        while i < self.calls.len()
            invariant
                i <= self.calls@.len(),
                out@ =~= self.calls@.take(i as int),
            decreases self.calls@.len() - i,
        {
            out.push(self.calls[i]);
            i = i + 1;
        }
        assert(out@ =~= self.calls@);
        out
    }
}

impl BluetoothControl for FakeBluetoothControl {
    closed spec fn settings(&self) -> Seq<AdapterSetting> {
        self.calls@.map_values(|call: (&'static str, bool)| recorded(call))
    }

    fn set_discoverable(&mut self, on: bool) -> (r: Result<(), String>)
        ensures
            r is Ok,
    {
        self.calls.push(("discoverable", on));
        assert(self.settings() =~= old(self).settings().push(AdapterSetting::Discoverable(on)));
        Ok(())
    }

    fn set_pairable(&mut self, on: bool) -> (r: Result<(), String>)
        ensures
            r is Ok,
    {
        proof {
            reveal_strlit("discoverable");
            reveal_strlit("pairable");
        }
        assert("pairable"@.len() != "discoverable"@.len());
        self.calls.push(("pairable", on));
        assert(self.settings() =~= old(self).settings().push(AdapterSetting::Pairable(on)));
        Ok(())
    }
}

} // verus!
