//! The pairing gate: a pairing request is accepted only while the pairing window
//! is open.
use vstd::prelude::*;

verus! {

/// `tokio::sync::watch::Receiver`, the reading end of a channel that holds one
/// value.
#[verifier::external_type_specification]
#[verifier::external_body]
#[verifier::reject_recursive_types(T)]
pub struct ExReceiver<T>(tokio::sync::watch::Receiver<T>);

/// `tokio::sync::watch::Receiver::borrow`: the value that the channel holds now.
/// Nothing is stated of it: the writing end may change it at any time.
#[verifier::external_body]
fn window_state(open: &tokio::sync::watch::Receiver<bool>) -> (state: bool) {
    *open.borrow()
}

/// Whether a request is accepted, by the state of the window.
pub fn accepts(window_open: bool) -> (r: bool)
    ensures
        r == window_open,
{
    window_open
}

/// Consults the state of the pairing window to decide on incoming requests.
pub struct PairingGate {
    open: tokio::sync::watch::Receiver<bool>,
}

impl PairingGate {
    /// The channel that is consulted.
    pub closed spec fn channel(self) -> tokio::sync::watch::Receiver<bool> {
        self.open
    }

    /// Whether `state` is an outcome of reading the channel.
    pub closed spec fn read_as(self, state: bool) -> bool {
        call_ensures(window_state, (&self.open,), state)
    }

    /// Build a gate over the state of the pairing window.
    pub fn new(open: tokio::sync::watch::Receiver<bool>) -> (g: Self)
        ensures
            g.channel() == open,
    {
        PairingGate { open }
    }

    /// Whether the pairing window is open now: the only condition under which an
    /// incoming request is accepted. The answer is the outcome of reading the channel,
    /// as it is. What the channel holds at the time of the call decides; it may differ
    /// from one call to the next, so no clause says which value that is.
    #[must_use]
    pub fn authorized(&self) -> (r: bool)
        ensures
            self.read_as(r),
    {
        accepts(window_state(&self.open))
    }
}

} // verus!
