use soundsync::bluetooth::agent::{accepts, PairingGate};
use tokio::sync::watch;

#[test]
fn rejects_when_window_closed() {
    let (_tx, rx) = watch::channel(false);
    let gate = PairingGate::new(rx);
    assert!(!gate.authorized());
}

#[test]
fn accepts_when_window_open() {
    let (_tx, rx) = watch::channel(true);
    let gate = PairingGate::new(rx);
    assert!(gate.authorized());
}

#[test]
fn reflects_window_state_changes() {
    let (tx, rx) = watch::channel(false);
    let gate = PairingGate::new(rx);
    assert!(!gate.authorized());
    tx.send(true).unwrap();
    assert!(gate.authorized());
    tx.send(false).unwrap();
    assert!(!gate.authorized());
}

#[test]
fn pairing_is_accepted_only_in_an_open_window() {
    assert!(accepts(true));
    assert!(!accepts(false));
}
