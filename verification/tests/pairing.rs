use soundsync::bluetooth::control::{carry_out_all, BluetoothControl};
use soundsync::bluetooth::pairing::{PairingCommand, PairingWindow, WindowAction, WindowEvent};
use soundsync::bluetooth::testing::FakeBluetoothControl;

fn count(calls: &[(&'static str, bool)], op: &str, on: bool) -> usize {
    calls.iter().filter(|(o, v)| *o == op && *v == on).count()
}

const OPEN: WindowEvent = WindowEvent::Command(PairingCommand::Open { duration: 300_000 });

fn run(events: &[WindowEvent]) -> (FakeBluetoothControl, Vec<WindowAction>, bool) {
    let mut control = FakeBluetoothControl::new();
    let (mut window, mut all) = PairingWindow::start();
    carry_out_all(&mut control, &all);
    for e in events {
        let actions = window.on_event(*e);
        carry_out_all(&mut control, &actions);
        all.extend(actions);
    }
    (control, all, window.is_open())
}

#[test]
fn fake_records_calls() {
    let mut c = FakeBluetoothControl::new();
    c.set_discoverable(true).unwrap();
    c.set_pairable(false).unwrap();
    assert_eq!(c.calls(), vec![("discoverable", true), ("pairable", false)]);
}

#[test]
fn open_then_auto_close_after_duration() {
    let (control, actions, open) = run(&[OPEN, WindowEvent::Expired, WindowEvent::Shutdown]);
    let calls = control.calls();
    assert_eq!(count(&calls, "discoverable", true), 1);
    assert_eq!(count(&calls, "discoverable", false), 2);
    assert!(!open);
    assert!(actions.contains(&WindowAction::Arm(300_000)));
    assert_eq!(actions.last(), Some(&WindowAction::Finish));
}

#[test]
fn explicit_close_command_closes_the_window() {
    let close = WindowEvent::Command(PairingCommand::Close);
    let (control, _, open) = run(&[OPEN, close, close, WindowEvent::Shutdown]);
    let calls = control.calls();
    assert_eq!(count(&calls, "discoverable", true), 1);
    assert!(count(&calls, "discoverable", false) >= 2);
    assert!(!open);
}

#[test]
fn reopen_extends_the_window() {
    let (control, actions, open) = run(&[OPEN, OPEN]);
    assert_eq!(count(&control.calls(), "discoverable", false), 1);
    assert_eq!(count(&control.calls(), "pairable", true), 2);
    assert!(open);
    assert_eq!(actions.iter().filter(|a| matches!(a, WindowAction::Arm(_))).count(), 2);
}

#[test]
fn shutdown_closes_cleanly() {
    let (control, actions, open) = run(&[OPEN, WindowEvent::Shutdown]);
    assert!(!open);
    assert!(count(&control.calls(), "discoverable", false) >= 1);
    let n = actions.len();
    assert_eq!(actions[n - 2..], [WindowAction::Publish(false), WindowAction::Finish]);
}
