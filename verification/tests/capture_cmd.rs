use soundsync::audio::pw::capture_cmd::{build_capture_command, CaptureSource, CaptureTool};

#[test]
fn parec_targets_monitor_with_derived_latency() {
    let cmd = build_capture_command(
        CaptureTool::Parec,
        &CaptureSource::NullSinkMonitor("soundsync-capture".into()),
        50,
    );
    assert_eq!(cmd.program, "parec");
    assert!(cmd.args.contains(&"--raw".to_string()));
    assert!(cmd
        .args
        .contains(&"--device=soundsync-capture.monitor".to_string()));
    assert!(cmd.args.contains(&"--latency-msec=50".to_string()));
    assert!(cmd.args.contains(&"--format=float32".to_string()));
    assert!(cmd.args.contains(&"--channels=2".to_string()));
    assert!(cmd.args.contains(&"--rate=48000".to_string()));
}

#[test]
fn parec_default_uses_default_monitor() {
    let cmd = build_capture_command(CaptureTool::Parec, &CaptureSource::Default, 50);
    assert!(cmd.args.contains(&"--device=@DEFAULT_MONITOR@".to_string()));
}

#[test]
fn parec_bluetooth_direct_uses_raw_name() {
    let cmd = build_capture_command(
        CaptureTool::Parec,
        &CaptureSource::BluetoothDirect("bluez_input.AA_BB".into()),
        86,
    );
    assert!(cmd.args.contains(&"--device=bluez_input.AA_BB".to_string()));
    assert!(cmd.args.contains(&"--latency-msec=86".to_string()));
}

#[test]
fn pwcat_targets_node_name_no_latency_flag() {
    let cmd = build_capture_command(
        CaptureTool::PwCat,
        &CaptureSource::NullSinkMonitor("soundsync-capture".into()),
        50,
    );
    assert_eq!(cmd.program, "pw-cat");
    assert!(cmd.args.contains(&"-r".to_string()));
    let i = cmd.args.iter().position(|a| a == "--target").unwrap();
    assert_eq!(cmd.args[i + 1], "soundsync-capture");
    assert_eq!(cmd.args.last().unwrap(), "-");
    assert!(!cmd.args.iter().any(|a| a.contains("latency")));
}

#[test]
fn pwcat_default_has_no_target() {
    let cmd = build_capture_command(CaptureTool::PwCat, &CaptureSource::Default, 50);
    assert!(!cmd.args.iter().any(|a| a == "--target"));
    assert_eq!(cmd.args.last().unwrap(), "-");
}

#[test]
fn capture_arguments_are_in_order() {
    let cmd = build_capture_command(
        CaptureTool::PwCat,
        &CaptureSource::BluetoothDirect("bluez_input.AA_BB".into()),
        50,
    );
    assert_eq!(
        cmd.args,
        vec![
            "--format", "f32", "--channels", "2", "--rate", "48000", "-r", "--target",
            "bluez_input.AA_BB", "-",
        ]
    );
}
