use soundsync::output::loopback::{build_loopback_args, parse_loopback_module_id, CAPTURE_MONITOR};

#[test]
fn build_loopback_args_exact_argv() {
    let sink = "alsa_output.usb-FiiO_BTR3-00.analog-stereo";
    let args = build_loopback_args(sink);
    assert_eq!(
        args,
        vec![
            "load-module".to_string(),
            "module-loopback".to_string(),
            "source=soundsync-capture.monitor".to_string(),
            format!("sink={sink}"),
            "sink_dont_move=true".to_string(),
            "source_dont_move=true".to_string(),
        ]
    );
}

#[test]
fn build_loopback_args_source_is_capture_monitor() {
    let args = build_loopback_args("any-sink");
    assert_eq!(args[2], format!("source={CAPTURE_MONITOR}"));
}

#[test]
fn parse_loopback_module_id_bare_number() {
    assert_eq!(parse_loopback_module_id("536870913\n"), Some(536870913));
}

#[test]
fn parse_loopback_module_id_no_trailing_newline() {
    assert_eq!(parse_loopback_module_id("42"), Some(42));
}

#[test]
fn parse_loopback_module_id_with_whitespace() {
    assert_eq!(parse_loopback_module_id("  100\n"), Some(100));
}

#[test]
fn parse_loopback_module_id_garbage_returns_none() {
    assert_eq!(parse_loopback_module_id("failure"), None);
    assert_eq!(parse_loopback_module_id(""), None);
    assert_eq!(parse_loopback_module_id("Module #3"), None);
}

#[test]
fn parse_loopback_module_id_negative_returns_none() {
    assert_eq!(parse_loopback_module_id("-1"), None);
}

#[test]
fn parse_loopback_module_id_overflow_returns_none() {
    assert_eq!(parse_loopback_module_id("4294967296"), None);
}
