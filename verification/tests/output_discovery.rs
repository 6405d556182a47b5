use soundsync::output::discovery::{
    dedup_by, parse_chromecasts, parse_module_id_by_name, parse_raop_sinks, parse_soundcard_sinks,
    probe_outputs,
};
use soundsync::output::{OutputDevice, OutputKind};
use soundsync::sys::command::CommandOutput;
use soundsync::sys::testing::FakeCommandRunner;

const CHROMECAST_SAMPLE: &str = "=;wlp2s0;IPv6;Chromecast-HD-d122;_googlecast._tcp;local;\
         d122.local;fe80::1;8009;\
         \"rs=\" \"fn=Guest TV\" \"md=Chromecast HD\" \"id=d122a7025b65\" \"ve=05\"";

const PACTL_SAMPLE: &str = "\
0\talsa_output.usb-FiiO_BTR3-00.analog-stereo\tmodule-alsa-card\ts32le 2ch 44100Hz\tSUSPENDED
1\talsa_output.pci-0000_00_1f.3.analog-stereo\tmodule-alsa-card\ts16le 2ch 48000Hz\tSUSPENDED
2\tsoundsync-capture\tmodule-null-sink\ts16le 2ch 48000Hz\tIDLE
3\tsoundsync-effect_eq\tmodule-null-sink\ts16le 2ch 48000Hz\tIDLE
4\tsoundsync-capture.monitor\tmodule-null-sink\ts16le 2ch 48000Hz\tIDLE
";

const RAOP_PACTL_SAMPLE: &str = "\
0\talsa_output.usb-FiiO_BTR3-00.analog-stereo\tmodule-alsa-card\ts32le 2ch 44100Hz\tSUSPENDED
1\tsoundsync-capture\tmodule-null-sink\ts16le 2ch 48000Hz\tIDLE
2\traop_sink.HP-L.local.192.168.1.107.7000\tmodule-raop-sink\ts16le 2ch 44100Hz\tSUSPENDED
3\traop_sink.Lounge.local.192.168.1.232.7000\tmodule-raop-sink\ts16le 2ch 44100Hz\tSUSPENDED
4\traop_sink.Gym.local.192.168.1.115.7000\tmodule-raop-sink\ts16le 2ch 44100Hz\tSUSPENDED
5\traop_sink.Bose-cba4425d-abcd.local.192.168.1.150.7000\tmodule-raop-sink\ts16le 2ch 44100Hz\tSUSPENDED
";

#[test]
fn parse_chromecasts_extracts_fn_and_id() {
    let devices = parse_chromecasts(CHROMECAST_SAMPLE);
    assert_eq!(devices.len(), 1);
    let d = &devices[0];
    assert_eq!(d.kind, OutputKind::Chromecast);
    assert_eq!(d.name, "Guest TV");
    assert_eq!(d.id, "d122a7025b65");
    assert_eq!(d.addr.as_deref(), Some("fe80::1"));
    assert_eq!(d.port, Some(8009));
}

#[test]
fn parse_chromecasts_skips_non_equal_lines() {
    let input = "+;eth0;IPv4;SomeCast;_googlecast._tcp;local\n\
                     =;eth0;IPv4;Cast2;_googlecast._tcp;local;cast2.local;10.0.0.1;8009;\
                     \"fn=Living Room\" \"id=aabbcc\"";
    let devices = parse_chromecasts(input);
    assert_eq!(devices.len(), 1);
    assert_eq!(devices[0].name, "Living Room");
}

#[test]
fn parse_chromecasts_skips_line_missing_fn() {
    let line = "=;eth0;IPv4;Cast;_googlecast._tcp;local;host.local;1.2.3.4;8009;\
                    \"id=abc123\" \"md=Chromecast\"";
    assert_eq!(parse_chromecasts(line).len(), 0);
}

#[test]
fn parse_chromecasts_skips_line_missing_id() {
    let line = "=;eth0;IPv4;Cast;_googlecast._tcp;local;host.local;1.2.3.4;8009;\
                    \"fn=My Cast\" \"md=Chromecast\"";
    assert_eq!(parse_chromecasts(line).len(), 0);
}

#[test]
fn parse_chromecasts_garbage_input_returns_empty() {
    assert_eq!(parse_chromecasts("not;enough;fields").len(), 0);
    assert_eq!(parse_chromecasts("").len(), 0);
    assert_eq!(parse_chromecasts("garbage line here").len(), 0);
}

#[test]
fn parse_chromecasts_invalid_port_skipped() {
    let line =
        "=;eth0;IPv4;Cast;_googlecast._tcp;local;host.local;1.2.3.4;notaport;\"fn=TV\" \"id=abc\"";
    assert_eq!(parse_chromecasts(line).len(), 0);
}

#[test]
fn parse_chromecasts_multiple_devices() {
    let input = format!(
        "{CHROMECAST_SAMPLE}\n\
             =;eth0;IPv4;Cast2;_googlecast._tcp;local;c2.local;10.0.0.2;8009;\
             \"fn=Kitchen\" \"id=kitchen123\""
    );
    let devices = parse_chromecasts(&input);
    assert_eq!(devices.len(), 2);
    let names: Vec<_> = devices.iter().map(|d| d.name.as_str()).collect();
    assert!(names.contains(&"Guest TV"));
    assert!(names.contains(&"Kitchen"));
}

#[test]
fn parse_soundcard_sinks_returns_hardware_sinks() {
    let devices = parse_soundcard_sinks(PACTL_SAMPLE);
    assert_eq!(devices.len(), 2);
    let names: Vec<_> = devices.iter().map(|d| d.id.as_str()).collect();
    assert!(names.contains(&"alsa_output.usb-FiiO_BTR3-00.analog-stereo"));
    assert!(names.contains(&"alsa_output.pci-0000_00_1f.3.analog-stereo"));
}

#[test]
fn parse_soundcard_sinks_excludes_soundsync_prefix() {
    let names: Vec<_> = parse_soundcard_sinks(PACTL_SAMPLE)
        .into_iter()
        .map(|d| d.id)
        .collect();
    assert!(!names.iter().any(|n| n.starts_with("soundsync")));
}

#[test]
fn parse_soundcard_sinks_excludes_effect_sinks() {
    let input = "0\tsoundsync-effect_eq\tmodule-null-sink\ts16le 2ch 48000Hz\tIDLE\n\
                     1\tany_effect_chain\tmodule-alsa-card\ts16le 2ch\tSUSPENDED\n";
    assert_eq!(parse_soundcard_sinks(input).len(), 0);
}

#[test]
fn parse_soundcard_sinks_excludes_monitors() {
    let input = "0\tsoundsync-capture.monitor\tmodule-null-sink\ts16le 2ch 48000Hz\tIDLE\n";
    assert_eq!(parse_soundcard_sinks(input).len(), 0);
}

#[test]
fn parse_soundcard_sinks_garbage_returns_empty() {
    assert_eq!(parse_soundcard_sinks("").len(), 0);
    assert_eq!(parse_soundcard_sinks("no tabs here").len(), 0);
}

#[test]
fn parse_soundcard_sinks_device_fields() {
    let devices = parse_soundcard_sinks(PACTL_SAMPLE);
    for d in &devices {
        assert_eq!(d.kind, OutputKind::Soundcard);
        assert!(d.addr.is_none());
        assert!(d.port.is_none());
    }
}

#[test]
fn parse_raop_sinks_extracts_all_three_plan_samples() {
    let devices = parse_raop_sinks(RAOP_PACTL_SAMPLE);
    assert_eq!(devices.len(), 4);
    let names: Vec<_> = devices.iter().map(|d| d.name.as_str()).collect();
    assert!(names.contains(&"HP-L"), "expected HP-L");
    assert!(names.contains(&"Lounge"), "expected Lounge");
    assert!(names.contains(&"Gym"), "expected Gym");
    assert!(names.contains(&"Bose-cba4425d-abcd"), "expected Bose");
}

#[test]
fn parse_raop_sinks_id_is_full_sink_name() {
    let devices = parse_raop_sinks(RAOP_PACTL_SAMPLE);
    let hp = devices.iter().find(|d| d.name == "HP-L").unwrap();
    assert_eq!(hp.id, "raop_sink.HP-L.local.192.168.1.107.7000");
}

#[test]
fn parse_raop_sinks_kind_is_airplay() {
    let devices = parse_raop_sinks(RAOP_PACTL_SAMPLE);
    for d in &devices {
        assert_eq!(d.kind, OutputKind::Airplay);
    }
}

#[test]
fn parse_raop_sinks_addr_and_port_are_none() {
    let devices = parse_raop_sinks(RAOP_PACTL_SAMPLE);
    for d in &devices {
        assert!(d.addr.is_none());
        assert!(d.port.is_none());
    }
}

#[test]
fn parse_raop_sinks_excludes_non_raop_sinks() {
    let input = "0\talsa_output.usb-FiiO\tmodule-alsa-card\ts32le 2ch\tSUSPENDED\n\
                     1\tsoundsync-capture\tmodule-null-sink\ts16le 2ch\tIDLE\n";
    assert_eq!(parse_raop_sinks(input).len(), 0);
}

#[test]
fn parse_raop_sinks_friendly_name_fallback_when_no_local_suffix() {
    let input = "0\traop_sink.Unusual-Name\tmodule-raop-sink\ts16le 2ch\tSUSPENDED\n";
    let devices = parse_raop_sinks(input);
    assert_eq!(devices.len(), 1);
    assert_eq!(devices[0].name, "Unusual-Name");
    assert_eq!(devices[0].id, "raop_sink.Unusual-Name");
}

#[test]
fn parse_raop_sinks_garbage_returns_empty() {
    assert_eq!(parse_raop_sinks("").len(), 0);
    assert_eq!(parse_raop_sinks("no tabs here").len(), 0);
    assert_eq!(parse_raop_sinks("garbage\tline").len(), 0);
}

#[test]
fn parse_raop_sinks_mixed_raop_and_soundcard_lines() {
    let input = "0\talsa_output.pci\tmodule-alsa-card\ts16le\tSUSPENDED\n\
                     1\traop_sink.TV.local.10.0.0.1.7000\tmodule-raop-sink\ts16le\tIDLE\n\
                     2\tsoundsync-capture.monitor\tmodule-null-sink\ts16le\tIDLE\n";
    let devices = parse_raop_sinks(input);
    assert_eq!(devices.len(), 1);
    assert_eq!(devices[0].name, "TV");
}

#[test]
fn probe_outputs_aggregates_all_kinds() {
    let mut runner = FakeCommandRunner::new()
        .on(
            "avahi-browse",
            &["-rtp", "_googlecast._tcp"],
            CommandOutput {
                status: 0,
                stdout: CHROMECAST_SAMPLE.to_string(),
                stderr: String::new(),
            },
        )
        .on(
            "pactl",
            &["list", "short", "sinks"],
            CommandOutput {
                status: 0,
                stdout: RAOP_PACTL_SAMPLE.to_string(),
                stderr: String::new(),
            },
        );

    let avail = probe_outputs(&mut runner);
    assert_eq!(avail.chromecast.len(), 1);
    assert_eq!(avail.airplay.len(), 4);
    assert_eq!(avail.soundcard.len(), 1);
}

#[test]
fn probe_outputs_best_effort_on_command_failure() {
    let mut runner = FakeCommandRunner::new().with_error("avahi-browse").on(
        "pactl",
        &["list", "short", "sinks"],
        CommandOutput {
            status: 0,
            stdout: PACTL_SAMPLE.to_string(),
            stderr: String::new(),
        },
    );

    let avail = probe_outputs(&mut runner);
    assert_eq!(avail.chromecast.len(), 0);
    assert_eq!(avail.airplay.len(), 0);
    assert_eq!(avail.soundcard.len(), 2);
}

fn make_device(kind: OutputKind, id: &str, name: &str) -> OutputDevice {
    OutputDevice {
        kind,
        id: id.to_string(),
        name: name.to_string(),
        addr: None,
        port: None,
    }
}

#[test]
fn dedup_by_order_preserving_first_wins() {
    let devices = vec![
        make_device(OutputKind::Soundcard, "a", "First-A"),
        make_device(OutputKind::Soundcard, "b", "Only-B"),
        make_device(OutputKind::Soundcard, "a", "Second-A"),
    ];
    let result = dedup_by(devices, |d| d.id.clone());
    assert_eq!(result.len(), 2);
    assert_eq!(result[0].name, "First-A");
    assert_eq!(result[1].name, "Only-B");
}

#[test]
fn dedup_by_all_unique_keys_keeps_all() {
    let devices = vec![
        make_device(OutputKind::Soundcard, "x", "X"),
        make_device(OutputKind::Soundcard, "y", "Y"),
        make_device(OutputKind::Soundcard, "z", "Z"),
    ];
    let result = dedup_by(devices, |d| d.id.clone());
    assert_eq!(result.len(), 3);
}

#[test]
fn dedup_by_empty_input_returns_empty() {
    let result = dedup_by(vec![], |d: &OutputDevice| d.id.clone());
    assert!(result.is_empty());
}

#[test]
fn parse_chromecasts_dedup_same_id_ipv4_ipv6() {
    let ipv4 = "=;wlp2s0;IPv4;Chromecast-HD-d122;_googlecast._tcp;local;\
         d122.local;192.168.1.10;8009;\
         \"fn=Guest TV\" \"id=d122a7025b65\"";
    let ipv6 = "=;wlp2s0;IPv6;Chromecast-HD-d122;_googlecast._tcp;local;\
         d122.local;fe80::1;8009;\
         \"fn=Guest TV\" \"id=d122a7025b65\"";
    let input = format!("{ipv4}\n{ipv6}");
    let raw = parse_chromecasts(&input);
    assert_eq!(raw.len(), 2, "raw should have both lines");
    assert_eq!(
        raw[0].addr.as_deref(),
        Some("192.168.1.10"),
        "IPv4 first after sort"
    );

    let deduped = dedup_by(raw, |d| d.id.clone());
    assert_eq!(deduped.len(), 1);
    assert_eq!(deduped[0].name, "Guest TV");
    assert_eq!(deduped[0].id, "d122a7025b65");
    assert_eq!(deduped[0].addr.as_deref(), Some("192.168.1.10"));
    assert_eq!(deduped[0].port, Some(8009));
}

#[test]
fn parse_chromecasts_ipv4_only_addr_is_ipv4() {
    let line = "=;wlp2s0;IPv4;Cast1;_googlecast._tcp;local;\
         c1.local;192.168.1.129;8009;\
         \"fn=Living Room\" \"id=aabbcc\"";
    let devices = parse_chromecasts(line);
    assert_eq!(devices.len(), 1);
    assert_eq!(devices[0].addr.as_deref(), Some("192.168.1.129"));
    assert_eq!(devices[0].port, Some(8009));
}

#[test]
fn parse_chromecasts_ipv6_only_addr_is_ipv6() {
    let line = "=;wlp2s0;IPv6;Cast1;_googlecast._tcp;local;\
         c1.local;fe80::dead:beef;8009;\
         \"fn=Living Room\" \"id=aabbcc\"";
    let devices = parse_chromecasts(line);
    assert_eq!(devices.len(), 1);
    assert_eq!(devices[0].addr.as_deref(), Some("fe80::dead:beef"));
}

#[test]
fn parse_chromecasts_ipv6_before_ipv4_still_prefers_ipv4() {
    let ipv6_first = "=;wlp2s0;IPv6;Cast;_googlecast._tcp;local;\
         c.local;fe80::1;8009;\
         \"fn=Kitchen\" \"id=ccddee\"";
    let ipv4_second = "=;wlp2s0;IPv4;Cast;_googlecast._tcp;local;\
         c.local;192.168.1.50;8009;\
         \"fn=Kitchen\" \"id=ccddee\"";
    let input = format!("{ipv6_first}\n{ipv4_second}");
    let deduped = dedup_by(parse_chromecasts(&input), |d| d.id.clone());
    assert_eq!(deduped.len(), 1);
    assert_eq!(deduped[0].addr.as_deref(), Some("192.168.1.50"));
}

#[test]
fn parse_chromecasts_addr_is_ip_not_hostname() {
    let line = "=;wlp2s0;IPv4;Cast;_googlecast._tcp;local;\
         cast-device.local;10.0.1.99;8009;\
         \"fn=Office\" \"id=112233\"";
    let devices = parse_chromecasts(line);
    assert_eq!(devices.len(), 1);
    assert_eq!(devices[0].addr.as_deref(), Some("10.0.1.99"));
    assert_ne!(devices[0].addr.as_deref(), Some("cast-device.local"));
}

#[test]
fn parse_chromecasts_dedup_different_ids_kept() {
    let line1 = "=;wlp2s0;IPv4;Cast1;_googlecast._tcp;local;\
         c1.local;192.168.1.10;8009;\
         \"fn=Living Room\" \"id=aabbcc\"";
    let line2 = "=;wlp2s0;IPv4;Cast2;_googlecast._tcp;local;\
         c2.local;192.168.1.11;8009;\
         \"fn=Kitchen\" \"id=ddeeff\"";
    let input = format!("{line1}\n{line2}");
    let deduped = dedup_by(parse_chromecasts(&input), |d| d.id.clone());
    assert_eq!(deduped.len(), 2);
    let names: Vec<_> = deduped.iter().map(|d| d.name.as_str()).collect();
    assert!(names.contains(&"Living Room"));
    assert!(names.contains(&"Kitchen"));
}

#[test]
fn raop_dedup_same_name_collapses_to_one() {
    let input = "\
0\traop_sink.a0d7b954-aircast.local.192.168.1.20.7000\tmodule-raop-sink\ts16le 2ch 44100Hz\tSUSPENDED
1\traop_sink.a0d7b954-aircast.local.192.168.1.21.7000\tmodule-raop-sink\ts16le 2ch 44100Hz\tSUSPENDED
";
    let raw = parse_raop_sinks(input);
    assert_eq!(raw.len(), 2, "raw should see both sink lines");
    assert_eq!(raw[0].name, raw[1].name, "both have same friendly name");

    let deduped = dedup_by(raw, |d| d.name.clone());
    assert_eq!(deduped.len(), 1);
    assert_eq!(deduped[0].name, "a0d7b954-aircast");
}

#[test]
fn raop_dedup_distinct_names_all_kept() {
    let deduped = dedup_by(parse_raop_sinks(RAOP_PACTL_SAMPLE), |d| d.name.clone());
    assert_eq!(deduped.len(), 4);
    let names: Vec<_> = deduped.iter().map(|d| d.name.as_str()).collect();
    assert!(names.contains(&"HP-L"));
    assert!(names.contains(&"Lounge"));
    assert!(names.contains(&"Gym"));
    assert!(names.contains(&"Bose-cba4425d-abcd"));
}

#[test]
fn raop_dedup_mixed_bridge_and_real() {
    let input = "\
0\traop_sink.HP-L.local.192.168.1.107.7000\tmodule-raop-sink\ts16le 2ch 44100Hz\tSUSPENDED
1\traop_sink.a0d7b954-aircast.local.192.168.1.20.7000\tmodule-raop-sink\ts16le 2ch 44100Hz\tSUSPENDED
2\traop_sink.a0d7b954-aircast.local.192.168.1.21.7000\tmodule-raop-sink\ts16le 2ch 44100Hz\tSUSPENDED
3\traop_sink.Gym.local.192.168.1.115.7000\tmodule-raop-sink\ts16le 2ch 44100Hz\tSUSPENDED
";
    let deduped = dedup_by(parse_raop_sinks(input), |d| d.name.clone());
    assert_eq!(deduped.len(), 3);
    let names: Vec<_> = deduped.iter().map(|d| d.name.as_str()).collect();
    assert!(names.contains(&"HP-L"));
    assert!(names.contains(&"a0d7b954-aircast"));
    assert!(names.contains(&"Gym"));
}

const MODULES_SAMPLE: &str = "\
7\tmodule-always-sink\t\n\
8\tmodule-null-sink\tsink_name=soundsync-capture\n\
42\tmodule-raop-discover\t\n\
99\tmodule-loopback\tsource=soundsync-capture.monitor sink=raop_sink.HP-L.local.192.168.1.107.7000\n\
";

#[test]
fn parse_module_id_by_name_finds_raop_discover() {
    let id = parse_module_id_by_name(MODULES_SAMPLE, "module-raop-discover");
    assert_eq!(id, Some(42));
}

#[test]
fn parse_module_id_by_name_absent_returns_none() {
    let id = parse_module_id_by_name(MODULES_SAMPLE, "module-does-not-exist");
    assert_eq!(id, None);
}

#[test]
fn parse_module_id_by_name_empty_input_returns_none() {
    assert_eq!(parse_module_id_by_name("", "module-raop-discover"), None);
}

#[test]
fn parse_module_id_by_name_garbage_lines_skipped() {
    let garbage = "not a valid line\n\
                       \t\t\n\
                       notanumber\tmodule-raop-discover\t\n\
                       garbage here\n";
    assert_eq!(
        parse_module_id_by_name(garbage, "module-raop-discover"),
        None
    );
}

#[test]
fn parse_module_id_by_name_first_match_wins() {
    let input = "10\tmodule-raop-discover\t\n\
                     20\tmodule-raop-discover\tsome-args\n";
    assert_eq!(
        parse_module_id_by_name(input, "module-raop-discover"),
        Some(10)
    );
}

#[test]
fn parse_module_id_by_name_no_partial_match() {
    let input = "5\tmodule-raop-discover-extra\t\n";
    assert_eq!(parse_module_id_by_name(input, "module-raop-discover"), None);
}

#[test]
fn any_comparable_key_tells_devices_apart() {
    let devices = vec![
        make_device(OutputKind::Soundcard, "a", "One"),
        make_device(OutputKind::Soundcard, "bb", "Two"),
        make_device(OutputKind::Soundcard, "cc", "Three"),
    ];
    let result = dedup_by(devices, |d| d.id.len());
    assert_eq!(result.len(), 2);
    assert_eq!(result[1].name, "Two");
}

#[test]
fn deduplicating_twice_is_deduplicating_once() {
    let devices = || {
        vec![
            make_device(OutputKind::Soundcard, "a", "One"),
            make_device(OutputKind::Soundcard, "b", "Two"),
            make_device(OutputKind::Soundcard, "a", "Three"),
        ]
    };
    let once = dedup_by(devices(), |d| d.id.clone());
    let twice = dedup_by(dedup_by(devices(), |d| d.id.clone()), |d| d.id.clone());
    assert_eq!(once, twice);
}
