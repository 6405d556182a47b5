use soundsync::cast::client::{server_lan_ip, stream_url};

#[test]
fn server_lan_ip_prefers_private_ipv4() {
    let output = "fe80::1 192.168.1.105 127.0.0.1";
    assert_eq!(server_lan_ip(output), Some("192.168.1.105".to_string()));
}

#[test]
fn server_lan_ip_picks_first_private_when_multiple() {
    let output = "192.168.1.10 192.168.1.20";
    assert_eq!(server_lan_ip(output), Some("192.168.1.10".to_string()));
}

#[test]
fn server_lan_ip_accepts_10_dot_range() {
    let output = "fe80::1 10.0.0.55";
    assert_eq!(server_lan_ip(output), Some("10.0.0.55".to_string()));
}

#[test]
fn server_lan_ip_accepts_172_16_range() {
    let output = "172.20.0.3";
    assert_eq!(server_lan_ip(output), Some("172.20.0.3".to_string()));
}

#[test]
fn server_lan_ip_rejects_172_15() {
    let output = "172.15.0.1";
    assert_eq!(server_lan_ip(output), Some("172.15.0.1".to_string()));
}

#[test]
fn server_lan_ip_skips_loopback() {
    let output = "127.0.0.1";
    assert_eq!(server_lan_ip(output), None);
}

#[test]
fn server_lan_ip_skips_link_local() {
    let output = "169.254.1.1";
    assert_eq!(server_lan_ip(output), None);
}

#[test]
fn server_lan_ip_only_loopback_returns_none() {
    let output = "127.0.0.1 127.0.1.1";
    assert_eq!(server_lan_ip(output), None);
}

#[test]
fn server_lan_ip_empty_returns_none() {
    assert_eq!(server_lan_ip(""), None);
}

#[test]
fn server_lan_ip_only_ipv6_returns_none() {
    let output = "fe80::1 ::1 2001:db8::1";
    assert_eq!(server_lan_ip(output), None);
}

#[test]
fn server_lan_ip_fallback_to_non_private_when_no_private() {
    let output = "8.8.8.8";
    assert_eq!(server_lan_ip(output), Some("8.8.8.8".to_string()));
}

#[test]
fn server_lan_ip_prefers_private_over_public() {
    let output = "8.8.8.8 192.168.0.1";
    assert_eq!(server_lan_ip(output), Some("192.168.0.1".to_string()));
}

#[test]
fn server_lan_ip_realistic_hostname_i_output() {
    let output = "192.168.1.47 fe80::a00:27ff:fe4e:66a1";
    assert_eq!(server_lan_ip(output), Some("192.168.1.47".to_string()));
}

#[test]
fn stream_url_format() {
    assert_eq!(
        stream_url("192.168.1.47", 8080),
        "http://192.168.1.47:8080/api/stream/audio.aac"
    );
}

#[test]
fn stream_url_different_port() {
    assert_eq!(
        stream_url("10.0.0.1", 9090),
        "http://10.0.0.1:9090/api/stream/audio.aac"
    );
}

#[test]
fn stream_url_port_80() {
    assert_eq!(
        stream_url("192.168.0.5", 80),
        "http://192.168.0.5:80/api/stream/audio.aac"
    );
}
