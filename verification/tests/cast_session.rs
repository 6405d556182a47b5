use soundsync::cast::client::{is_rfc1918_172, CastSession, RECEIVER_ID};
use soundsync::cast::messages::{ping, NS_CONNECTION, NS_HEARTBEAT, NS_MEDIA, NS_RECEIVER};
use soundsync::cast::proto::{encode_frame, string_message, CastMessage};

fn from_receiver(source: &str, payload: &str) -> Vec<u8> {
    let mut m = string_message(NS_RECEIVER, "sender-0", payload);
    m.source_id = source.to_string();
    encode_frame(&m)
}

const STATUS: &str =
    r#"{"type":"RECEIVER_STATUS","status":{"applications":[{"appId":"CC1AD845","transportId":"web-1"}]}}"#;

fn session() -> CastSession {
    CastSession::new("http://10.0.0.1:8080/api/stream/audio.aac".to_string())
}

fn kinds(out: &[CastMessage]) -> Vec<(String, String)> {
    out.iter().map(|m| (m.namespace.clone(), m.destination_id.clone())).collect()
}

#[test]
fn a_session_opens_with_connect_and_launch() {
    let out = session().opening();
    assert_eq!(
        kinds(&out),
        vec![
            (NS_CONNECTION.to_string(), RECEIVER_ID.to_string()),
            (NS_RECEIVER.to_string(), RECEIVER_ID.to_string()),
        ]
    );
    assert_eq!(
        out[1].payload_utf8.as_deref(),
        Some(r#"{"appId":"CC1AD845","requestId":1,"type":"LAUNCH"}"#)
    );
}

#[test]
fn the_stream_is_loaded_once() {
    let mut s = session();
    let out = s.received(&from_receiver("receiver-0", STATUS));
    assert_eq!(
        kinds(&out),
        vec![
            (NS_CONNECTION.to_string(), "web-1".to_string()),
            (NS_MEDIA.to_string(), "web-1".to_string()),
        ]
    );
    let load = out[1].payload_utf8.clone().unwrap();
    assert!(load.contains("\"requestId\":2"));
    assert!(load.contains("\"contentType\":\"audio/aac\""));
    assert!(s.received(&from_receiver("receiver-0", STATUS)).is_empty());
}

#[test]
fn pings_are_answered_to_their_sender() {
    let mut s = session();
    let out = s.received(&from_receiver("web-1", &ping()));
    assert_eq!(kinds(&out), vec![(NS_HEARTBEAT.to_string(), "web-1".to_string())]);
    assert_eq!(out[0].payload_utf8.as_deref(), Some(r#"{"type":"PONG"}"#));
}

#[test]
fn frames_may_arrive_in_pieces() {
    let mut bytes = from_receiver("receiver-0", &ping());
    bytes.extend(from_receiver("receiver-0", STATUS));
    let mut whole = session();
    let at_once = whole.received(&bytes);
    let mut s = session();
    let mut pieces = Vec::new();
    for b in &bytes {
        pieces.extend(s.received(&[*b]));
    }
    assert_eq!(at_once.len(), 3);
    assert_eq!(pieces, at_once);
}

#[test]
fn heartbeat_and_close_go_to_the_receiver() {
    let s = session();
    assert_eq!(s.heartbeat().payload_utf8.as_deref(), Some(r#"{"type":"PING"}"#));
    assert_eq!(s.closing().payload_utf8.as_deref(), Some(r#"{"type":"CLOSE"}"#));
    assert_eq!(s.closing().destination_id, RECEIVER_ID);
}

#[test]
fn the_private_172_range_is_16_to_31() {
    for (addr, private) in [
        ("172.15.0.1", false),
        ("172.16.0.1", true),
        ("172.31.0.1", true),
        ("172.32.0.1", false),
        ("172.x.0.1", false),
        ("10.16.0.1", false),
        ("172", false),
    ] {
        assert_eq!(is_rfc1918_172(addr), private, "{addr}");
    }
}
