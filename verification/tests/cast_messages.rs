use soundsync::cast::messages::{close, connect, get_status, launch, load, media_stop, message_type, parse_launched_transport_id, ping, pong, receiver_stop, DEFAULT_MEDIA_RECEIVER_APP_ID, NS_CONNECTION, NS_HEARTBEAT, NS_MEDIA, NS_RECEIVER};

#[test]
fn connect_type_is_connect() {
    let v: serde_json::Value = serde_json::from_str(&connect()).unwrap();
    assert_eq!(v["type"], "CONNECT");
}

#[test]
fn close_type_is_close() {
    let v: serde_json::Value = serde_json::from_str(&close()).unwrap();
    assert_eq!(v["type"], "CLOSE");
}

#[test]
fn ping_type_is_ping() {
    let v: serde_json::Value = serde_json::from_str(&ping()).unwrap();
    assert_eq!(v["type"], "PING");
}

#[test]
fn pong_type_is_pong() {
    let v: serde_json::Value = serde_json::from_str(&pong()).unwrap();
    assert_eq!(v["type"], "PONG");
}

#[test]
fn launch_contains_type_app_id_and_request_id() {
    let json = launch(42, DEFAULT_MEDIA_RECEIVER_APP_ID);
    let v: serde_json::Value = serde_json::from_str(&json).unwrap();
    assert_eq!(v["type"], "LAUNCH");
    assert_eq!(v["appId"], DEFAULT_MEDIA_RECEIVER_APP_ID);
    assert_eq!(v["requestId"], 42);
}

#[test]
fn launch_request_id_zero() {
    let json = launch(0, "CC1AD845");
    let v: serde_json::Value = serde_json::from_str(&json).unwrap();
    assert_eq!(v["requestId"], 0);
}

#[test]
fn launch_custom_app_id() {
    let json = launch(1, "CUSTOM_APP");
    let v: serde_json::Value = serde_json::from_str(&json).unwrap();
    assert_eq!(v["appId"], "CUSTOM_APP");
}

#[test]
fn get_status_contains_type_and_request_id() {
    let json = get_status(7);
    let v: serde_json::Value = serde_json::from_str(&json).unwrap();
    assert_eq!(v["type"], "GET_STATUS");
    assert_eq!(v["requestId"], 7);
}

#[test]
fn load_contains_all_required_fields() {
    let url = "http://192.168.1.100:8080/stream.opus";
    let ct = "audio/ogg";
    let json = load(3, url, ct);
    let v: serde_json::Value = serde_json::from_str(&json).unwrap();
    assert_eq!(v["type"], "LOAD");
    assert_eq!(v["requestId"], 3);
    assert!(v["autoplay"].as_bool().unwrap_or(false));
    let media = &v["media"];
    assert_eq!(media["contentId"], url);
    assert_eq!(media["contentType"], ct);
    assert_eq!(media["streamType"], "LIVE");
}

#[test]
fn load_stream_type_is_live() {
    let v: serde_json::Value =
        serde_json::from_str(&load(1, "http://h/s", "audio/ogg")).unwrap();
    assert_eq!(v["media"]["streamType"], "LIVE");
}

#[test]
fn media_stop_contains_type_request_id_and_session() {
    let json = media_stop(5, 99);
    let v: serde_json::Value = serde_json::from_str(&json).unwrap();
    assert_eq!(v["type"], "STOP");
    assert_eq!(v["requestId"], 5);
    assert_eq!(v["mediaSessionId"], 99);
}

#[test]
fn receiver_stop_contains_type_and_request_id() {
    let json = receiver_stop(10);
    let v: serde_json::Value = serde_json::from_str(&json).unwrap();
    assert_eq!(v["type"], "STOP");
    assert_eq!(v["requestId"], 10);
    assert!(v.get("mediaSessionId").is_none());
}

const RECEIVER_STATUS_SAMPLE: &str = r#"{
        "type": "RECEIVER_STATUS",
        "requestId": 1,
        "status": {
            "applications": [
                {
                    "appId": "CC1AD845",
                    "displayName": "Default Media Receiver",
                    "isIdleScreen": false,
                    "launchedFromCloud": false,
                    "namespaces": [
                        { "name": "urn:x-cast:com.google.cast.media" }
                    ],
                    "sessionId": "xxxxxxxx-xxxx-xxxx-xxxx-xxxxxxxxxxxx",
                    "statusText": "",
                    "transportId": "web-1"
                }
            ],
            "isActiveInput": true,
            "isStandBy": false,
            "volume": {
                "controlType": "master",
                "level": 1.0,
                "muted": false,
                "stepInterval": 0.05
            }
        }
    }"#;

#[test]
fn parse_launched_transport_id_finds_cc1ad845() {
    let tid = parse_launched_transport_id(RECEIVER_STATUS_SAMPLE, "CC1AD845");
    assert_eq!(tid, Some("web-1".to_string()));
}

#[test]
fn parse_launched_transport_id_wrong_app_id_returns_none() {
    let tid = parse_launched_transport_id(RECEIVER_STATUS_SAMPLE, "NONEXISTENT");
    assert_eq!(tid, None);
}

#[test]
fn parse_launched_transport_id_empty_json_returns_none() {
    assert_eq!(parse_launched_transport_id("{}", "CC1AD845"), None);
}

#[test]
fn parse_launched_transport_id_malformed_json_returns_none() {
    assert_eq!(
        parse_launched_transport_id("not json {{{", "CC1AD845"),
        None
    );
}

#[test]
fn parse_launched_transport_id_missing_status_returns_none() {
    let json = r#"{"type":"RECEIVER_STATUS","requestId":1}"#;
    assert_eq!(parse_launched_transport_id(json, "CC1AD845"), None);
}

#[test]
fn parse_launched_transport_id_empty_applications_returns_none() {
    let json = r#"{"type":"RECEIVER_STATUS","status":{"applications":[]}}"#;
    assert_eq!(parse_launched_transport_id(json, "CC1AD845"), None);
}

#[test]
fn parse_launched_transport_id_multiple_apps_finds_correct_one() {
    let json = r#"{
            "type": "RECEIVER_STATUS",
            "status": {
                "applications": [
                    {"appId": "OTHER_APP", "transportId": "web-0"},
                    {"appId": "CC1AD845",  "transportId": "web-1"}
                ]
            }
        }"#;
    let tid = parse_launched_transport_id(json, "CC1AD845");
    assert_eq!(tid, Some("web-1".to_string()));
}

#[test]
fn parse_launched_transport_id_skips_no_app_id_entry_before_target() {
    let json = r#"{
            "type": "RECEIVER_STATUS",
            "status": {
                "applications": [
                    {"displayName": "Backdrop", "transportId": "bg-0"},
                    {"appId": null, "displayName": "Idle", "transportId": "idle-0"},
                    {"appId": "CC1AD845", "transportId": "web-1"}
                ]
            }
        }"#;
    let tid = parse_launched_transport_id(json, "CC1AD845");
    assert_eq!(
        tid,
        Some("web-1".to_string()),
        "should skip the no-appId entries and find CC1AD845"
    );
}

#[test]
fn parse_launched_transport_id_uses_constant() {
    let tid =
        parse_launched_transport_id(RECEIVER_STATUS_SAMPLE, DEFAULT_MEDIA_RECEIVER_APP_ID);
    assert_eq!(tid, Some("web-1".to_string()));
}

#[test]
fn message_type_extracts_receiver_status() {
    assert_eq!(
        message_type(RECEIVER_STATUS_SAMPLE),
        Some("RECEIVER_STATUS".to_string())
    );
}

#[test]
fn message_type_extracts_pong() {
    assert_eq!(message_type(&pong()), Some("PONG".to_string()));
}

#[test]
fn message_type_extracts_ping() {
    assert_eq!(message_type(&ping()), Some("PING".to_string()));
}

#[test]
fn message_type_extracts_media_status() {
    let json = r#"{"type":"MEDIA_STATUS","status":[]}"#;
    assert_eq!(message_type(json), Some("MEDIA_STATUS".to_string()));
}

#[test]
fn message_type_missing_type_field_returns_none() {
    assert_eq!(message_type(r#"{"requestId":1}"#), None);
}

#[test]
fn message_type_malformed_json_returns_none() {
    assert_eq!(message_type("not json"), None);
}

#[test]
fn message_type_numeric_type_returns_none() {
    assert_eq!(message_type(r#"{"type":42}"#), None);
}

#[test]
fn namespace_constants_have_correct_values() {
    assert!(NS_CONNECTION.contains("connection"));
    assert!(NS_HEARTBEAT.contains("heartbeat"));
    assert!(NS_RECEIVER.contains("receiver"));
    assert!(NS_MEDIA.contains("media"));
    assert_eq!(DEFAULT_MEDIA_RECEIVER_APP_ID, "CC1AD845");
}
