use soundsync::config_store::{config_dir, config_dir_default, load_json, save_json};
use soundsync::json::Json;
use soundsync::sys::testing::FakeFs;

fn faces(devices: &[&str], interval_secs: u64) -> Json {
    let items = devices.iter().map(|d| Json::Text(d.to_string())).collect();
    Json::Object(vec![
        ("devices".to_string(), Json::Array(items)),
        ("interval_secs".to_string(), Json::unsigned(interval_secs)),
    ])
}

#[test]
fn config_dir_format() {
    assert_eq!(config_dir("/home/alice"), "/home/alice/.config/soundsync");
    assert_eq!(config_dir("/root"), "/root/.config/soundsync");
    assert_eq!(config_dir_default(None), "/root/.config/soundsync");
    assert_eq!(config_dir_default(Some("/h")), "/h/.config/soundsync");
}

#[test]
fn config_store_load_returns_default_when_file_absent() {
    let mut fs = FakeFs::new();
    assert_eq!(load_json(&mut fs, "/home/alice", "devices.json"), None);
}

#[test]
fn load_returns_default_for_corrupt_json() {
    let mut fs = FakeFs::new().with_file(
        "/home/alice/.config/soundsync/devices.json",
        "{not valid json",
    );
    assert_eq!(load_json(&mut fs, "/home/alice", "devices.json"), None);
}

#[test]
fn save_then_load_round_trip() {
    let mut fs = FakeFs::new();
    let value = faces(&["turntable", "cassette"], 30);
    save_json(&mut fs, "/home/alice", "devices.json", &value).expect("save");
    let got = load_json(&mut fs, "/home/alice", "devices.json");
    assert_eq!(got, Some(value));
}

#[test]
fn save_writes_under_config_soundsync_dir() {
    let mut fs = FakeFs::new();
    let value = faces(&[], 5);
    save_json(&mut fs, "/home/alice", "reconcile.json", &value).expect("save");
    assert_eq!(
        fs.contents("/home/alice/.config/soundsync/reconcile.json").as_deref(),
        Some("{\n  \"devices\": [],\n  \"interval_secs\": 5\n}")
    );
}

#[test]
fn numbers_of_every_kind_survive_saving_and_loading() {
    let mut fs = FakeFs::new().with_file("/h/.config/soundsync/eq.json", "{\"gain\":-6,\"q\":1.41}");
    let value = load_json(&mut fs, "/h", "eq.json").unwrap();
    assert_eq!(value.get("gain").unwrap().as_i64(), Some(-6));
    assert_eq!(value.get("q").unwrap().as_fraction().as_deref(), Some("1.41"));
    save_json(&mut fs, "/h", "copy.json", &value).expect("save");
    assert_eq!(load_json(&mut fs, "/h", "copy.json"), Some(value));
}
