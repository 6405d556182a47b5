use soundsync::bluetooth::name_config::{device_name_path, load_device_name, load_device_name_from, save_device_name, save_device_name_to};
use soundsync::state::DEFAULT_DEVICE_NAME;
use soundsync::sys::testing::FakeFs;

#[test]
fn device_name_path_format() {
    assert_eq!(
        device_name_path("/home/alice"),
        "/home/alice/.config/soundsync/device-name"
    );
    assert_eq!(
        device_name_path("/root"),
        "/root/.config/soundsync/device-name"
    );
}

#[test]
fn name_config_load_returns_default_when_file_absent() {
    let mut fs = FakeFs::new();
    let name = load_device_name_from(&mut fs, "/tmp/soundsync-test-nonexistent-zzz/never/device-name");
    assert_eq!(name, DEFAULT_DEVICE_NAME);
}

#[test]
fn load_returns_default_for_empty_file() {
    let mut fs = FakeFs::new().with_file("/tmp/soundsync-test-empty", "   ");
    let name = load_device_name_from(&mut fs, "/tmp/soundsync-test-empty");
    assert_eq!(name, DEFAULT_DEVICE_NAME);
}

#[test]
fn save_and_load_round_trip() {
    let mut fs = FakeFs::new();
    let path = "/tmp/soundsync-test-rl/.config/soundsync/device-name";
    save_device_name_to(&mut fs, path, "TestDevice").expect("save");
    let loaded = load_device_name_from(&mut fs, path);
    assert_eq!(loaded, "TestDevice");
}

#[test]
fn the_home_directory_falls_back_to_root() {
    let mut fs = FakeFs::new();
    save_device_name(&mut fs, None, "Kitchen").unwrap();
    assert_eq!(fs.contents("/root/.config/soundsync/device-name").as_deref(), Some("Kitchen"));
    assert_eq!(load_device_name(&mut fs, None), "Kitchen");
    assert_eq!(load_device_name(&mut fs, Some("/home/a")), DEFAULT_DEVICE_NAME);
}

#[test]
fn paths_without_a_directory_are_relative() {
    let mut fs = FakeFs::new();
    save_device_name_to(&mut fs, "name", "A").unwrap();
    assert_eq!(fs.contents("./name").as_deref(), Some("A"));
}
