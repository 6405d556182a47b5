use soundsync::bluetooth::addr::{address_from_path, path_from_address};

#[test]
fn address_from_device_path() {
    assert_eq!(
        address_from_path("/org/bluez/hci0/dev_AA_BB_CC_DD_EE_FF").as_deref(),
        Some("AA:BB:CC:DD:EE:FF")
    );
}

#[test]
fn address_from_transport_path() {
    assert_eq!(
        address_from_path("/org/bluez/hci0/dev_AA_BB_CC_DD_EE_FF/sep1/fd0").as_deref(),
        Some("AA:BB:CC:DD:EE:FF")
    );
}

#[test]
fn invalid_paths_return_none() {
    assert_eq!(address_from_path("/org/bluez/hci0"), None);
    assert_eq!(address_from_path("/org/bluez/hci0/player0"), None);
}

#[test]
fn path_roundtrip() {
    let addr = "12:34:56:78:9A:BC";
    let path = path_from_address("/org/bluez/hci0", addr);
    assert_eq!(path, "/org/bluez/hci0/dev_12_34_56_78_9A_BC");
    assert_eq!(address_from_path(&path).as_deref(), Some(addr));
}

#[test]
fn what_follows_the_device_makes_no_difference() {
    let path = path_from_address("/org/bluez/hci1", "12:34:56:78:9A:BC");
    for below in ["", "/", "/sep1/fd0", "/dev_00", "/player0"] {
        let longer = format!("{path}{below}");
        assert_eq!(address_from_path(&longer).as_deref(), Some("12:34:56:78:9A:BC"));
    }
}
