use soundsync::adapter_id::{adapters_among, resolve_adapter, resolve_adapter_from};

fn v(items: &[&str]) -> Vec<String> {
    items.iter().map(|s| s.to_string()).collect()
}

#[test]
fn env_override_wins_over_sysfs() {
    assert_eq!(
        resolve_adapter_from(Some("hci3"), &v(&["hci0", "hci1"])),
        "hci3"
    );
}

#[test]
fn env_override_is_trimmed() {
    assert_eq!(resolve_adapter_from(Some("  hci2  "), &[]), "hci2");
}

#[test]
fn empty_or_whitespace_env_falls_through_to_first_hci() {
    assert_eq!(
        resolve_adapter_from(Some(""), &v(&["hci0", "hci1"])),
        "hci0"
    );
    assert_eq!(
        resolve_adapter_from(Some("   "), &v(&["hci1", "hci0"])),
        "hci1",
        "uses the first element of the (caller-sorted) list as-is"
    );
}

#[test]
fn first_hci_used_when_no_env() {
    assert_eq!(resolve_adapter_from(None, &v(&["hci0", "hci1"])), "hci0");
    assert_eq!(resolve_adapter_from(None, &v(&["hci1"])), "hci1");
}

#[test]
fn fallback_to_hci0_when_no_env_and_no_adapters() {
    assert_eq!(resolve_adapter_from(None, &[]), "hci0");
    assert_eq!(resolve_adapter_from(Some(""), &[]), "hci0");
}

#[test]
fn adapters_are_filtered_and_sorted() {
    let entries = v(&["hci1", "lo", "hci0", "rfkill", "hci10"]);
    assert_eq!(adapters_among(&entries), v(&["hci0", "hci1", "hci10"]));
    assert_eq!(resolve_adapter(None, &entries), "hci0");
    assert_eq!(resolve_adapter(Some(" hci7 "), &entries), "hci7");
    assert_eq!(resolve_adapter(None, &v(&["lo"])), "hci0");
}
