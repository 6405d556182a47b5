use soundsync::capabilities::osrelease::OsRelease;

const UBUNTU_2404: &str =
    "PRETTY_NAME=\"Ubuntu 24.04.4 LTS\"\nID=ubuntu\nVERSION_ID=\"24.04\"\n";

#[test]
fn parses_id_and_version() {
    let os = OsRelease::parse(UBUNTU_2404);
    assert_eq!(os.id.as_deref(), Some("ubuntu"));
    assert_eq!(os.version_id.as_deref(), Some("24.04"));
}

#[test]
fn strips_single_quotes() {
    let os = OsRelease::parse("ID='arch'\nVERSION_ID='rolling'\n");
    assert_eq!(os.id.as_deref(), Some("arch"));
    assert_eq!(os.version_id.as_deref(), Some("rolling"));
}

#[test]
fn missing_fields_are_none() {
    let os = OsRelease::parse("FOO=bar\n");
    assert_eq!(os.id, None);
    assert_eq!(os.version_id, None);
}

#[test]
fn the_later_line_counts_and_quotes_are_stripped_repeatedly() {
    let os = OsRelease::parse(" ID = 'a' \nID=\"\"b'\"\nVERSION_ID=\n");
    assert_eq!(os.id.as_deref(), Some("b"));
    assert_eq!(os.version_id.as_deref(), Some(""));
    assert_eq!(OsRelease::default(), OsRelease::parse("no equals sign"));
}
