use soundsync::config::{bind_text, resolve_bind, resolve_name, resolve_web_dir, DEFAULT_NAME, DEFAULT_WEB_DIR};

fn read(text: &str) -> Result<(String, u16), String> {
    match text.rsplit_once(':') {
        Some((ip, port)) => match port.parse::<u16>() {
            Ok(port) => Ok((ip.to_string(), port)),
            Err(e) => Err(e.to_string()),
        },
        None => Err("invalid socket address syntax".to_string()),
    }
}

#[test]
fn default_bind_parses() {
    let (ip, port) = resolve_bind(None, read(&bind_text(None))).expect("default bind should parse");
    assert_eq!(port, 8080);
    assert_eq!(ip, "0.0.0.0");
}

#[test]
fn custom_bind_parses() {
    let env = Some("127.0.0.1:9090");
    let (ip, port) = resolve_bind(env, read(&bind_text(env))).expect("custom bind should parse");
    assert_eq!(port, 9090);
    assert_eq!(ip, "127.0.0.1");
}

#[test]
fn bad_bind_returns_err_with_value() {
    let env = Some("not-an-addr");
    let err = resolve_bind(env, read(&bind_text(env))).unwrap_err();
    assert!(
        err.contains("not-an-addr"),
        "error should include the bad value, got: {err}"
    );
    assert!(
        err.contains("SOUNDSYNC_BIND"),
        "error should mention env var, got: {err}"
    );
    assert_eq!(
        err,
        "SOUNDSYNC_BIND=\"not-an-addr\" is not a valid socket address: invalid socket address syntax"
    );
}

#[test]
fn web_dir_default() {
    assert_eq!(resolve_web_dir(None), DEFAULT_WEB_DIR);
}

#[test]
fn web_dir_override() {
    assert_eq!(
        resolve_web_dir(Some("/opt/soundsync/webui")),
        "/opt/soundsync/webui"
    );
}

#[test]
fn name_persisted_wins_over_env_and_default() {
    let name = resolve_name(Some("EnvName"), Some("PersistedName".to_string()));
    assert_eq!(name, "PersistedName");
}

#[test]
fn name_env_wins_when_no_persisted() {
    let name = resolve_name(Some("EnvName"), None);
    assert_eq!(name, "EnvName");
}

#[test]
fn name_env_wins_when_persisted_is_empty() {
    let name = resolve_name(Some("EnvName"), Some(String::new()));
    assert_eq!(name, "EnvName");
}

#[test]
fn name_default_when_all_absent() {
    let name = resolve_name(None, None);
    assert_eq!(name, DEFAULT_NAME);
}

#[test]
fn name_default_when_env_empty_and_no_persisted() {
    let name = resolve_name(Some(""), None);
    assert_eq!(name, DEFAULT_NAME);
}
