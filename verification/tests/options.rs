use codex_vault::codex::locate::ConnectionMode;
use codex_vault::options::{database_path_from, help, Options, Request};

fn arguments(values: &[&str]) -> Vec<Option<String>> {
    values.iter().map(|value| Some((*value).to_owned())).collect()
}

#[test]
fn explicit_state_directory_wins() {
    let value =
        database_path_from(Some("/tmp/codex-vault-test-state".into()), false, None, None).unwrap();
    assert_eq!(value, "/tmp/codex-vault-test-state/codex-vault.db");
}

#[test]
fn help_version_and_explicit_database_do_not_require_home() {
    assert_eq!(
        Options::parse_from(&arguments(&["--help"])),
        Ok(Request::Help)
    );
    assert_eq!(
        Options::parse_from(&arguments(&["--version"])),
        Ok(Request::Version)
    );
    assert_eq!(
        Options::parse_from(&arguments(&["--db", "/tmp/explicit.db"])),
        Ok(Request::Run(Options {
            codex: None,
            database: Some(1),
            connection: ConnectionMode::Auto,
        }))
    );
}

#[test]
fn paths_need_not_be_text() {
    let args = vec![Some("--codex".to_owned()), None];
    assert!(matches!(
        Options::parse_from(&args),
        Ok(Request::Run(Options { codex: Some(1), .. }))
    ));
    assert_eq!(
        Options::parse_from(&vec![None]),
        Err("arguments must be valid UTF-8".into())
    );
}

#[test]
fn unusable_arguments_are_errors() {
    assert_eq!(
        Options::parse_from(&arguments(&["--codex"])),
        Err("--codex requires a non-empty path".into())
    );
    assert_eq!(
        Options::parse_from(&arguments(&["--db", ""])),
        Err("--db requires a non-empty path".into())
    );
    assert_eq!(
        Options::parse_from(&arguments(&["--force"])),
        Err("unknown argument: --force".into())
    );
    assert_eq!(
        Options::parse_from(&arguments(&["--connection", "tcp"])),
        Err("--connection requires auto, attached or managed".into())
    );
}

#[test]
fn connection_modes_are_named() {
    for (name, connection) in [
        ("auto", ConnectionMode::Auto),
        ("attached", ConnectionMode::Attached),
        ("managed", ConnectionMode::Managed),
    ] {
        assert_eq!(
            Options::parse_from(&arguments(&["--connection", name])),
            Ok(Request::Run(Options {
                codex: None,
                database: None,
                connection,
            }))
        );
    }
}

#[test]
fn the_database_follows_the_platform() {
    let home = Some("/home/me".to_owned());
    assert_eq!(
        database_path_from(None, true, None, home.clone()).unwrap(),
        "/home/me/Library/Application Support/codex-vault/codex-vault.db"
    );
    assert_eq!(
        database_path_from(None, false, None, home.clone()).unwrap(),
        "/home/me/.local/state/codex-vault/codex-vault.db"
    );
    assert_eq!(
        database_path_from(None, false, Some("/state".into()), home).unwrap(),
        "/state/codex-vault/codex-vault.db"
    );
    assert!(database_path_from(None, false, None, None).is_err());
}

#[test]
fn help_names_version_and_arguments() {
    let text = help("1.2.3");
    assert!(text.starts_with("Codex Vault 1.2.3\n\nUsage: codex-vault "));
    assert!(text.contains("--connection"));
}
