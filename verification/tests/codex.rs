use codex_vault::codex::catalog::{
    attach_edges, catalog_parent_from_source, catalog_threads, parse_catalog_source, CatalogRow,
    CatalogSnapshot, EdgeRow,
};
use codex_vault::codex::cli::{
    cannot_start, cannot_wait, cli_arguments, cli_command, cli_error_detail, command_failed,
    error_detail, timed_out, tries_again,
};
use codex_vault::codex::locate::{
    connection_target_summary, default_codex_sqlite_dir, default_codex_state_dir,
    find_state_database, latest_versioned_database, select_connection, ActiveConnection,
    ConfigFile, ConnectionMode, DirectoryEntry,
};
use codex_vault::codex::maintenance::{
    audit_rollout_roots, backup_root, deletion_residue, discover_maintenance,
    edge_from_fingerprint, find_current, is_valid_batch_id, remove_session_index_entry,
    residue_at_places, rollout_backup_target, session_index_contains, thread_from_key,
    validate_rollout_path,
    FileState, ResidueCheck,
};
use codex_vault::codex::pins::{
    pin_query, read_pin_states, resolve_pin_partition, validate_explicit_pin_states, PinRow,
};
use codex_vault::codex::rpc::{
    accept_read, match_batch, match_reply, next_page, probe_establishes_support, read_message,
    require_success, source_kinds, BatchStep, PendingRead, RpcOutcome,
};
use codex_vault::codex::scan::Read;
use codex_vault::codex::thread::{map_thread, parse_source, StatusDto, ThreadDto};
use codex_vault::domain::{Action, MaintenanceKind, RuntimeStatus, SessionSource, VaultError};
use codex_vault::ordered::{TextMap, TextSet};
use codex_vault::outside::{parse_timestamp, JsonValue};

fn texts(values: &[&str]) -> TextSet {
    let mut set = TextSet::new();
    for value in values {
        set.insert((*value).to_owned());
    }
    set
}

fn flags(values: &[(&str, bool)]) -> TextMap<bool> {
    let mut map = TextMap::new();
    for (id, value) in values {
        map.insert((*id).to_owned(), *value);
    }
    map
}

fn json(text: &str) -> JsonValue {
    JsonValue::Raw(text.to_owned())
}

fn idle() -> Option<StatusDto> {
    Some(StatusDto {
        kind: "idle".into(),
        active_flags: vec![],
    })
}

fn thread(id: &str, source: &str) -> ThreadDto {
    ThreadDto {
        id: id.into(),
        name: None,
        title: None,
        cwd: Some("/tmp".into()),
        project_id: None,
        recency_at: None,
        updated_at: None,
        created_at: None,
        is_pinned: None,
        parent_thread_id: None,
        source: json(source),
        status: idle(),
    }
}

fn rollout_root_path() -> &'static str {
    "/home/codex/sessions/2026/09/22/rollout-root.jsonl"
}

fn catalog_row(id: &str, title: &str, provider: &str, model: &str, source: &str) -> CatalogRow {
    CatalogRow {
        id: Ok(id.into()),
        title: Ok(Some(title.into())),
        cwd: Ok("/work/project".into()),
        project: Ok(None),
        provider: Ok(Some(provider.into())),
        model: Ok(Some(model.into())),
        archived: Ok(Some(0)),
        pinned: Ok(Some(0)),
        last_activity_ms: Ok(123_000),
        rollout_path: Ok(rollout_root_path().into()),
        source: Ok(source.into()),
    }
}

fn edge(parent: &str, child: &str) -> Result<EdgeRow, String> {
    Ok(EdgeRow {
        parent: Ok(parent.into()),
        child: Ok(child.into()),
        status: Ok("unknown".into()),
    })
}

fn catalog(more: Vec<Result<EdgeRow, String>>) -> CatalogSnapshot {
    let threads = catalog_threads(&vec![
        Ok(catalog_row("root", "Root", "custom", "gpt-5.5", "cli")),
        Ok(catalog_row(
            "child",
            "Child",
            "free",
            "gpt-5.6-sol",
            r#"{"subagent":"review"}"#,
        )),
    ])
    .unwrap();
    let mut edges = vec![edge("root", "child")];
    edges.extend(more);
    attach_edges(threads, &edges).unwrap()
}

fn pin_row(id: &str, pinned: i64) -> Result<PinRow, String> {
    Ok(PinRow {
        id: Ok(id.into()),
        pinned: Ok(Some(pinned)),
    })
}

#[test]
fn auto_connection_attaches_only_when_the_control_socket_exists() {
    let socket = "/run/codex/app-server.sock";
    assert_eq!(
        select_connection(ConnectionMode::Auto, Some(socket), false).unwrap(),
        ActiveConnection::Managed
    );
    assert_eq!(
        select_connection(ConnectionMode::Auto, Some(socket), true).unwrap(),
        ActiveConnection::Attached(socket.into())
    );
}

#[test]
fn attached_connection_fails_closed_without_a_control_socket() {
    let socket = "/run/codex/missing.sock";
    assert!(select_connection(ConnectionMode::Attached, Some(socket), false).is_err());
    assert_eq!(
        select_connection(ConnectionMode::Managed, Some(socket), false).unwrap(),
        ActiveConnection::Managed
    );
}

#[test]
fn sqlite_home_config_precedes_environment_fallback() {
    assert_eq!(
        default_codex_sqlite_dir(
            "/home/codex",
            ConfigFile::Text("sqlite_home = '/catalog'\n".into()),
            Some("/elsewhere".into()),
        )
        .unwrap(),
        "/catalog"
    );
    assert_eq!(
        default_codex_sqlite_dir("/home/codex", ConfigFile::Missing, Some("/elsewhere".into()))
            .unwrap(),
        "/elsewhere"
    );
    assert_eq!(
        default_codex_sqlite_dir("/home/codex", ConfigFile::Missing, None).unwrap(),
        "/home/codex"
    );
}

#[test]
fn unusable_configuration_is_an_error() {
    let read = |text: &str| {
        default_codex_sqlite_dir("/home/codex", ConfigFile::Text(text.into()), None).unwrap_err()
    };
    assert_eq!(
        read("sqlite_home = 3"),
        "sqlite_home in /home/codex/config.toml is not a string"
    );
    assert_eq!(
        read("sqlite_home = ''"),
        "sqlite_home in /home/codex/config.toml is empty"
    );
    assert!(read("sqlite_home = ").starts_with("cannot parse /home/codex/config.toml: "));
    assert!(default_codex_sqlite_dir(
        "/home/codex",
        ConfigFile::Unreadable("permission denied".into()),
        None
    )
    .unwrap_err()
    .contains("permission denied"));
}

#[test]
fn state_directory_follows_the_environment() {
    assert_eq!(
        default_codex_state_dir(Some("/codex".into()), None),
        Ok("/codex".into())
    );
    assert_eq!(
        default_codex_state_dir(None, Some("/home/me".into())),
        Ok("/home/me/.codex".into())
    );
    assert_eq!(
        default_codex_state_dir(Some(String::new()), Some("/home/me".into())),
        Err("CODEX_HOME is empty".into())
    );
    assert!(default_codex_state_dir(None, None).is_err());
}

#[test]
fn the_target_names_user_host_and_places() {
    let summary = connection_target_summary(
        &ActiveConnection::Attached("/run/codex.sock".into()),
        &Some("me".into()),
        &None,
        &Some("box\n".into()),
        &Ok("/home/codex".into()),
        &Err("unknown".into()),
    );
    assert!(summary.contains("me"));
    assert!(summary.contains("box"));
    assert!(summary.contains("app-server=attached"));
    assert!(summary.contains("=/home/codex"));
    assert!(summary.contains("=?"));
}

#[test]
fn state_catalog_supplies_provider_model_relationship_and_recursive_rollout_path() {
    let catalog = catalog(vec![]);
    assert_eq!(catalog.threads.len(), 2);
    let root = catalog.threads.get("root").unwrap();
    assert_eq!(root.provider.as_deref(), Some("custom"));
    assert_eq!(root.model.as_deref(), Some("gpt-5.5"));
    assert_eq!(
        catalog.threads.get("child").unwrap().parent_id.as_deref(),
        Some("root")
    );
    assert_eq!(
        validate_rollout_path("/home/codex", root, &FileState::Regular(3, 1)),
        Ok(3)
    );
    let orphan = "/home/codex/sessions/2025/01/01/orphan.jsonl";
    let orphaned = audit_rollout_roots(
        &texts(&[rollout_root_path(), orphan]),
        &TextSet::new(),
        &catalog,
    );
    assert_eq!(orphaned, vec![orphan]);
}

#[test]
fn rollout_paths_outside_their_tree_are_refused() {
    let catalog = catalog(vec![]);
    let root = catalog.threads.get("root").unwrap();
    assert!(validate_rollout_path("/other", root, &FileState::Regular(3, 1))
        .unwrap_err()
        .contains("outside the expected /other/sessions tree"));
    assert!(
        validate_rollout_path("/home/codex", root, &FileState::Absent("no such file".into()))
            .unwrap_err()
            .contains("no such file")
    );
    assert!(validate_rollout_path("/home/codex", root, &FileState::Special).is_err());
}

#[test]
fn maintenance_discovery_classifies_only_proven_stale_data() {
    let orphan = "/home/codex/sessions/2026/09/21/rollout-root-copy.jsonl";
    let catalog = catalog(vec![edge("gone-parent", "gone-child")]);
    let sessions = texts(&[rollout_root_path(), orphan]);
    let mut files = TextMap::new();
    files.insert(rollout_root_path().to_owned(), FileState::Regular(8, 1));
    files.insert(orphan.to_owned(), FileState::Regular(7, 2));
    let discovery =
        discover_maintenance("/home/codex", &sessions, &TextSet::new(), &files, &catalog).unwrap();
    assert_eq!(discovery.active_rollouts, 2);
    assert_eq!(discovery.archived_rollouts, 0);
    let count = |kind: MaintenanceKind| {
        discovery
            .candidates
            .iter()
            .filter(|value| value.kind == kind)
            .count()
    };
    assert_eq!(count(MaintenanceKind::UnreferencedRollout), 1);
    assert_eq!(count(MaintenanceKind::StaleSpawnEdge), 1);
    assert_eq!(count(MaintenanceKind::MissingRolloutThread), 0);
    assert_eq!(discovery.candidates[0].label, "rollout-root-copy.jsonl");
    assert_eq!(discovery.candidates[0].bytes, 7);
    assert_eq!(
        discovery.candidates[0].project.as_deref(),
        Some("/work/project")
    );
    assert_eq!(
        discovery.candidates[1].fingerprint,
        "gone-parent:gone-child:unknown"
    );
}

#[test]
fn a_missing_rollout_makes_its_thread_a_candidate() {
    let catalog = catalog(vec![]);
    let mut files = TextMap::new();
    files.insert(
        rollout_root_path().to_owned(),
        FileState::Absent("no such file".into()),
    );
    let discovery = discover_maintenance(
        "/home/codex",
        &TextSet::new(),
        &TextSet::new(),
        &files,
        &catalog,
    )
    .unwrap();
    let keys: Vec<&str> = discovery
        .candidates
        .iter()
        .map(|value| value.key.as_str())
        .collect();
    assert_eq!(keys, vec!["thread:child", "thread:root"]);
    files.insert(
        rollout_root_path().to_owned(),
        FileState::Unreadable("denied".into()),
    );
    assert!(discover_maintenance(
        "/home/codex",
        &TextSet::new(),
        &TextSet::new(),
        &files,
        &catalog,
    )
    .is_err());
    assert_eq!(
        find_current(&discovery.candidates, &discovery.candidates[1]).unwrap(),
        discovery.candidates[1]
    );
    let mut changed = discovery.candidates[1].clone();
    changed.fingerprint.push('!');
    assert!(find_current(&discovery.candidates, &changed).is_err());
}

#[test]
fn maintenance_cleanup_backs_up_files_database_and_index() {
    let home = "/home/codex";
    let backup = backup_root(home, "test-batch").unwrap();
    assert_eq!(backup, "/home/codex/codex-vault-backups/test-batch");
    assert_eq!(
        rollout_backup_target(
            home,
            &backup,
            "/home/codex/sessions/2026/09/21/orphan.jsonl"
        )
        .unwrap(),
        "/home/codex/codex-vault-backups/test-batch/rollouts/sessions/2026/09/21/orphan.jsonl"
    );
    assert!(rollout_backup_target(home, &backup, "/etc/passwd").is_err());
    assert_eq!(thread_from_key("thread:root").unwrap(), "root");
    assert!(thread_from_key("rollout:root").is_err());
    let (index, removed) = remove_session_index_entry(
        &vec!["{\"id\":\"root\"}".into(), "{\"id\":\"keep\"}".into()],
        "root",
    );
    assert!(removed);
    assert_eq!(index, vec!["{\"id\":\"keep\"}"]);
    let (unchanged, removed) = remove_session_index_entry(&index, "root");
    assert!(!removed);
    assert_eq!(unchanged, index);
}

#[test]
fn batch_ids_stay_inside_the_backup_directory() {
    assert!(is_valid_batch_id("batch-1-2_x"));
    assert!(!is_valid_batch_id(""));
    assert!(!is_valid_batch_id("../etc"));
    assert!(!is_valid_batch_id("a/b"));
    assert!(backup_root("/home/codex", "..").is_err());
}

#[test]
fn delete_verification_checks_catalog_file_indexes_relations_and_history() {
    let line = "{\"id\":\"root\",\"thread_name\":\"Root\",\"updated_at\":\"now\"}";
    let listed = session_index_contains("index", &vec![Ok(line.into())], "root");
    assert_eq!(listed, Ok(true));
    let check = |name: &str, found: Result<bool, String>| ResidueCheck {
        name: name.into(),
        found,
    };
    let residue = deletion_residue(&vec![
        check("rollout file", Ok(true)),
        check("threads.id", Ok(true)),
        check("session_index.jsonl", listed),
        check("thread_items", Ok(true)),
        check("thread_realtime_items", Ok(false)),
    ])
    .unwrap();
    assert!(residue.iter().any(|value| value == "rollout file"));
    assert!(residue.iter().any(|value| value == "threads.id"));
    assert!(residue.iter().any(|value| value == "session_index.jsonl"));
    assert!(residue.iter().any(|value| value == "thread_items"));
    assert_eq!(residue.len(), 4);
    assert!(deletion_residue(&vec![
        check("rollout file", Ok(false)),
        check("session_index.jsonl", session_index_contains("index", &vec![], "root")),
    ])
    .unwrap()
    .is_empty());
    assert!(deletion_residue(&vec![check("threads.id", Err("locked".into()))]).is_err());
}

#[test]
fn a_broken_session_index_is_never_taken_for_empty() {
    assert!(session_index_contains("index", &vec![Ok("{".into())], "root").is_err());
    assert!(session_index_contains("index", &vec![Err("cut short".into())], "root").is_err());
    assert_eq!(
        session_index_contains("index", &vec![Ok("{\"id\":\"other\"}".into())], "root"),
        Ok(false)
    );
}

#[test]
fn edge_fingerprints_are_read_back() {
    let edge = edge_from_fingerprint("parent:child:open:again").unwrap();
    assert_eq!(edge.parent, "parent");
    assert_eq!(edge.child, "child");
    assert_eq!(edge.status, "open:again");
    assert!(edge_from_fingerprint("parent").is_err());
}

#[test]
fn recognizes_interactive_and_exec_sources() {
    assert_eq!(parse_source(&json("\"cli\"")), SessionSource::Cli);
    assert_eq!(parse_source(&json("\"vscode\"")), SessionSource::Vscode);
    assert_eq!(parse_source(&json("\"exec\"")), SessionSource::Exec);
    for source in ["review", "compact", "memory_consolidation"] {
        assert_eq!(
            parse_source(&json(&format!("{{\"subAgent\": \"{source}\"}}"))),
            SessionSource::Descendant
        );
    }
    assert_eq!(
        parse_source(&json("{\"subAgent\": {\"other\": \"future\"}}")),
        SessionSource::Descendant
    );
}

#[test]
fn maps_parent_from_subagent_source() {
    let mut dto = thread(
        "child",
        "{\"subAgent\":{\"thread_spawn\":{\"parent_thread_id\":\"root\",\"depth\":1}}}",
    );
    dto.recency_at = Some(JsonValue::Integer(1));
    dto.is_pinned = Some(false);
    let node = map_thread(dto, false, SessionSource::Descendant).unwrap().0;
    assert_eq!(node.parent_id.as_deref(), Some("root"));
}

#[test]
fn rejects_overlapping_pin_filter_results() {
    let mut dto = thread("root", "\"cli\"");
    dto.name = Some("root".into());
    dto.recency_at = Some(JsonValue::Integer(1));
    let node = map_thread(dto, false, SessionSource::Cli).unwrap().0;
    let expected = texts(&[&node.id]);
    let pinned = texts(&["root"]);
    let unpinned = texts(&["root"]);
    assert!(resolve_pin_partition(&expected, &TextMap::new(), &pinned, &unpinned).is_err());
}

#[test]
fn complete_explicit_pin_fields_are_still_checked_against_filters() {
    let expected = texts(&["one", "two"]);
    let explicit = flags(&[("one", false), ("two", true)]);
    let pinned = texts(&["one"]);
    let unpinned = texts(&["two"]);
    assert!(resolve_pin_partition(&expected, &explicit, &pinned, &unpinned).is_err());
    let agreed = resolve_pin_partition(&expected, &explicit, &unpinned, &pinned).unwrap();
    assert_eq!(agreed, explicit);
}

#[test]
fn ignored_pin_filters_use_latest_read_only_state_database() {
    let entry = |name: &str| {
        Ok(DirectoryEntry {
            name: Some(name.into()),
            regular: Ok(true),
        })
    };
    let listing = Ok(vec![entry("state_5.sqlite"), entry("state_4.sqlite")]);
    assert_eq!(
        find_state_database("/state", &listing).unwrap(),
        "/state/state_5.sqlite"
    );
    let expected = texts(&["root", "child"]);
    let overlapping = texts(&["root", "child"]);
    assert!(
        resolve_pin_partition(&expected, &TextMap::new(), &overlapping, &overlapping).is_err()
    );
    let states = read_pin_states(
        &vec![pin_row("root", 0), pin_row("child", 1)],
        &expected,
    )
    .unwrap();
    assert_eq!(states.get("root"), Some(&false));
    assert_eq!(states.get("child"), Some(&true));
}

#[test]
fn pin_state_fallback_fails_closed_for_missing_or_incompatible_data() {
    let expected = texts(&["root"]);
    assert!(find_state_database("/state", &Ok(vec![])).is_err());
    assert!(find_state_database("/state", &Err("gone".into())).is_err());
    assert!(read_pin_states(&vec![], &expected).is_err());
    assert!(read_pin_states(&vec![pin_row("root", 2)], &expected).is_err());
    assert!(read_pin_states(&vec![Err("not a database".into())], &expected).is_err());
    assert!(read_pin_states(&vec![pin_row("other", 0)], &expected).is_err());
    assert_eq!(
        read_pin_states(&vec![pin_row("root", 1)], &expected).unwrap(),
        flags(&[("root", true)])
    );
}

#[test]
fn fallback_validates_all_scanned_ids_and_explicit_conflicts() {
    let rows = vec![pin_row("root", 0), pin_row("child", 1)];
    let expected = texts(&["root", "child"]);
    let states = read_pin_states(&rows, &expected).unwrap();
    assert!(validate_explicit_pin_states(&states, &flags(&[("root", true)])).is_err());
    assert!(validate_explicit_pin_states(&states, &flags(&[("child", true)])).is_ok());

    let all_scanned = texts(&["root", "child", "other"]);
    assert!(read_pin_states(&rows, &all_scanned).is_err());
}

#[test]
fn pin_queries_hold_one_mark_per_id() {
    let query = pin_query(3);
    assert_eq!(query.matches('?').count(), 3);
}

#[test]
fn only_regular_versioned_databases_are_found() {
    let entry = |name: Option<&str>, regular: Result<bool, String>| {
        Ok(DirectoryEntry {
            name: name.map(str::to_owned),
            regular,
        })
    };
    let entries = vec![
        entry(Some("thread_history_2.sqlite"), Ok(true)),
        entry(Some("thread_history_11.sqlite"), Ok(false)),
        entry(Some("thread_history_10.sqlite"), Ok(true)),
        entry(Some("thread_history_x.sqlite"), Ok(true)),
        entry(None, Ok(true)),
        Err("unreadable entry".into()),
    ];
    assert_eq!(
        latest_versioned_database("/state", &entries, "thread_history_"),
        Some("/state/thread_history_10.sqlite".into())
    );
    assert!(find_state_database("/state", &Ok(entries)).is_err());
}

#[test]
fn parses_numeric_rfc3339_and_created_at_timestamps() {
    assert_eq!(parse_timestamp(&json("\"123\"")), Some(123));
    assert_eq!(parse_timestamp(&json("\"1970-01-01T00:02:03Z\"")), Some(123));
    let mut dto = thread("root", "\"cli\"");
    dto.created_at = Some(json("\"1970-01-01T00:02:03Z\""));
    dto.is_pinned = Some(false);
    assert_eq!(
        map_thread(dto, false, SessionSource::Cli)
            .unwrap()
            .0
            .last_activity,
        Some(123)
    );
    assert_eq!(parse_timestamp(&json("\"1970-01-01T01:00:00+01:00\"")), Some(0));
    assert_eq!(parse_timestamp(&json("\"yesterday\"")), None);
    assert_eq!(parse_timestamp(&json("true")), None);
    assert_eq!(parse_timestamp(&JsonValue::Integer(7)), Some(7));
}

#[test]
fn unusable_threads_are_protocol_errors() {
    assert!(matches!(
        map_thread(thread("  ", "\"cli\""), false, SessionSource::Cli),
        Err(VaultError::Protocol(message)) if message == "thread id is empty"
    ));
    let mut homeless = thread("root", "\"cli\"");
    homeless.cwd = None;
    assert!(matches!(
        map_thread(homeless, false, SessionSource::Cli),
        Err(VaultError::Protocol(message)) if message == "thread root has no cwd"
    ));
    let mut odd = thread("root", "\"cli\"");
    odd.updated_at = Some(json("[1, 2]"));
    let (node, warnings) = map_thread(odd, true, SessionSource::Cli).unwrap();
    assert_eq!(node.last_activity, None);
    assert_eq!(node.status, RuntimeStatus::Idle);
    assert!(node.archived);
    assert_eq!(
        warnings,
        vec!["thread root has an invalid updatedAt value: [1,2]"]
    );
}

#[test]
fn unknown_sources_and_missing_methods_fail_capability_checks() {
    assert!(!parse_source(&json("\"futureHost\"")).is_known());
    assert!(!parse_source(&json("\"subAgentFuture\"")).is_known());
    assert!(!parse_source(&json("null")).is_known());
    assert!(!probe_establishes_support(&RpcOutcome::Error(
        Some(-32601),
        "method not found".into(),
    )));
    assert!(probe_establishes_support(&RpcOutcome::Error(
        Some(-32600),
        "invalid thread id".into(),
    )));
    assert!(probe_establishes_support(&RpcOutcome::Error(
        Some(-32602),
        "invalid params".into(),
    )));
    assert!(!probe_establishes_support(&RpcOutcome::Error(
        Some(-32603),
        "internal error".into(),
    )));
    assert!(!probe_establishes_support(&RpcOutcome::Error(
        None,
        "permission denied".into(),
    )));
    assert!(!probe_establishes_support(&RpcOutcome::Success("{}".into())));
}

#[test]
fn catalog_sources_name_the_parent() {
    let source = parse_catalog_source(
        r#"{"subagent":{"thread_spawn":{"parent_thread_id":"root"}}}"#,
    );
    assert_eq!(catalog_parent_from_source(&source).as_deref(), Some("root"));
    assert_eq!(parse_source(&source), SessionSource::Descendant);
    assert_eq!(parse_source(&parse_catalog_source("cli")), SessionSource::Cli);
    assert_eq!(catalog_parent_from_source(&parse_catalog_source("cli")), None);
    assert_eq!(JsonValue::Text("cli".into()).string_at(""), Some("cli".into()));
    assert_eq!(json("\"cli\"").string_at(""), Some("cli".into()));
    assert_eq!(JsonValue::Text("cli".into()).string_at("/a"), None);
}

#[test]
fn one_unreadable_row_stops_the_catalog() {
    let mut broken = catalog_row("root", "Root", "custom", "gpt-5.5", "cli");
    broken.cwd = Err("no text".into());
    assert!(catalog_threads(&vec![Ok(broken)]).is_err());
    assert!(catalog_threads(&vec![Err("database is locked".into())]).is_err());
    let mut doubtful = catalog_row("root", "Root", "custom", "gpt-5.5", "cli");
    doubtful.pinned = Ok(Some(2));
    assert!(catalog_threads(&vec![Ok(doubtful)]).is_err());
}

#[test]
fn mutations_use_official_cli_commands_and_force_only_delete() {
    let mut log = String::new();
    for (action, id) in [
        (Action::Archive, "archive-id"),
        (Action::Restore, "restore-id"),
        (Action::Delete, "delete-id"),
    ] {
        for argument in cli_arguments(action, id).unwrap() {
            log.push_str(&argument);
            log.push('\n');
        }
    }
    assert_eq!(
        log,
        "archive\narchive-id\nunarchive\nrestore-id\ndelete\n--force\ndelete-id\n"
    );
    assert!(matches!(
        cli_arguments(Action::Cleanup, "x"),
        Err(VaultError::Blocked(_))
    ));
    assert_eq!(cli_command(Action::Restore).unwrap(), "unarchive");
}

#[test]
fn cli_mutation_failure_and_timeout_preserve_actionable_errors() {
    let stderr = b"synthetic CLI failure\n".to_vec();
    let error = command_failed("archive", "exit status: 7", &stderr, &vec![]);
    assert!(matches!(error, VaultError::Command(_)));
    assert_eq!(
        error.message(),
        "Codex CLI command failed: codex archive exited with exit status: 7: synthetic CLI failure"
    );
    assert!(timed_out("delete").message().contains("timed out"));
    assert!(cannot_start("delete", "not found").message().contains("not found"));
    assert!(cannot_wait("delete", "interrupted").message().contains("interrupted"));
}

#[test]
fn command_output_is_shown_shortened_on_one_line() {
    assert_eq!(error_detail("  a\n\tb  "), ": a b");
    assert_eq!(error_detail(" \n"), "");
    assert_eq!(cli_error_detail(&vec![], &b"told".to_vec()), ": told");
    assert_eq!(cli_error_detail(&vec![0xff, b'x'], &vec![]), ": \u{fffd}x");
    let long = "é".repeat(600);
    let shown = error_detail(&long);
    assert_eq!(shown.chars().count(), 2 + 512 + 1);
    assert!(shown.ends_with('…'));
}

#[test]
fn replies_are_matched_to_their_request() {
    let reply = read_message(r#"{"id":7,"result":{"data":[]}}"#).unwrap();
    assert_eq!(
        match_reply(&reply, 7, "thread/list"),
        Some(Ok(RpcOutcome::Success("{\"data\":[]}".into())))
    );
    assert_eq!(match_reply(&reply, 8, "thread/list"), None);
    let asked = read_message(r#"{"id":7,"method":"ask","params":{}}"#).unwrap();
    assert_eq!(match_reply(&asked, 7, "thread/list"), None);
    let empty = read_message(r#"{"id":7}"#).unwrap();
    assert_eq!(
        match_reply(&empty, 7, "thread/list"),
        Some(Err(VaultError::Protocol("thread/list: missing result".into())))
    );
    let failed = read_message(r#"{"id":7,"error":{"code":-32600,"message":"bad"}}"#).unwrap();
    assert_eq!(
        match_reply(&failed, 7, "thread/list"),
        Some(Ok(RpcOutcome::Error(Some(-32600), "bad".into())))
    );
    assert!(matches!(read_message("{"), Err(VaultError::Protocol(_))));
    assert_eq!(
        require_success(RpcOutcome::Success("{}".into()), "thread/list"),
        Ok("{}".into())
    );
    assert!(matches!(
        require_success(RpcOutcome::Error(None, "bad".into()), "thread/list"),
        Err(VaultError::Protocol(message)) if message.contains("bad")
    ));
}

#[test]
fn batch_replies_arrive_in_any_order() {
    let mut pending = vec![
        PendingRead {
            request_id: 5,
            thread_id: "a".into(),
        },
        PendingRead {
            request_id: 6,
            thread_id: "b".into(),
        },
    ];
    let unrelated = read_message(r#"{"id":9,"result":{}}"#).unwrap();
    assert!(matches!(match_batch(&mut pending, &unrelated), BatchStep::Ignore));
    assert_eq!(pending.len(), 2);
    let second = read_message(r#"{"id":6,"result":{"thread":{}}}"#).unwrap();
    assert!(matches!(
        match_batch(&mut pending, &second),
        BatchStep::Parse(id, text) if id == "b" && text == "{\"thread\":{}}"
    ));
    assert_eq!(pending.len(), 1);
    let first = read_message(r#"{"id":5,"error":{"code":1,"message":"gone"}}"#).unwrap();
    assert!(matches!(
        match_batch(&mut pending, &first),
        BatchStep::Settled(id, Read::Failed(_)) if id == "a"
    ));
    assert!(pending.is_empty());
}

#[test]
fn a_read_must_give_the_thread_that_was_asked_for() {
    assert!(matches!(
        accept_read("a", Ok(thread("a", "\"cli\""))),
        Read::Found(dto) if dto.id == "a"
    ));
    assert!(matches!(
        accept_read("a", Ok(thread("b", "\"cli\""))),
        Read::Failed(VaultError::Protocol(_))
    ));
    assert!(matches!(
        accept_read("a", Err("no thread".into())),
        Read::Failed(VaultError::Protocol(_))
    ));
}

#[test]
fn a_repeated_cursor_ends_the_listing_with_an_error() {
    let mut seen = TextSet::new();
    assert_eq!(
        next_page(&mut seen, Some("one".into())),
        Ok(Some("one".into()))
    );
    assert_eq!(next_page(&mut seen, None), Ok(None));
    assert!(matches!(
        next_page(&mut seen, Some("one".into())),
        Err(VaultError::Protocol(_))
    ));
}

#[test]
fn listings_name_their_source_kinds() {
    assert_eq!(source_kinds(false, false), vec!["cli", "vscode"]);
    let all = source_kinds(false, true);
    assert_eq!(all, source_kinds(true, false));
    assert_eq!(all.len(), 10);
    assert_eq!(all[9], "unknown");
}

fn one_thread(rollout: &str) -> CatalogSnapshot {
    let mut row = catalog_row("root", "Root", "custom", "gpt-5.5", "cli");
    row.rollout_path = Ok(rollout.into());
    attach_edges(catalog_threads(&vec![Ok(row)]).unwrap(), &vec![]).unwrap()
}

#[test]
fn a_rollout_is_referenced_in_whatever_spelling() {
    for (rollout, found) in [
        ("h/sessions/s.jsonl", "h//sessions/s.jsonl"),
        ("h/./sessions//s.jsonl", "h/sessions/s.jsonl"),
        ("./h/sessions/s.jsonl", ".//h/sessions/s.jsonl"),
        ("/h/sessions/s.jsonl", "/h//sessions/./s.jsonl"),
    ] {
        let mut files = TextMap::new();
        files.insert(found.to_owned(), FileState::Regular(1, 1));
        let discovery = discover_maintenance(
            "h//",
            &texts(&[found]),
            &TextSet::new(),
            &files,
            &one_thread(rollout),
        )
        .unwrap();
        assert!(discovery.candidates.is_empty(), "{found}");
    }
    for (rollout, found) in [
        ("h/sessions/s.jsonl", "./h/sessions/s.jsonl"),
        ("h/sessions/s.jsonl", "/h/sessions/s.jsonl"),
        ("h/sessions/../s.jsonl", "h/s.jsonl"),
    ] {
        assert_eq!(
            audit_rollout_roots(&texts(&[found]), &TextSet::new(), &one_thread(rollout)),
            vec![found]
        );
    }
}

#[test]
fn unreferenced_files_come_by_their_components() {
    let sessions = texts(&["/s/a-b/x.jsonl", "/s/a/x.jsonl", "/s/a.jsonl"]);
    assert_eq!(
        audit_rollout_roots(&sessions, &TextSet::new(), &one_thread("/s/other.jsonl")),
        vec!["/s/a/x.jsonl", "/s/a-b/x.jsonl", "/s/a.jsonl"]
    );
    let mut files = TextMap::new();
    files.insert("/s/a-b/x.jsonl".to_owned(), FileState::Unreadable("second".into()));
    files.insert("/s/a/x.jsonl".to_owned(), FileState::Unreadable("first".into()));
    assert_eq!(
        discover_maintenance(
            "/",
            &sessions,
            &TextSet::new(),
            &files,
            &one_thread("/s/other.jsonl")
        )
        .err(),
        Some("cannot inspect /s/a/x.jsonl: first".into())
    );
}

#[test]
fn a_deletion_is_complete_only_after_every_place_was_searched() {
    let none = |count: usize| -> Vec<Result<bool, String>> { (0..count).map(|_| Ok(false)).collect() };
    assert_eq!(residue_at_places(false, &none(7)), Ok(vec![]));
    assert_eq!(residue_at_places(true, &none(10)), Ok(vec![]));
    assert_eq!(
        residue_at_places(true, &none(7)),
        Err("cannot verify thread_items".into())
    );
    let mut found = none(7);
    found[0] = Ok(true);
    found[3] = Ok(true);
    assert_eq!(
        residue_at_places(false, &found),
        Ok(vec!["rollout file".into(), "thread_attachments.thread_id".into()])
    );
    found[1] = Err("unreadable".into());
    assert_eq!(residue_at_places(false, &found), Err("unreadable".into()));
}

#[test]
fn only_a_program_that_is_being_written_is_started_again() {
    assert!(tries_again(Some(26), 1));
    assert!(tries_again(Some(26), 3));
    assert!(!tries_again(Some(26), 4));
    assert!(!tries_again(Some(2), 1));
    assert!(!tries_again(None, 1));
}
