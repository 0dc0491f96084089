use codex_vault::domain::{
    Action, Cutoff, HistoryEntry, ItemResult, Language, OperationStore, PendingBatch, Preferences,
    VaultError,
};
use codex_vault::ordered::{TextMap, TextSet};
use codex_vault::storage::{
    begin_batch, check_version, complete_batch, decode_preferences, encode_preferences,
    lacks_plan_keys, lock_path, new_batch_id, pending_batches, probe_result, retention_cutoff,
    stored_count, validate_existing_schema, PendingRow, PreferenceRow, StorageBackend, StoredBatch,
    StoredItem,
};

fn ids(values: &[&str]) -> Vec<String> {
    values.iter().map(|value| (*value).to_owned()).collect()
}

fn results(values: &[(&str, ItemResult)]) -> TextMap<ItemResult> {
    let mut map = TextMap::new();
    for (id, value) in values {
        map.insert((*id).to_owned(), value.clone());
    }
    map
}

fn rows_of(batch: &StoredBatch) -> Vec<Result<PendingRow, String>> {
    batch
        .items
        .keys()
        .iter()
        .map(|id| {
            Ok(PendingRow {
                batch_id: batch.id.clone(),
                action: batch.action.clone(),
                node_id: id.clone(),
            })
        })
        .collect()
}

fn unsettled(items: &TextMap<StoredItem>) -> usize {
    items
        .keys()
        .iter()
        .filter(|id| items.get(id).unwrap().result.is_none())
        .count()
}

fn columns(values: &[&str]) -> TextSet {
    let mut set = TextSet::new();
    for value in values {
        set.insert((*value).to_owned());
    }
    set
}

fn first_schema() -> TextMap<TextSet> {
    let mut tables = TextMap::new();
    tables.insert(
        "preferences".to_owned(),
        columns(&[
            "singleton",
            "language",
            "cutoff_kind",
            "cutoff_value",
            "project",
            "archived",
            "updated_at",
        ]),
    );
    tables.insert(
        "operation_batches".to_owned(),
        columns(&["id", "action", "created_at", "planned_count", "status"]),
    );
    tables.insert(
        "operation_items".to_owned(),
        columns(&["batch_id", "session_id", "action", "result", "completed_at"]),
    );
    tables
}

#[test]
fn batch_plan_and_items_are_atomic_and_recoverable() {
    let batch = begin_batch(None, "b1", Action::Archive, &ids(&["a", "b"])).unwrap();
    let pending = pending_batches(&rows_of(&batch)).unwrap();
    assert_eq!(pending.len(), 1);
    assert_eq!(pending[0].batch_id, batch.id);
    assert_eq!(pending[0].node_ids, vec!["a", "b"]);

    let planned = batch.planned_count;
    let incomplete = results(&[("a", ItemResult::Success)]);
    assert_eq!(unsettled(&batch.items), 2);
    assert!(complete_batch(&batch.id, Some(batch.items), &incomplete, 101).is_err());

    let again = begin_batch(None, "b1", Action::Archive, &ids(&["a", "b"])).unwrap();
    let complete = results(&[
        ("a", ItemResult::Success),
        ("b", ItemResult::Interrupted),
    ]);
    let items = complete_batch(&again.id, Some(again.items), &complete, 102).unwrap();
    assert_eq!(unsettled(&items), 0);
    assert_eq!(items.get("a").unwrap().result.as_deref(), Some("success"));
    assert_eq!(items.get("a").unwrap().completed_at, Some(102));
    assert_eq!(
        items.get("b").unwrap().result.as_deref(),
        Some("interrupted")
    );
    assert_eq!(planned, 2);
}

#[test]
fn plan_key_is_idempotent_but_immutable() {
    let first = begin_batch(None, "same", Action::Archive, &ids(&["a", "b"])).unwrap();
    let first_id = first.id.clone();
    let second = begin_batch(Some(first), "other", Action::Archive, &ids(&["a", "b"])).unwrap();
    assert_eq!(first_id, second.id);
    assert_eq!(
        pending_batches(&rows_of(&second)).unwrap()[0].node_ids,
        vec!["a", "b"]
    );
    assert!(begin_batch(Some(second), "other", Action::Archive, &ids(&["a"])).is_err());
    let third = begin_batch(None, "same", Action::Archive, &ids(&["a"])).unwrap();
    assert!(matches!(
        begin_batch(Some(third), "other", Action::Delete, &ids(&["a"])),
        Err(VaultError::Storage(_))
    ));
}

#[test]
fn observed_results_are_not_written_over() {
    let batch = begin_batch(None, "b1", Action::Archive, &ids(&["a"])).unwrap();
    let items =
        complete_batch("b1", Some(batch.items), &results(&[("a", ItemResult::Success)]), 1)
            .unwrap();
    assert!(complete_batch("b1", Some(items), &results(&[("a", ItemResult::Interrupted)]), 2)
        .is_err());
    assert!(complete_batch("b1", None, &results(&[]), 2).is_err());

    let failed = begin_batch(None, "b2", Action::Archive, &ids(&["a"])).unwrap();
    let items = complete_batch(
        "b2",
        Some(failed.items),
        &results(&[("a", ItemResult::Failed("no answer".into()))]),
        1,
    )
    .unwrap();
    let items =
        complete_batch("b2", Some(items), &results(&[("a", ItemResult::Success)]), 2).unwrap();
    assert_eq!(items.get("a").unwrap().result.as_deref(), Some("success"));
}

#[test]
fn preferences_round_trip_custom_cutoff() {
    let value = Preferences {
        language: Language::En,
        cutoff: Cutoff::Absolute(123),
        project: Some("/work".into()),
        archived: Some(true),
    };
    assert_eq!(decode_preferences(Some(encode_preferences(&value))), value);
    for cutoff in [Cutoff::All, Cutoff::RollingDays(7), Cutoff::Absolute(-5)] {
        let value = Preferences {
            cutoff,
            ..Preferences::default()
        };
        assert_eq!(decode_preferences(Some(encode_preferences(&value))), value);
    }
}

#[test]
fn unreadable_preferences_fall_back() {
    assert_eq!(decode_preferences(None), Preferences::default());
    let row = PreferenceRow {
        language: "xx".into(),
        cutoff_kind: "rolling_days".into(),
        cutoff_value: "many".into(),
        project: None,
        archived: Some(0),
    };
    let value = decode_preferences(Some(row));
    assert_eq!(value.cutoff, Cutoff::RollingDays(30));
    assert_eq!(value.archived, Some(false));
}

#[test]
fn incompatible_schema_is_rejected_without_modifying_database() {
    let mut foreign = TextMap::new();
    foreign.insert("foreign_data".to_owned(), columns(&["value"]));
    assert!(validate_existing_schema(&foreign, 1).is_err());
    assert!(validate_existing_schema(&first_schema(), 1).is_ok());
    assert!(validate_existing_schema(&first_schema(), 2).is_err());
    assert!(lacks_plan_keys(&first_schema(), 1));
    assert!(!lacks_plan_keys(&first_schema(), 2));
    assert!(!lacks_plan_keys(&foreign, 0));
    assert!(check_version(2).is_ok());
    assert!(matches!(
        check_version(99),
        Err(VaultError::Storage(message)) if message == "unsupported database schema version 99"
    ));
}

#[test]
fn write_probe_reports_every_failure() {
    assert!(probe_result(Ok(()), Ok(()), Ok(())).is_ok());
    let message = |result: Result<(), VaultError>| match result {
        Err(VaultError::Storage(message)) => message,
        _ => unreachable!(),
    };
    assert_eq!(
        message(probe_result(Err("read only".into()), Ok(()), Ok(()))),
        "read only"
    );
    assert_eq!(
        message(probe_result(Ok(()), Err("a".into()), Err("b".into()))),
        "write probe cleanup failed: rollback failed: a; release failed: b"
    );
    assert_eq!(
        message(probe_result(Err("p".into()), Ok(()), Err("b".into()))),
        "write probe failed: p; cleanup failed: release failed: b"
    );
}

#[test]
fn pending_rows_must_agree() {
    let row = |batch: &str, action: &str, node: &str| {
        Ok(PendingRow {
            batch_id: batch.into(),
            action: action.into(),
            node_id: node.into(),
        })
    };
    let found = pending_batches(&vec![
        row("1", "archive", "a"),
        row("1", "archive", "b"),
        row("2", "delete", "c"),
    ])
    .unwrap();
    assert_eq!(found.len(), 2);
    assert_eq!(found[1].action, Action::Delete);
    assert!(pending_batches(&vec![row("1", "rename", "a")]).is_err());
    assert!(pending_batches(&vec![row("1", "archive", "a"), row("1", "delete", "b")]).is_err());
    assert!(pending_batches(&vec![Err("locked".into())]).is_err());
}

#[test]
fn retention_and_counts_saturate() {
    assert_eq!(retention_cutoff(86_400 * 100, 90), 86_400 * 10);
    assert_eq!(retention_cutoff(i64::MIN, 1), i64::MIN);
    assert_eq!(stored_count(5), 5);
    assert_eq!(stored_count(-1), usize::MAX);
    assert_eq!(lock_path("/state/vault.db"), "/state/vault.db.lock");
    assert_eq!(new_batch_id(255, 16), "batch-ff-10");
}

struct Store;

impl OperationStore for Store {
    fn write_ready(&self) -> Result<(), VaultError> {
        Ok(())
    }
    fn load_preferences(&self) -> Result<Preferences, VaultError> {
        Err(VaultError::Storage("unreadable".into()))
    }
    fn save_preferences(&mut self, _: &Preferences) -> Result<(), VaultError> {
        Ok(())
    }
    fn begin_batch(
        &mut self,
        plan_key: &str,
        _: Action,
        _: i64,
        _: &Vec<String>,
    ) -> Result<String, VaultError> {
        Ok(format!("batch of {plan_key}"))
    }
    fn complete_batch(
        &mut self,
        _: &str,
        _: &TextMap<ItemResult>,
        _: &str,
        _: i64,
    ) -> Result<(), VaultError> {
        Ok(())
    }
    fn pending_batches(&self) -> Result<Vec<PendingBatch>, VaultError> {
        Ok(vec![])
    }
    fn prune(&mut self, _: i64, _: u32) -> Result<usize, VaultError> {
        Ok(3)
    }
    fn history(&self, _: usize) -> Result<Vec<HistoryEntry>, VaultError> {
        Err(VaultError::Storage("unreadable".into()))
    }
}

#[test]
fn a_read_only_backend_refuses_writes_and_reads_defaults() {
    let mut backend: StorageBackend<Store> = StorageBackend::ReadOnly("locked".into());
    assert!(matches!(
        backend.write_ready(),
        Err(VaultError::Storage(message)) if message.contains("locked")
    ));
    assert_eq!(backend.load_preferences().unwrap(), Preferences::default());
    assert!(backend.save_preferences(&Preferences::default()).is_err());
    assert!(backend
        .begin_batch("key", Action::Archive, 1, &vec![])
        .is_err());
    assert!(backend
        .complete_batch("b", &TextMap::new(), "completed", 1)
        .is_err());
    assert!(backend.pending_batches().is_err());
    assert_eq!(backend.prune(1, 1).unwrap(), 0);
    assert!(backend.history(5).unwrap().is_empty());
}

#[test]
fn a_ready_backend_passes_every_call_on() {
    let mut backend = StorageBackend::Ready(Store);
    assert!(backend.write_ready().is_ok());
    assert!(backend.load_preferences().is_err());
    assert_eq!(
        backend
            .begin_batch("key", Action::Archive, 1, &vec![])
            .unwrap(),
        "batch of key"
    );
    assert_eq!(backend.prune(1, 1).unwrap(), 3);
    assert!(backend.history(5).is_err());
}
