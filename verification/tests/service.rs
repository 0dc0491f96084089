use std::collections::VecDeque;
use std::sync::{Arc, Mutex};

use codex_vault::domain::{
    Action, Cutoff, Filter, HistoryEntry, ItemResult, MaintenanceAck, MaintenanceCandidate,
    MaintenanceKind, MutationAck, OperationStore, PendingBatch, PlannedTree, Preferences,
    RuntimeStatus, ScanSnapshot, SessionGateway, SessionNode, SessionSource, VaultError,
};
use codex_vault::ordered::{TextMap, TextSet};
use codex_vault::service::{
    conclude, epoch_from_seconds, has_reached, maintenance_plan, now_epoch, outcome_of_call,
    plan_key, plan_key_nodes, settle, status_of_batch, VaultService,
};

#[derive(Clone)]
struct Gateway {
    scans: Arc<Mutex<VecDeque<ScanSnapshot>>>,
    calls: Arc<Mutex<Vec<String>>>,
    candidates: Arc<Mutex<Vec<MaintenanceCandidate>>>,
}

impl SessionGateway for Gateway {
    fn scan(&mut self) -> Result<ScanSnapshot, VaultError> {
        match self.scans.lock().unwrap().pop_front() {
            Some(snapshot) => Ok(snapshot),
            None => Err(VaultError::Unavailable("no more scans".into())),
        }
    }

    fn mutate(&mut self, _: Action, thread_id: &str) -> Result<MutationAck, VaultError> {
        self.calls.lock().unwrap().push(thread_id.to_owned());
        Ok(MutationAck {
            response_received: true,
            notification_seen: true,
        })
    }

    fn maintenance_candidates(&self) -> Vec<MaintenanceCandidate> {
        self.candidates.lock().unwrap().clone()
    }

    fn cleanup(
        &mut self,
        batch_id: &str,
        candidate: &MaintenanceCandidate,
    ) -> Result<MaintenanceAck, VaultError> {
        self.candidates
            .lock()
            .unwrap()
            .retain(|value| value.key != candidate.key);
        self.calls.lock().unwrap().push(candidate.key.clone());
        Ok(MaintenanceAck {
            backup_path: format!("/backups/{batch_id}"),
        })
    }
}

#[derive(Default)]
struct Store {
    began: bool,
    fail_begin: bool,
    fail_complete: bool,
    results: Vec<(String, String)>,
    pending: Vec<PendingBatch>,
}

impl OperationStore for Store {
    fn write_ready(&self) -> Result<(), VaultError> {
        Ok(())
    }
    fn load_preferences(&self) -> Result<Preferences, VaultError> {
        Ok(Preferences::default())
    }
    fn save_preferences(&mut self, _: &Preferences) -> Result<(), VaultError> {
        Ok(())
    }
    fn begin_batch(
        &mut self,
        _: &str,
        _: Action,
        _: i64,
        _: &Vec<String>,
    ) -> Result<String, VaultError> {
        if self.fail_begin {
            return Err(VaultError::Storage("read only".into()));
        }
        self.began = true;
        Ok("batch".into())
    }
    fn complete_batch(
        &mut self,
        _: &str,
        results: &TextMap<ItemResult>,
        _: &str,
        _: i64,
    ) -> Result<(), VaultError> {
        if self.fail_complete {
            return Err(VaultError::Storage("result transaction failed".into()));
        }
        for id in results.keys() {
            let value = results.get(id).unwrap();
            self.results.push((id.clone(), value.as_storage_value()));
        }
        Ok(())
    }
    fn pending_batches(&self) -> Result<Vec<PendingBatch>, VaultError> {
        Ok(self
            .pending
            .iter()
            .map(|batch| PendingBatch {
                batch_id: batch.batch_id.clone(),
                action: batch.action,
                node_ids: batch.node_ids.clone(),
            })
            .collect())
    }
    fn prune(&mut self, _: i64, _: u32) -> Result<usize, VaultError> {
        Ok(0)
    }
    fn history(&self, _: usize) -> Result<Vec<HistoryEntry>, VaultError> {
        Ok(vec![])
    }
}

fn gateway(scans: Vec<ScanSnapshot>) -> Gateway {
    Gateway {
        scans: Arc::new(Mutex::new(VecDeque::from(scans))),
        calls: Arc::new(Mutex::new(vec![])),
        candidates: Arc::new(Mutex::new(vec![])),
    }
}

fn texts(values: &[&str]) -> TextSet {
    let mut set = TextSet::new();
    for value in values {
        set.insert((*value).to_owned());
    }
    set
}

fn session(id: &str, parent: Option<&str>, archived: bool) -> SessionNode {
    SessionNode {
        id: id.into(),
        title: id.into(),
        project: None,
        provider: None,
        model: None,
        cwd: "/tmp".into(),
        rollout_bytes: None,
        last_activity: Some(1),
        archived,
        pinned: Some(false),
        status: RuntimeStatus::Idle,
        parent_id: parent.map(str::to_owned),
        source: match parent {
            Some(_) => SessionSource::Descendant,
            None => SessionSource::Cli,
        },
    }
}

fn snapshot(archived: bool) -> ScanSnapshot {
    ScanSnapshot {
        nodes: vec![
            session("root", None, archived),
            session("child", Some("root"), archived),
        ],
        write_capable: true,
        relation_complete: true,
        diagnostics: vec![],
    }
}

fn every_item_is(items: &TextMap<ItemResult>, expected: ItemResult) -> bool {
    items.keys().iter().all(|id| items.get(id) == Some(&expected))
}

#[test]
fn persists_plan_before_descendant_first_mutation_and_verifies() {
    let gateway = gateway(vec![snapshot(false), snapshot(false), snapshot(true)]);
    let calls = gateway.calls.clone();
    let mut service = VaultService::new(gateway, Store::default());
    service.refresh().unwrap();
    let selected = texts(&["root"]);
    let preview = service.preview(&selected, Action::Archive);
    let result = service.execute(&preview, None).unwrap();
    assert!(result.is_complete_success());
    assert_eq!(*calls.lock().unwrap(), vec!["child", "root"]);
    assert!(service.store().began);
}

#[test]
fn refuses_changed_tree_after_preview() {
    let mut changed = snapshot(false);
    changed.nodes[0].pinned = Some(true);
    let mut service = VaultService::new(
        gateway(vec![snapshot(false), changed]),
        Store::default(),
    );
    service.refresh().unwrap();
    let preview = service.preview(&texts(&["root"]), Action::Archive);
    assert!(matches!(
        service.execute(&preview, None),
        Err(VaultError::StalePreview)
    ));
}

#[test]
fn exact_delete_count_is_required_before_write() {
    let gateway = gateway(vec![snapshot(true), snapshot(true)]);
    let calls = gateway.calls.clone();
    let mut service = VaultService::new(gateway, Store::default());
    service.refresh().unwrap();
    let preview = service.preview(&texts(&["root"]), Action::Delete);
    assert!(matches!(
        service.execute(&preview, Some(1)),
        Err(VaultError::ConfirmationMismatch)
    ));
    assert!(calls.lock().unwrap().is_empty());
}

#[test]
fn failed_plan_persistence_prevents_every_codex_write() {
    let gateway = gateway(vec![snapshot(false), snapshot(false)]);
    let calls = gateway.calls.clone();
    let store = Store {
        fail_begin: true,
        ..Store::default()
    };
    let mut service = VaultService::new(gateway, store);
    service.refresh().unwrap();
    let preview = service.preview(&texts(&["root"]), Action::Archive);
    assert!(matches!(
        service.execute(&preview, None),
        Err(VaultError::Storage(_))
    ));
    assert!(calls.lock().unwrap().is_empty());
}

#[test]
fn rejects_forged_action_nodes_count_and_duplicate_roots() {
    for forge in 0..4 {
        let mut service = VaultService::new(
            gateway(vec![snapshot(false), snapshot(false)]),
            Store::default(),
        );
        service.refresh().unwrap();
        let mut preview = service.preview(&texts(&["root"]), Action::Archive);
        match forge {
            0 => preview.action = Action::Delete,
            1 => {
                preview.trees[0].node_ids.pop();
            }
            2 => preview.impacted_count += 1,
            3 => {
                let copy = preview.trees[0].clone();
                preview.trees.push(copy);
                preview.impacted_count *= 2;
            }
            _ => unreachable!(),
        }
        assert!(matches!(
            service.execute(&preview, Some(preview.impacted_count)),
            Err(VaultError::StalePreview)
        ));
    }
}

#[test]
fn transactional_result_failure_is_reported_as_interrupted() {
    let mut service = VaultService::new(
        gateway(vec![snapshot(false), snapshot(false), snapshot(true)]),
        Store {
            fail_complete: true,
            ..Store::default()
        },
    );
    service.refresh().unwrap();
    let preview = service.preview(&texts(&["root"]), Action::Archive);
    let result = service.execute(&preview, None).unwrap();
    assert!(!result.is_complete_success());
    assert!(every_item_is(&result.items, ItemResult::Interrupted));
    assert_eq!(result.warnings.len(), 1);
}

#[test]
fn incomplete_final_scan_never_confirms_success() {
    let mut incomplete = snapshot(true);
    incomplete.relation_complete = false;
    incomplete.write_capable = false;
    let mut service = VaultService::new(
        gateway(vec![snapshot(false), snapshot(false), incomplete]),
        Store::default(),
    );
    service.refresh().unwrap();
    let preview = service.preview(&texts(&["root"]), Action::Archive);
    let result = service.execute(&preview, None).unwrap();
    assert!(!result.is_complete_success());
    assert!(every_item_is(&result.items, ItemResult::Interrupted));
    assert!(result.warnings[0].contains("incomplete"));
}

#[test]
fn recovery_reconciles_every_action_against_current_snapshot() {
    let deleted = ScanSnapshot {
        nodes: vec![],
        write_capable: true,
        relation_complete: true,
        diagnostics: vec![],
    };
    for (action, current) in [
        (Action::Archive, snapshot(true)),
        (Action::Restore, snapshot(false)),
        (Action::Delete, deleted),
    ] {
        let pending = PendingBatch {
            batch_id: "old".into(),
            action,
            node_ids: vec!["child".into(), "root".into()],
        };
        let mut service = VaultService::new(
            gateway(vec![current]),
            Store {
                pending: vec![pending],
                ..Store::default()
            },
        );
        service.refresh().unwrap();
        assert_eq!(service.recover_and_prune().unwrap(), (1, 0));
        assert_eq!(service.store().results.len(), 2);
        assert!(service
            .store()
            .results
            .iter()
            .all(|(_, value)| value == "success"));
    }
}

#[test]
fn protected_trees_are_previewed_as_blocked() {
    let mut protected = snapshot(false);
    protected.nodes[1].pinned = Some(true);
    let mut service = VaultService::new(gateway(vec![protected]), Store::default());
    service.refresh().unwrap();
    let preview = service.preview(&texts(&["root"]), Action::Archive);
    assert!(preview.trees.is_empty());
    assert_eq!(preview.impacted_count, 0);
    assert_eq!(preview.blocked.len(), 1);
    assert_eq!(preview.blocked[0].0, "root");
}

#[test]
fn filtering_uses_the_scanned_trees() {
    let mut service = VaultService::new(gateway(vec![snapshot(true)]), Store::default());
    assert!(service.trees().is_empty());
    service.refresh().unwrap();
    assert_eq!(service.trees().len(), 1);
    let archived = Filter {
        cutoff: Cutoff::All,
        project: None,
        query: None,
        archived: Some(true),
    };
    assert_eq!(service.filtered(&archived).len(), 1);
    let active = Filter {
        archived: Some(false),
        ..archived
    };
    assert!(service.filtered(&active).is_empty());
}

#[test]
fn failed_final_scan_interrupts_every_item() {
    let mut service = VaultService::new(
        gateway(vec![snapshot(false), snapshot(false)]),
        Store::default(),
    );
    service.refresh().unwrap();
    let preview = service.preview(&texts(&["root"]), Action::Archive);
    let result = service.execute(&preview, None).unwrap();
    assert!(!result.is_complete_success());
    assert!(every_item_is(&result.items, ItemResult::Interrupted));
    assert!(result.warnings[0].contains("no more scans"));
}

#[test]
fn success_is_only_what_the_final_scan_shows() {
    let mut calls: TextMap<ItemResult> = TextMap::new();
    calls.insert("child".into(), ItemResult::Failed("no answer".into()));
    calls.insert("root".into(), ItemResult::Interrupted);
    let mut seen = snapshot(true);
    seen.nodes[0].archived = false;
    let items = settle(Action::Archive, &calls, &Ok(seen.clone()));
    assert_eq!(items.get("child"), Some(&ItemResult::Success));
    assert_eq!(items.get("root"), Some(&ItemResult::Interrupted));
    assert_eq!(status_of_batch(&Ok(seen), &items), "partial");
    assert!(has_reached(&snapshot(true), Action::Archive, "root"));
    assert!(!has_reached(&snapshot(true), Action::Restore, "root"));
    assert!(!has_reached(&snapshot(true), Action::Delete, "root"));
    assert!(has_reached(&snapshot(true), Action::Delete, "gone"));
}

#[test]
fn calls_become_results() {
    assert_eq!(
        outcome_of_call(&Ok(MutationAck {
            response_received: true,
            notification_seen: true,
        })),
        ItemResult::Interrupted
    );
    assert_eq!(
        outcome_of_call(&Err(VaultError::Command("exit 7".into()))),
        ItemResult::Failed("Codex CLI command failed: exit 7".into())
    );
}

#[test]
fn unrecorded_results_are_interrupted() {
    let mut items: TextMap<ItemResult> = TextMap::new();
    items.insert("root".into(), ItemResult::Success);
    let result = conclude(
        "batch".into(),
        Action::Archive,
        items,
        &Ok(snapshot(true)),
        &Err(VaultError::Storage("disk full".into())),
    );
    assert!(every_item_is(&result.items, ItemResult::Interrupted));
    assert!(result.warnings[0].contains("disk full"));
}

#[test]
fn plan_keys_ignore_the_order_of_trees() {
    let planned = |root: &str| PlannedTree {
        root_id: root.into(),
        signature: format!("signature of {root}"),
        node_ids: vec![root.into()],
    };
    let forward = plan_key(Action::Archive, &vec![planned("a"), planned("b")]);
    let backward = plan_key(Action::Archive, &vec![planned("b"), planned("a")]);
    assert_eq!(forward, backward);
    assert_ne!(
        forward,
        plan_key(Action::Delete, &vec![planned("a"), planned("b")])
    );
    assert_ne!(
        plan_key_nodes(&vec!["a,b".into()]),
        plan_key_nodes(&vec!["a".into(), "b".into()])
    );
}

fn candidate(key: &str, bytes: u64) -> MaintenanceCandidate {
    MaintenanceCandidate {
        key: key.into(),
        kind: MaintenanceKind::UnreferencedRollout,
        label: key.into(),
        detail: format!("/sessions/{key}"),
        project: None,
        bytes,
        fingerprint: format!("/sessions/{key}:{bytes}:1"),
    }
}

#[test]
fn cleanup_removes_what_was_shown() {
    let gateway = gateway(vec![snapshot(false), snapshot(false), snapshot(false)]);
    *gateway.candidates.lock().unwrap() = vec![candidate("a", 3), candidate("b", 4)];
    let calls = gateway.calls.clone();
    let mut service = VaultService::new(gateway, Store::default());
    service.refresh().unwrap();
    let plan = service.maintenance_preview(&texts(&["b"]));
    assert_eq!(plan.total_bytes, 4);
    let result = service.cleanup(&plan).unwrap();
    assert!(result.is_complete_success());
    assert_eq!(*calls.lock().unwrap(), vec!["b"]);
    assert_eq!(service.maintenance_candidates(), vec![candidate("a", 3)]);
}

#[test]
fn cleanup_refuses_what_has_changed() {
    let gateway = gateway(vec![snapshot(false), snapshot(false)]);
    *gateway.candidates.lock().unwrap() = vec![candidate("a", 3)];
    let calls = gateway.calls.clone();
    let candidates = gateway.candidates.clone();
    let mut service = VaultService::new(gateway, Store::default());
    service.refresh().unwrap();
    let plan = service.maintenance_preview(&texts(&["a"]));
    *candidates.lock().unwrap() = vec![candidate("a", 5)];
    assert!(service.cleanup(&plan).is_err());
    assert!(calls.lock().unwrap().is_empty());
}

#[test]
fn maintenance_totals_saturate() {
    let all = vec![candidate("a", u64::MAX), candidate("b", 9)];
    let plan = maintenance_plan(&all, &texts(&["a", "b", "c"]));
    assert_eq!(plan.candidates.len(), 2);
    assert_eq!(plan.total_bytes, u64::MAX);
}

#[test]
fn the_clock_gives_whole_seconds() {
    assert_eq!(epoch_from_seconds(5), 5);
    assert_eq!(epoch_from_seconds(u64::MAX), i64::MAX);
    let now = now_epoch();
    assert!(now > 1_600_000_000);
}

#[test]
fn a_preview_parts_the_chosen_trees_in_order() {
    let mut pinned = session("b", None, false);
    pinned.pinned = Some(true);
    let mut scan = snapshot(false);
    scan.nodes = vec![
        session("a", None, false),
        pinned,
        session("c", None, false),
        session("d", None, false),
    ];
    let mut service = VaultService::new(gateway(vec![scan]), Store::default());
    service.refresh().unwrap();
    let preview = service.preview(&texts(&["c", "b", "a", "unknown"]), Action::Archive);
    let planned: Vec<&str> = preview.trees.iter().map(|tree| tree.root_id.as_str()).collect();
    assert_eq!(planned, vec!["a", "c"]);
    assert_eq!(preview.blocked.len(), 1);
    assert_eq!(preview.blocked[0].0, "b");
    assert_eq!(preview.impacted_count, 2);
}

#[test]
fn a_refused_run_keeps_the_fresh_scan() {
    let mut fresh = snapshot(false);
    fresh.nodes[0].pinned = Some(true);
    fresh.diagnostics = vec!["fresh".into()];
    let mut service =
        VaultService::new(gateway(vec![snapshot(false), fresh]), Store::default());
    service.refresh().unwrap();
    let preview = service.preview(&texts(&["root"]), Action::Archive);
    assert!(service.execute(&preview, None).is_err());
    assert_eq!(service.diagnostics(), vec!["fresh"]);
}

#[test]
fn a_cleanup_keeps_the_last_scan() {
    let mut last = snapshot(false);
    last.diagnostics = vec!["last".into()];
    let gateway = gateway(vec![snapshot(false), snapshot(false), last]);
    *gateway.candidates.lock().unwrap() = vec![candidate("a", 3)];
    let mut service = VaultService::new(gateway, Store::default());
    service.refresh().unwrap();
    let plan = service.maintenance_preview(&texts(&["a"]));
    service.cleanup(&plan).unwrap();
    assert_eq!(service.diagnostics(), vec!["last"]);
}
