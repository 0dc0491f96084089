use codex_vault::domain::{
    Action, Cutoff, Filter, ItemResult, Language, MaintenanceKind, OperationResult, Preferences,
    ProtectionReason, RuntimeStatus, ScanSnapshot, SessionNode, SessionSource, SessionTree,
    VaultError,
};
use codex_vault::ordered::TextMap;
use codex_vault::tree::build_trees;

fn node(id: &str, parent: Option<&str>, source: SessionSource, archived: bool) -> SessionNode {
    SessionNode {
        id: id.into(),
        title: id.into(),
        project: Some("p".into()),
        provider: Some("free".into()),
        model: Some("gpt-test".into()),
        cwd: "/p".into(),
        rollout_bytes: Some(512),
        last_activity: Some(100),
        archived,
        pinned: Some(false),
        status: RuntimeStatus::Idle,
        parent_id: parent.map(str::to_owned),
        source,
    }
}

fn complete(nodes: Vec<SessionNode>) -> ScanSnapshot {
    ScanSnapshot {
        nodes,
        write_capable: true,
        relation_complete: true,
        diagnostics: vec![],
    }
}

#[test]
fn builds_only_interactive_roots_with_all_descendants() {
    let snapshot = ScanSnapshot {
        nodes: vec![
            node("root", None, SessionSource::Cli, false),
            node("child", Some("root"), SessionSource::Descendant, false),
            node("exec", None, SessionSource::Exec, false),
        ],
        write_capable: true,
        relation_complete: true,
        diagnostics: vec![],
    };
    let trees = build_trees(&snapshot);
    assert_eq!(trees.len(), 1);
    assert_eq!(trees[0].nodes.len(), 2);
    assert_eq!(trees[0].root_id, "root");
}

#[test]
fn tree_storage_sums_descendants_without_claiming_incomplete_sizes() {
    let mut tree = SessionTree {
        root_id: "root".into(),
        nodes: vec![
            node("root", None, SessionSource::Cli, false),
            node("child", Some("root"), SessionSource::Descendant, false),
        ],
        last_activity: Some(100),
        protection: vec![],
    };
    assert_eq!(tree.storage_bytes(), Some(1024));
    tree.nodes[1].rollout_bytes = None;
    assert_eq!(tree.storage_bytes(), None);
    tree.nodes[1].rollout_bytes = Some(u64::MAX);
    assert_eq!(tree.storage_bytes(), None);
}

#[test]
fn one_day_is_a_rolling_twenty_four_hours() {
    let tree = SessionTree {
        root_id: "root".into(),
        nodes: vec![node("root", None, SessionSource::Cli, false)],
        last_activity: Some(86_400),
        protection: vec![],
    };
    let filter = Filter {
        cutoff: Cutoff::RollingDays(1),
        project: None,
        query: None,
        archived: None,
    };
    assert!(filter.matches(&tree, 172_800));
    assert!(!filter.matches(&tree, 172_799));
}

#[test]
fn all_cutoff_includes_recent_activity() {
    let tree = SessionTree {
        root_id: "root".into(),
        nodes: vec![node("root", None, SessionSource::Cli, false)],
        last_activity: Some(9_999),
        protection: vec![],
    };
    let filter = Filter {
        cutoff: Cutoff::All,
        project: None,
        query: None,
        archived: None,
    };
    assert!(filter.matches(&tree, 100));
}

#[test]
fn archive_and_project_filters_keep_their_and_semantics() {
    let tree = SessionTree {
        root_id: "root".into(),
        nodes: vec![node("root", None, SessionSource::Cli, true)],
        last_activity: Some(86_400),
        protection: vec![],
    };
    let matching = Filter {
        cutoff: Cutoff::RollingDays(1),
        project: Some("p".into()),
        query: None,
        archived: Some(true),
    };
    assert!(matching.matches(&tree, 172_800));

    let wrong_archive = Filter {
        archived: Some(false),
        ..matching.clone()
    };
    assert!(!wrong_archive.matches(&tree, 172_800));

    let wrong_project = Filter {
        project: Some("other".into()),
        ..matching
    };
    assert!(!wrong_project.matches(&tree, 172_800));
}

#[test]
fn protected_descendant_blocks_the_tree() {
    let mut child = node("child", Some("root"), SessionSource::Descendant, false);
    child.status = RuntimeStatus::Active(vec!["waitingOnApproval".into()]);
    let trees = build_trees(&ScanSnapshot {
        nodes: vec![node("root", None, SessionSource::Cli, false), child],
        write_capable: true,
        relation_complete: true,
        diagnostics: vec![],
    });
    assert_eq!(trees[0].protection, vec![ProtectionReason::WaitingApproval]);
}

#[test]
fn unverifiable_source_blocks_only_its_known_tree() {
    let trees = build_trees(&ScanSnapshot {
        nodes: vec![
            node("root-a", None, SessionSource::Cli, false),
            node(
                "future-child",
                Some("root-a"),
                SessionSource::Other("futureSource".into()),
                false,
            ),
            node("root-b", None, SessionSource::Vscode, false),
        ],
        write_capable: true,
        relation_complete: true,
        diagnostics: vec![],
    });
    let protected = trees.iter().find(|tree| tree.root_id == "root-a").unwrap();
    let eligible = trees.iter().find(|tree| tree.root_id == "root-b").unwrap();
    assert_eq!(
        protected.protection,
        vec![ProtectionReason::UnverifiableSource]
    );
    assert!(eligible.protection.is_empty());
}

#[test]
fn archive_and_delete_are_descendant_first() {
    let tree = SessionTree {
        root_id: "root".into(),
        nodes: vec![
            node("root", None, SessionSource::Cli, false),
            node("child", Some("root"), SessionSource::Descendant, false),
        ],
        last_activity: Some(100),
        protection: vec![],
    };
    assert_eq!(tree.impacted_ids(Action::Archive), vec!["child", "root"]);
}

#[test]
fn thousands_of_roots_and_a_deep_tree_are_built_iteratively() {
    let many_roots = ScanSnapshot {
        nodes: (0..5_000)
            .map(|index| node(&format!("root-{index}"), None, SessionSource::Cli, false))
            .collect(),
        write_capable: true,
        relation_complete: true,
        diagnostics: vec![],
    };
    let trees = build_trees(&many_roots);
    assert_eq!(trees.len(), 5_000);
    assert!(trees.iter().all(|tree| tree.nodes.len() == 1));

    let mut nodes = Vec::with_capacity(5_000);
    nodes.push(node("node-0", None, SessionSource::Cli, false));
    for index in 1..5_000 {
        nodes.push(node(
            &format!("node-{index}"),
            Some(&format!("node-{}", index - 1)),
            SessionSource::Descendant,
            false,
        ));
    }
    let mut deep = build_trees(&ScanSnapshot {
        nodes,
        write_capable: true,
        relation_complete: true,
        diagnostics: vec![],
    });
    assert_eq!(deep.len(), 1);
    let impacted = deep.remove(0).impacted_ids(Action::Archive);
    assert_eq!(impacted.len(), 5_000);
    assert_eq!(impacted.first().map(String::as_str), Some("node-4999"));
    assert_eq!(impacted.last().map(String::as_str), Some("node-0"));
}

#[test]
fn field_filters_compose_with_and_semantics() {
    let tree = SessionTree {
        root_id: "root".into(),
        nodes: vec![SessionNode {
            id: "root".into(),
            title: "Release cleanup".into(),
            project: Some("vault".into()),
            provider: Some("custom".into()),
            model: Some("gpt-5.5".into()),
            cwd: "/work/vault".into(),
            rollout_bytes: Some(512),
            last_activity: Some(1),
            archived: false,
            pinned: Some(false),
            status: RuntimeStatus::Idle,
            parent_id: None,
            source: SessionSource::Cli,
        }],
        last_activity: Some(1),
        protection: vec![],
    };
    let filter = Filter {
        cutoff: Cutoff::RollingDays(1),
        project: None,
        query: Some(
            "project:/work title:cleanup cwd:/work provider:custom model:gpt-5.5".into(),
        ),
        archived: None,
    };
    assert!(filter.matches(&tree, 200_000));
}

#[test]
fn query_tokens_ignore_case_and_must_all_match() {
    let tree = SessionTree {
        root_id: "root".into(),
        nodes: vec![
            node("root", None, SessionSource::Cli, false),
            node("Ünit-Child", Some("root"), SessionSource::Descendant, true),
        ],
        last_activity: Some(100),
        protection: vec![],
    };
    let filter = |query: &str| Filter {
        cutoff: Cutoff::All,
        project: None,
        query: Some(query.into()),
        archived: None,
    };
    assert!(filter("ünit").matches(&tree, 0));
    assert!(filter("ROOT model:GPT").matches(&tree, 0));
    assert!(!filter("root missing").matches(&tree, 0));
    assert!(filter("   ").matches(&tree, 0));
    assert!(!Filter { archived: Some(true), ..filter("") }.matches(&tree, 0));
    assert!(Filter { archived: Some(false), ..filter("") }.matches(&tree, 0));
    assert!(Filter { cutoff: Cutoff::Absolute(100), ..filter("") }.matches(&tree, 0));
    assert!(!Filter { cutoff: Cutoff::Absolute(99), ..filter("") }.matches(&tree, 0));
    assert!(!filter("unknown:root").matches(&tree, 0));
    let unknown = SessionTree {
        last_activity: None,
        ..tree
    };
    assert!(!filter("").matches(&unknown, i64::MAX));
}

#[test]
fn every_scan_doubt_protects_every_tree() {
    let mut snapshot = complete(vec![
        node("root", None, SessionSource::Cli, false),
        node("child", Some("root"), SessionSource::Descendant, false),
    ]);
    snapshot.write_capable = false;
    snapshot.relation_complete = false;
    snapshot.nodes[0].last_activity = None;
    snapshot.nodes[1].pinned = None;
    let trees = build_trees(&snapshot);
    assert!(trees[0].protection.contains(&ProtectionReason::IncompleteRelations));
    assert!(trees[0].protection.contains(&ProtectionReason::WriteCapabilityMissing));
    assert!(trees[0].protection.contains(&ProtectionReason::PinnedUnknown));
    assert!(trees[0].protection.contains(&ProtectionReason::MissingTimestamp));
}

#[test]
fn trees_are_ordered_by_recency() {
    let mut first = node("a", None, SessionSource::Cli, false);
    first.last_activity = Some(5);
    let mut second = node("b", None, SessionSource::Vscode, false);
    second.last_activity = Some(50);
    let trees = build_trees(&complete(vec![first, second]));
    let roots: Vec<&str> = trees.iter().map(|tree| tree.root_id.as_str()).collect();
    assert_eq!(roots, vec!["b", "a"]);
}

#[test]
fn restoring_changes_roots_before_descendants() {
    let tree = SessionTree {
        root_id: "root".into(),
        nodes: vec![
            node("root", None, SessionSource::Cli, true),
            node("child", Some("root"), SessionSource::Descendant, true),
            node("grandchild", Some("child"), SessionSource::Descendant, true),
        ],
        last_activity: Some(100),
        protection: vec![],
    };
    assert_eq!(
        tree.impacted_ids(Action::Restore),
        vec!["root", "child", "grandchild"]
    );
    assert_eq!(
        tree.impacted_ids(Action::Delete),
        vec!["grandchild", "child", "root"]
    );
    assert!(tree.impacted_ids(Action::Archive).is_empty());
}

#[test]
fn signature_reflects_every_change_of_a_node() {
    let tree = SessionTree {
        root_id: "root".into(),
        nodes: vec![node("root", None, SessionSource::Cli, false)],
        last_activity: Some(100),
        protection: vec![],
    };
    let mut archived = tree.clone();
    archived.nodes[0].archived = true;
    let mut pinned = tree.clone();
    pinned.nodes[0].pinned = Some(true);
    let mut moved = tree.clone();
    moved.nodes[0].parent_id = Some("other".into());
    assert_ne!(tree.signature(), archived.signature());
    assert_ne!(tree.signature(), pinned.signature());
    assert_ne!(tree.signature(), moved.signature());
    assert_eq!(tree.signature(), tree.clone().signature());
}

#[test]
fn status_names_the_reason_to_protect() {
    let active = |flag: &str| RuntimeStatus::Active(vec![flag.into()]).protection_reason();
    assert_eq!(
        active("waitingOnApproval"),
        Some(ProtectionReason::WaitingApproval)
    );
    assert_eq!(
        active("waitingOnUserInput"),
        Some(ProtectionReason::WaitingInput)
    );
    assert_eq!(active("thinking"), Some(ProtectionReason::Running));
    assert_eq!(RuntimeStatus::Idle.protection_reason(), None);
    assert_eq!(RuntimeStatus::NotLoaded.protection_reason(), None);
    assert_eq!(
        RuntimeStatus::Unknown("odd".into()).protection_reason(),
        Some(ProtectionReason::UnsafeStatus("odd".into()))
    );
    assert_eq!(
        RuntimeStatus::SystemError.protection_reason(),
        Some(ProtectionReason::UnsafeStatus("systemError".into()))
    );
}

#[test]
fn names_are_read_back() {
    for action in [
        Action::Archive,
        Action::Restore,
        Action::Delete,
        Action::Cleanup,
    ] {
        assert_eq!(Action::parse(action.as_str()), Some(action));
    }
    assert_eq!(Action::parse("rename"), None);
    assert_eq!(Language::parse(Language::En.code()), Language::En);
    assert_eq!(Language::parse(Language::ZhCn.code()), Language::ZhCn);
    assert_eq!(Language::ZhCn.code(), "zh-CN");
    assert_eq!(
        MaintenanceKind::UnreferencedRollout.as_str(),
        "unreferenced_rollout"
    );
}

#[test]
fn cutoff_seconds_never_overflow() {
    assert_eq!(Cutoff::All.epoch_seconds(7), i64::MAX);
    assert_eq!(Cutoff::Absolute(123).epoch_seconds(7), 123);
    assert_eq!(Cutoff::RollingDays(30).epoch_seconds(2_592_001), 1);
    assert_eq!(Cutoff::RollingDays(1).epoch_seconds(i64::MIN), i64::MIN);
}

#[test]
fn only_settled_items_make_a_complete_success() {
    let mut items: TextMap<ItemResult> = TextMap::new();
    items.insert("a".into(), ItemResult::Success);
    items.insert("b".into(), ItemResult::Skipped);
    let mut result = OperationResult {
        batch_id: "batch".into(),
        action: Action::Archive,
        items,
        warnings: vec![],
    };
    assert!(result.is_complete_success());
    result.items.insert("c".into(), ItemResult::Failed("no".into()));
    assert!(!result.is_complete_success());
    assert_eq!(ItemResult::Failed("no".into()).as_storage_value(), "failed:no");
    assert_eq!(ItemResult::Interrupted.as_storage_value(), "interrupted");
}

#[test]
fn errors_say_what_went_wrong() {
    let cases = [
        (
            VaultError::Unavailable("x".into()),
            "app-server unavailable: x",
        ),
        (
            VaultError::Protocol("x".into()),
            "app-server protocol error: x",
        ),
        (
            VaultError::Command("x".into()),
            "Codex CLI command failed: x",
        ),
        (
            VaultError::Storage("x".into()),
            "local operation record unavailable: x",
        ),
        (VaultError::Blocked("x".into()), "operation blocked: x"),
        (
            VaultError::StalePreview,
            "preview is stale; rescan and preview again",
        ),
        (
            VaultError::ConfirmationMismatch,
            "confirmation does not match the previewed delete count",
        ),
    ];
    for (error, message) in cases {
        assert_eq!(error.message(), message);
    }
    assert_eq!(
        ProtectionReason::UnsafeStatus("odd".into()).message(),
        "unsafe status: odd"
    );
    assert_eq!(
        ProtectionReason::WaitingInput.message(),
        "waiting for user input"
    );
}

#[test]
fn default_preferences_are_thirty_days_of_every_project() {
    let preferences = Preferences::default();
    assert_eq!(preferences.language, Language::ZhCn);
    assert_eq!(preferences.cutoff, Cutoff::RollingDays(30));
    assert_eq!(preferences.project, None);
    assert_eq!(preferences.archived, None);
}

#[test]
fn the_order_of_a_scan_only_orders_ties() {
    let nodes = || {
        let mut late = node("c", None, SessionSource::Cli, false);
        late.last_activity = Some(500);
        vec![
            node("b", None, SessionSource::Cli, false),
            node("b-child", Some("b"), SessionSource::Descendant, false),
            node("a", None, SessionSource::Cli, false),
            late,
        ]
    };
    let roots = |trees: &Vec<SessionTree>| -> Vec<String> {
        trees.iter().map(|tree| tree.root_id.clone()).collect()
    };
    let trees = build_trees(&complete(nodes()));
    assert_eq!(roots(&trees), vec!["c", "b", "a"]);
    let mut turned = nodes();
    turned.reverse();
    let others = build_trees(&complete(turned));
    assert_eq!(roots(&others), vec!["c", "a", "b"]);
    for tree in &trees {
        let other = others.iter().find(|other| other.root_id == tree.root_id).unwrap();
        assert_eq!(other, tree);
    }
}

#[test]
fn one_depth_is_visited_by_id() {
    let tree = SessionTree {
        root_id: "root".into(),
        nodes: vec![
            node("b", Some("root"), SessionSource::Descendant, true),
            node("root", None, SessionSource::Cli, true),
            node("a", Some("root"), SessionSource::Descendant, true),
        ],
        last_activity: Some(100),
        protection: vec![],
    };
    assert_eq!(tree.impacted_ids(Action::Restore), vec!["root", "a", "b"]);
    let mut turned = tree.impacted_ids(Action::Delete);
    turned.reverse();
    assert_eq!(turned, tree.impacted_ids(Action::Restore));
}

#[test]
fn signature_ignores_order_and_what_is_only_shown() {
    let tree = |nodes: Vec<SessionNode>| SessionTree {
        root_id: "root".into(),
        nodes,
        last_activity: Some(100),
        protection: vec![],
    };
    let root = node("root", None, SessionSource::Cli, false);
    let child = node("child", Some("root"), SessionSource::Descendant, false);
    let whole = tree(vec![root.clone(), child.clone()]);
    assert_eq!(whole.signature(), tree(vec![child.clone(), root.clone()]).signature());
    let mut shown = child.clone();
    shown.title = "other".into();
    shown.project = None;
    shown.cwd = "/elsewhere".into();
    shown.rollout_bytes = None;
    assert_eq!(whole.signature(), tree(vec![root.clone(), shown]).signature());
    let mut later = child.clone();
    later.last_activity = None;
    assert_ne!(whole.signature(), tree(vec![root.clone(), later]).signature());
    assert_ne!(whole.signature(), tree(vec![root, child.clone(), child]).signature());
}
