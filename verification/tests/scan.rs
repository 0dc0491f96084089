use codex_vault::codex::catalog::{
    attach_edges, catalog_threads, CatalogRow, CatalogSnapshot, EdgeRow,
};
use codex_vault::codex::closure::{belongs_to_tree, climb_from, raw_belongs_to_root, Climb};
use codex_vault::codex::disk::{
    check_copied, check_database_backup, check_existing_backup, check_one_change, check_removable,
    residue_places, EntryKind, Place, Walk, WalkEntry,
};
use codex_vault::codex::draft::draft_nodes;
use codex_vault::codex::maintenance::{FileState, MaintenanceDiscovery};
use codex_vault::codex::scan::{batches, Read, Scan};
use codex_vault::codex::settle::{
    accept_read_pins, explicit_pin_states, resolve_listed_pins, PendingDelete, PinListing, PinStep,
};
use codex_vault::codex::thread::{StatusDto, ThreadDto};
use codex_vault::domain::{RuntimeStatus, ScanSnapshot, SessionSource, VaultError};
use codex_vault::ordered::{TextMap, TextSet};
use codex_vault::outside::JsonValue;
use codex_vault::tree::build_trees;

fn listed(id: &str, recency: i64, source: &str, parent: Option<&str>) -> ThreadDto {
    ThreadDto {
        id: id.into(),
        name: None,
        title: None,
        cwd: Some("/tmp".into()),
        project_id: None,
        recency_at: Some(JsonValue::Integer(recency)),
        updated_at: None,
        created_at: None,
        is_pinned: Some(false),
        parent_thread_id: parent.map(str::to_owned),
        source: JsonValue::Raw(source.into()),
        status: Some(StatusDto {
            kind: "idle".into(),
            active_flags: vec![],
        }),
    }
}

fn ids(values: &[&str]) -> Vec<String> {
    values.iter().map(|value| (*value).to_owned()).collect()
}

fn review() -> &'static str {
    "{\"subAgent\":\"review\"}"
}

fn mixed_listing() -> Vec<ThreadDto> {
    vec![
        listed("root-a", 5, "\"cli\"", None),
        listed("child-in", 4, review(), None),
        listed("root-b", 3, "\"vscode\"", None),
        listed("exec-root", 2, "\"exec\"", None),
        listed("child-out", 1, review(), None),
    ]
}

fn no_files() -> TextMap<FileState> {
    TextMap::new()
}

fn unpinned(listing: &[&str]) -> Vec<PinListing> {
    vec![
        PinListing {
            pinned: true,
            listing: Ok(vec![]),
        },
        PinListing {
            pinned: false,
            listing: Ok(ids(listing)),
        },
    ]
}

#[test]
fn missing_subagent_parents_are_hydrated_and_scoped_to_interactive_trees() {
    let mut scan = Scan::start(vec![]);
    scan.add_listing(&mixed_listing(), false);
    scan.add_listing(&vec![], true);
    let unparented = scan.unparented();
    assert_eq!(unparented, ids(&["child-in", "child-out"]));
    let mut reads = TextMap::new();
    reads.insert(
        "child-out".to_owned(),
        Read::Found(listed("child-out", 1, review(), Some("exec-root"))),
    );
    reads.insert(
        "child-in".to_owned(),
        Read::Found(listed("child-in", 4, review(), Some("root-a"))),
    );
    scan.add_parents(&unparented, &reads);
    let closure = scan.close();
    assert_eq!(closure.root_ids.items(), &ids(&["root-a", "root-b"]));
    assert_eq!(
        closure.included_ids.items(),
        &ids(&["child-in", "root-a", "root-b"])
    );
    scan.check_probe("root-a", &vec![Ok(ids(&["child-in"])), Ok(vec![])]);
    assert!(scan.relation_complete);
    let explicit = explicit_pin_states(&scan.raw, &closure.included_ids);
    let relation_complete = scan.relation_complete;
    let mut draft = draft_nodes(
        scan,
        true,
        &closure,
        None,
        &Err("no catalog".into()),
        &no_files(),
    );
    let listings = unpinned(&["root-a", "child-in", "root-b", "exec-root", "child-out"]);
    let pins = match resolve_listed_pins(true, &closure.included_ids, &explicit, &listings) {
        Ok(PinStep::Proven(pins)) => pins,
        _ => unreachable!(),
    };
    draft.settle_pins(&Ok(pins), &vec![]);
    let snapshot = draft.finish(relation_complete);

    assert!(snapshot.relation_complete);
    assert!(snapshot.write_capable);
    let mut found: Vec<&str> = snapshot.nodes.iter().map(|node| node.id.as_str()).collect();
    found.sort();
    assert_eq!(found, vec!["child-in", "root-a", "root-b"]);
    let trees = build_trees(&snapshot);
    assert_eq!(trees.len(), 2);
    assert!(trees.iter().all(|tree| tree.protection.is_empty()));
    assert_eq!(
        trees
            .iter()
            .find(|tree| tree.root_id == "root-a")
            .unwrap()
            .nodes
            .len(),
        2
    );
}

#[test]
fn a_thread_in_both_listings_leaves_the_scan_in_doubt() {
    let mut scan = Scan::start(vec!["earlier".into()]);
    scan.add_listing(&vec![listed("a", 1, "\"cli\"", None)], false);
    scan.add_listing(&vec![listed("a", 1, "\"cli\"", None)], true);
    assert!(!scan.relation_complete);
    assert_eq!(
        scan.diagnostics,
        ids(&["earlier", "thread a appeared in active and archived listings"])
    );
}

#[test]
fn unread_parents_leave_the_scan_in_doubt() {
    let mut scan = Scan::start(vec![]);
    scan.add_listing(&mixed_listing(), false);
    let unparented = scan.unparented();
    let mut reads = TextMap::new();
    reads.insert(
        "child-in".to_owned(),
        Read::Failed(VaultError::Protocol("gone".into())),
    );
    scan.add_parents(&unparented, &reads);
    assert!(!scan.relation_complete);
    assert_eq!(
        scan.diagnostics[0],
        "thread/read could not hydrate the parent of child-in: app-server protocol error: gone"
    );
    let mut other = Scan::start(vec![]);
    other.parents_failed(2, &VaultError::Unavailable("closed".into()));
    assert!(!other.relation_complete);
    assert_eq!(
        other.diagnostics[0],
        "thread/read could not hydrate 2 parent relationships: app-server unavailable: closed"
    );
}

#[test]
fn climbing_ends_at_a_root_a_gap_or_a_cycle() {
    let mut scan = Scan::start(vec![]);
    scan.add_listing(
        &vec![
            listed("root", 1, "\"cli\"", None),
            listed("child", 1, review(), Some("root")),
            listed("lost", 1, review(), Some("nobody")),
            listed("x", 1, review(), Some("y")),
            listed("y", 1, review(), Some("x")),
        ],
        false,
    );
    assert!(matches!(climb_from(&scan.raw, "child"), Climb::Top(id) if id == "root"));
    assert!(matches!(climb_from(&scan.raw, "lost"), Climb::Missing(_)));
    assert!(matches!(climb_from(&scan.raw, "x"), Climb::Cycle));
    assert!(belongs_to_tree(&scan.raw, "child"));
    assert!(!belongs_to_tree(&scan.raw, "lost"));
    assert!(raw_belongs_to_root("child", "root", &scan.raw));
    assert!(!raw_belongs_to_root("x", "root", &scan.raw));
    let closure = scan.close();
    assert_eq!(closure.root_ids.items(), &ids(&["root"]));
    assert!(!scan.relation_complete);
    assert!(scan
        .diagnostics
        .iter()
        .any(|note| note.contains("missing ancestor nobody")));
    assert!(scan
        .diagnostics
        .iter()
        .any(|note| note == "cycle detected at thread x"));
}

#[test]
fn a_probe_that_disagrees_leaves_the_scan_in_doubt() {
    let mut scan = Scan::start(vec![]);
    scan.add_listing(
        &vec![
            listed("root", 1, "\"cli\"", None),
            listed("child", 1, review(), Some("root")),
        ],
        false,
    );
    scan.close();
    scan.check_probe("root", &vec![Ok(vec![]), Ok(vec![])]);
    assert!(!scan.relation_complete);
    assert_eq!(
        scan.diagnostics,
        ids(&["ancestorThreadId result for root does not match the complete parent closure"])
    );
}

#[test]
fn pin_filters_that_fail_are_replaced_by_the_database() {
    let mut included = TextSet::new();
    included.insert("root".to_owned());
    let explicit = TextMap::new();
    let listings = vec![
        PinListing {
            pinned: true,
            listing: Err(VaultError::Protocol("unknown field".into())),
        },
        PinListing {
            pinned: false,
            listing: Ok(ids(&["root"])),
        },
    ];
    assert!(matches!(
        resolve_listed_pins(true, &included, &explicit, &listings),
        Ok(PinStep::Elsewhere(notes))
            if notes[0] == "isPinned=true filter unavailable: app-server protocol error: unknown field"
    ));
    assert!(matches!(
        resolve_listed_pins(false, &included, &explicit, &listings),
        Err(VaultError::Unavailable(_))
    ));
    let mut read = TextMap::new();
    read.insert("root".to_owned(), true);
    let mut said = TextMap::new();
    said.insert("root".to_owned(), false);
    assert!(accept_read_pins(Ok(read), &said).is_err());
    assert!(accept_read_pins(Err("no database".into()), &said).is_err());
}

fn finished(deletes: Vec<PendingDelete>, proven: bool) -> (ScanSnapshot, Vec<String>) {
    let mut scan = Scan::start(vec![]);
    scan.add_listing(&vec![listed("root", 1, "\"cli\"", None)], false);
    let closure = scan.close();
    let explicit = explicit_pin_states(&scan.raw, &closure.included_ids);
    let mut draft = draft_nodes(
        scan,
        true,
        &closure,
        None,
        &Err("no catalog".into()),
        &no_files(),
    );
    let pins = if proven {
        Ok(explicit)
    } else {
        Err("no versioned database".to_owned())
    };
    draft.settle_pins(&pins, &vec![]);
    let verified = draft.settle_deletes(&deletes);
    (draft.finish(true), verified)
}

#[test]
fn unproven_pins_disable_every_write() {
    let (snapshot, _) = finished(vec![], false);
    assert!(!snapshot.write_capable);
    assert!(snapshot
        .diagnostics
        .iter()
        .any(|note| note
            == "read-only Codex pin-state fallback unavailable: no versioned database"));
    let (proven, _) = finished(vec![], true);
    assert!(proven.write_capable);
    assert_eq!(proven.nodes[0].pinned, Some(false));
}

#[test]
fn deletes_stay_until_nothing_is_left() {
    let pending = |residue: Result<Vec<String>, String>| {
        vec![PendingDelete {
            id: "gone".into(),
            path: "/home/codex/sessions/gone.jsonl".into(),
            residue,
        }]
    };
    let (clean, verified) = finished(pending(Ok(vec![])), true);
    assert_eq!(verified, ids(&["gone"]));
    assert_eq!(clean.nodes.len(), 1);
    let (dirty, verified) = finished(pending(Ok(ids(&["rollout file", "threads.id"]))), true);
    assert!(verified.is_empty());
    assert!(dirty
        .diagnostics
        .iter()
        .any(|note| note
            == "delete cleanup is incomplete for gone: rollout file, threads.id"));
    let left = dirty.nodes.iter().find(|node| node.id == "gone").unwrap();
    assert_eq!(
        left.status,
        RuntimeStatus::Unknown(
            "delete cleanup is incomplete for gone: rollout file, threads.id".into()
        )
    );
    assert_eq!(left.source, SessionSource::Other("cleanupResidue".into()));
    let (unknown, verified) = finished(pending(Err("locked".into())), true);
    assert!(verified.is_empty());
    assert!(unknown.nodes.iter().any(|node| node.id == "gone"));
}

fn catalogued() -> CatalogSnapshot {
    let row = |id: &str, source: &str| {
        Ok(CatalogRow {
            id: Ok(id.into()),
            title: Ok(Some(format!("Title of {id}"))),
            cwd: Ok("/work".into()),
            project: Ok(None),
            provider: Ok(Some("custom".into())),
            model: Ok(None),
            archived: Ok(Some(0)),
            pinned: Ok(Some(1)),
            last_activity_ms: Ok(9_000),
            rollout_path: Ok(format!("/home/codex/sessions/{id}.jsonl")),
            source: Ok(source.into()),
        })
    };
    let threads = catalog_threads(&vec![row("root", "cli"), row("child", review())]).unwrap();
    attach_edges(
        threads,
        &vec![Ok(EdgeRow {
            parent: Ok("root".into()),
            child: Ok("child".into()),
            status: Ok("open".into()),
        })],
    )
    .unwrap()
}

#[test]
fn the_catalog_decides_what_is_scanned() {
    let catalog = catalogued();
    let mut scan = Scan::start(vec![]);
    scan.add_listing(
        &vec![
            listed("root", 1, "\"cli\"", None),
            listed("stranger", 1, "\"cli\"", None),
        ],
        false,
    );
    let found = Ok(MaintenanceDiscovery {
        active_rollouts: 2,
        archived_rollouts: 0,
        candidates: vec![],
    });
    let (mut scan, missing) = scan.add_catalog(&catalog, &found);
    assert_eq!(missing, ids(&["child"]));
    let mut reads = TextMap::new();
    reads.insert(
        "child".to_owned(),
        Read::Failed(VaultError::Protocol("not found".into())),
    );
    scan.add_missing(&catalog.threads, &missing, &reads);
    assert!(scan.raw.get("stranger").is_none());
    let closure = scan.close();
    assert_eq!(closure.included_ids.items(), &ids(&["child", "root"]));
    let mut files = TextMap::new();
    files.insert(
        "/home/codex/sessions/root.jsonl".to_owned(),
        FileState::Regular(10, 1),
    );
    files.insert(
        "/home/codex/sessions/child.jsonl".to_owned(),
        FileState::Regular(20, 1),
    );
    let relation_complete = scan.relation_complete;
    let mut draft = draft_nodes(
        scan,
        true,
        &closure,
        Some(&catalog.threads),
        &Ok("/home/codex".into()),
        &files,
    );
    draft.pin_by_catalog(&catalog.threads);
    assert_eq!(
        draft.rollout_paths.get("root").map(String::as_str),
        Some("/home/codex/sessions/root.jsonl")
    );
    let snapshot = draft.finish(relation_complete);
    let root = snapshot.nodes.iter().find(|node| node.id == "root").unwrap();
    assert_eq!(root.rollout_bytes, Some(10));
    assert_eq!(root.pinned, Some(true));
    assert_eq!(root.provider.as_deref(), Some("custom"));
    let child = snapshot
        .nodes
        .iter()
        .find(|node| node.id == "child")
        .unwrap();
    assert_eq!(child.parent_id.as_deref(), Some("root"));
    assert!(child.status.protection_reason().is_some());
    assert!(snapshot
        .diagnostics
        .iter()
        .any(|note| note
            == "ignored 1 app-server rows absent from the authoritative task catalog"));
}

#[test]
fn a_missing_catalog_is_told() {
    let mut scan = Scan::start(vec![]);
    scan.without_catalog("no database");
    assert_eq!(
        scan.diagnostics,
        ids(&[
            "authoritative Codex task catalog is unavailable; discovery is compatibility-only: no database"
        ])
    );
}

#[test]
fn reads_are_sent_in_bounded_batches() {
    let many: Vec<String> = (0..130).map(|n| format!("id-{n}")).collect();
    let parts = batches(&many);
    let sizes: Vec<usize> = parts.iter().map(|part| part.len()).collect();
    assert_eq!(sizes, vec![64, 64, 2]);
    let joined: Vec<String> = parts.into_iter().flatten().collect();
    assert_eq!(joined, many);
    assert!(batches(&vec![]).is_empty());
}

#[test]
fn walking_collects_rollouts_and_skips_links() {
    let entry = |path: &str, kind: EntryKind| {
        Ok(WalkEntry {
            path: path.into(),
            kind: Ok(kind),
        })
    };
    let mut walk = Walk::from("/s");
    assert_eq!(walk.next_directory(), Some("/s".into()));
    let mut walk = walk
        .take_entries(
            "/s",
            &Ok(vec![
                entry("/s/2026", EntryKind::Directory),
                entry("/s/a.jsonl", EntryKind::File),
                entry("/s/b.txt", EntryKind::File),
                entry("/s/c.jsonl", EntryKind::Link),
                entry("/s/d.jsonl", EntryKind::Other),
            ]),
            true,
        )
        .unwrap();
    assert_eq!(walk.next_directory(), Some("/s/2026".into()));
    let mut walk = walk
        .take_entries("/s/2026", &Ok(vec![entry("/s/2026/e.jsonl", EntryKind::File)]), true)
        .unwrap();
    assert_eq!(walk.next_directory(), None);
    assert_eq!(walk.files.items(), &ids(&["/s/2026/e.jsonl", "/s/a.jsonl"]));
    assert_eq!(
        walk.take_entries("/s", &Err("denied".into()), true).err(),
        Some("cannot scan /s: denied".into())
    );
    assert_eq!(
        Walk::from("/s").take_entries("/s", &Ok(vec![Err("gone".into())]), true).err(),
        Some("cannot inspect /s: gone".into())
    );
    let mut flat = Walk::from("/s");
    flat.next_directory();
    let mut flat = flat
        .take_entries("/s", &Ok(vec![entry("/s/2026", EntryKind::Directory)]), false)
        .unwrap();
    assert_eq!(flat.next_directory(), None);
}

#[test]
fn backups_are_checked_before_anything_is_removed() {
    assert!(check_removable(&FileState::Regular(1, 1)).is_ok());
    assert_eq!(
        check_removable(&FileState::Special),
        Err(VaultError::Blocked("rollout is not a regular file".into()))
    );
    assert_eq!(
        check_removable(&FileState::Absent("gone".into())),
        Err(VaultError::Blocked("rollout changed: gone".into()))
    );
    assert!(check_existing_backup(3, 3, "/b").is_ok());
    assert!(check_existing_backup(3, 4, "/b").is_err());
    assert!(check_copied(3, 3, "/a").is_ok());
    assert!(check_copied(2, 3, "/a").is_err());
    assert!(check_database_backup(1, "/b").is_ok());
    assert!(check_database_backup(0, "/b").is_err());
    assert!(check_one_change(1).is_ok());
    assert!(check_one_change(0).is_err());
    assert!(check_one_change(2).is_err());
    assert_eq!(residue_places(false)[2], Place::State("threads", "id"));
    assert_eq!(residue_places(false).len(), 7);
    let names: Vec<String> = residue_places(true).iter().map(|place| place.name()).collect();
    assert_eq!(names[0], "rollout file");
    assert_eq!(names[1], "session_index.jsonl");
    assert_eq!(names[6], "thread_spawn_edges.child_thread_id");
    assert_eq!(names[9], "thread_realtime_items");
    assert_eq!(names.len(), 10);
}

#[test]
fn a_thread_that_cannot_be_mapped_disables_writing() {
    let mut homeless = listed("broken", 2, "\"cli\"", None);
    homeless.cwd = None;
    let mut scan = Scan::start(vec![]);
    scan.add_listing(&vec![listed("root", 1, "\"cli\"", None), homeless], false);
    let closure = scan.close();
    let draft = draft_nodes(
        scan,
        true,
        &closure,
        None,
        &Err("no catalog".into()),
        &no_files(),
    );
    assert!(!draft.write_capable);
    assert_eq!(draft.nodes.keys(), &ids(&["root"]));
    assert!(draft.diagnostics.iter().any(|note| note.contains("thread broken has no cwd")));
}
