use codex_vault::codex::catalog::{
    attach_edges, catalog_threads, CatalogRow, CatalogSnapshot, EdgeRow,
};
use codex_vault::codex::course::{
    Course, ScanEvent, ScanOutcome, ScanSetting, ScanStep, Traces,
};
use codex_vault::codex::maintenance::{FileState, MaintenanceDiscovery};
use codex_vault::codex::scan::Read;
use codex_vault::codex::settle::PendingDelete;
use codex_vault::codex::thread::{StatusDto, ThreadDto};
use codex_vault::domain::{RuntimeStatus, ScanSnapshot, VaultError};
use codex_vault::ordered::TextMap;
use codex_vault::outside::JsonValue;

fn thread(id: &str, source: &str, parent: Option<&str>) -> ThreadDto {
    ThreadDto {
        id: id.into(),
        name: None,
        title: None,
        cwd: Some("/tmp".into()),
        project_id: None,
        recency_at: Some(JsonValue::Integer(1)),
        updated_at: None,
        created_at: None,
        is_pinned: Some(false),
        parent_thread_id: parent.map(str::to_owned),
        source: JsonValue::Raw(source.into()),
        status: Some(StatusDto {
            kind: "idle".into(),
            active_flags: vec![],
        }),
    }
}

const REVIEW: &str = "{\"subAgent\":\"review\"}";

fn ids(values: &[&str]) -> Vec<String> {
    values.iter().map(|value| (*value).to_owned()).collect()
}

fn setting(capable: bool) -> ScanSetting {
    ScanSetting {
        capable,
        home: Ok("/home/codex".into()),
    }
}

fn catalog(tasks: &[(&str, &str)], edges: &[(&str, &str)]) -> CatalogSnapshot {
    let rows = tasks
        .iter()
        .map(|(id, source)| {
            Ok(CatalogRow {
                id: Ok((*id).into()),
                title: Ok(Some((*id).into())),
                cwd: Ok("/work".into()),
                project: Ok(None),
                provider: Ok(None),
                model: Ok(None),
                archived: Ok(Some(0)),
                pinned: Ok(Some(0)),
                last_activity_ms: Ok(9_000),
                rollout_path: Ok(format!("/home/codex/sessions/{id}.jsonl")),
                source: Ok((*source).into()),
            })
        })
        .collect();
    let edges = edges
        .iter()
        .map(|(parent, child)| {
            Ok(EdgeRow {
                parent: Ok((*parent).into()),
                child: Ok((*child).into()),
                status: Ok("open".into()),
            })
        })
        .collect();
    attach_edges(catalog_threads(&rows).unwrap(), &edges).unwrap()
}

fn nothing_found() -> Result<MaintenanceDiscovery, String> {
    Ok(MaintenanceDiscovery {
        active_rollouts: 0,
        archived_rollouts: 0,
        candidates: vec![],
    })
}

/// Lists the threads that are not archived, and none that are.
fn list(course: Course, threads: Vec<ThreadDto>) -> Course {
    assert!(matches!(course.next(), ScanStep::List(false)));
    let course = course.take(ScanEvent::Listed(Ok(threads)), &setting(true));
    assert!(matches!(course.next(), ScanStep::List(true)));
    let course = course.take(ScanEvent::Listed(Ok(vec![])), &setting(true));
    assert!(matches!(course.next(), ScanStep::Catalog));
    course
}

fn outcome(course: Course) -> ScanOutcome {
    assert!(matches!(course.next(), ScanStep::Nothing));
    match course.finish() {
        Some(Ok(outcome)) => outcome,
        _ => panic!("the scan did not succeed"),
    }
}

fn shown(snapshot: &ScanSnapshot) -> Vec<&str> {
    snapshot.nodes.iter().map(|node| node.id.as_str()).collect()
}

fn files(paths: &[String]) -> TextMap<FileState> {
    let mut files = TextMap::new();
    for path in paths {
        files.insert(path.clone(), FileState::Regular(10, 1));
    }
    files
}

#[test]
fn a_scan_with_a_catalog_holds_every_task() {
    let course = list(
        Course::start(vec!["noted".into()]),
        vec![
            thread("root", "\"cli\"", None),
            thread("stranger", "\"cli\"", None),
        ],
    );
    let known = catalog(
        &[("root", "cli"), ("child", REVIEW), ("batch", "exec")],
        &[("root", "child")],
    );
    let course = course.take(
        ScanEvent::Catalog(Ok((known, nothing_found()))),
        &setting(true),
    );
    match course.next() {
        ScanStep::Read(asked) => assert_eq!(asked, ids(&["batch", "child"])),
        _ => panic!("the threads that were not listed are to be read"),
    }
    let course = course.take(ScanEvent::Read(Ok(TextMap::new())), &setting(true));
    let paths = match course.next() {
        ScanStep::Files(paths) => paths,
        _ => panic!("the files of the catalog are to be looked at"),
    };
    assert_eq!(
        paths,
        ids(&[
            "/home/codex/sessions/batch.jsonl",
            "/home/codex/sessions/child.jsonl",
            "/home/codex/sessions/root.jsonl"
        ])
    );
    let course = course.take(ScanEvent::Files(files(&paths)), &setting(true));
    assert!(matches!(course.next(), ScanStep::Deletes));
    let done = outcome(course.take(ScanEvent::Deletes(vec![]), &setting(true)));
    assert_eq!(shown(&done.snapshot), vec!["child", "root"]);
    assert!(done.snapshot.write_capable);
    assert!(done.snapshot.relation_complete);
    assert_eq!(done.snapshot.diagnostics[0], "noted");
    assert!(matches!(done.snapshot.nodes[0].status, RuntimeStatus::Unknown(_)));
    assert_eq!(done.snapshot.nodes[1].pinned, Some(false));
    assert_eq!(done.rollout_paths.unwrap().keys(), &ids(&["child", "root"]));
}

fn without_catalog(threads: Vec<ThreadDto>, capable: bool) -> Course {
    list(Course::start(vec![]), threads).take(
        ScanEvent::Catalog(Err("no database".into())),
        &setting(capable),
    )
}

fn mixed() -> Vec<ThreadDto> {
    vec![
        thread("root-a", "\"cli\"", None),
        thread("child-in", REVIEW, None),
        thread("root-b", "\"vscode\"", None),
        thread("exec-root", "\"exec\"", None),
        thread("child-out", REVIEW, None),
    ]
}

fn parents() -> TextMap<Read> {
    let mut reads = TextMap::new();
    for (id, parent) in [("child-in", "root-a"), ("child-out", "exec-root")] {
        reads.insert(id.to_owned(), Read::Found(thread(id, REVIEW, Some(parent))));
    }
    reads
}

fn pins(mut course: Course, capable: bool, usable: bool) -> Course {
    for (pinned, archived) in [(true, false), (false, false), (true, true), (false, true)] {
        match course.next() {
            ScanStep::Pinned(asked, among) => assert_eq!((asked, among), (pinned, archived)),
            _ => panic!("the pins are to be listed"),
        }
        let listed = if !pinned && !archived {
            ids(&["child-in", "child-out", "exec-root", "root-a", "root-b"])
        } else {
            vec![]
        };
        course = course.take(ScanEvent::Pinned(Ok(listed), usable), &setting(capable));
    }
    course
}

#[test]
fn a_scan_without_a_catalog_reads_parents_probes_and_lists_pins() {
    let course = without_catalog(mixed(), true);
    match course.next() {
        ScanStep::Read(asked) => assert_eq!(asked, ids(&["child-in", "child-out"])),
        _ => panic!("the parents are to be read"),
    }
    let course = course.take(ScanEvent::Read(Ok(parents())), &setting(true));
    match course.next() {
        ScanStep::Below(root, archived) => assert_eq!((root.as_str(), archived), ("root-a", false)),
        _ => panic!("the first root is to be probed"),
    }
    let course = course.take(ScanEvent::Below(Ok(ids(&["child-in"]))), &setting(true));
    assert!(matches!(course.next(), ScanStep::Below(_, true)));
    let course = course.take(ScanEvent::Below(Ok(vec![])), &setting(true));
    let course = pins(course, true, true);
    assert!(matches!(course.next(), ScanStep::Deletes));
    let done = outcome(course.take(ScanEvent::Deletes(vec![]), &setting(true)));
    assert_eq!(shown(&done.snapshot), vec!["child-in", "root-a", "root-b"]);
    assert!(done.snapshot.write_capable);
    assert!(done.rollout_paths.is_none());
}

#[test]
fn a_scan_that_lacks_a_capability_never_allows_writing() {
    let course = without_catalog(vec![thread("root", "\"cli\"", None)], false);
    let course = course.take(ScanEvent::Below(Ok(vec![])), &setting(false));
    let course = course.take(ScanEvent::Below(Ok(vec![])), &setting(false));
    let mut course = course;
    for pinned in [true, false, true, false] {
        let listed = if pinned { vec![] } else { ids(&["root"]) };
        course = course.take(ScanEvent::Pinned(Ok(listed), true), &setting(false));
    }
    let done = outcome(course.take(ScanEvent::Deletes(vec![]), &setting(false)));
    assert!(!done.snapshot.write_capable);
    assert!(done.snapshot.relation_complete);
}

#[test]
fn a_failed_probe_leaves_the_snapshot_read_only() {
    let course = without_catalog(vec![thread("root", "\"cli\"", None)], true);
    let course = course.take(
        ScanEvent::Below(Err(VaultError::Protocol("odd".into()))),
        &setting(true),
    );
    let mut course = course.take(ScanEvent::Below(Ok(vec![])), &setting(true));
    for pinned in [true, false, true, false] {
        let listed = if pinned { vec![] } else { ids(&["root"]) };
        course = course.take(ScanEvent::Pinned(Ok(listed), true), &setting(true));
    }
    let done = outcome(course.take(ScanEvent::Deletes(vec![]), &setting(true)));
    assert!(!done.snapshot.relation_complete);
    assert!(!done.snapshot.write_capable);
}

#[test]
fn pins_that_are_not_proven_are_read_from_the_database() {
    let course = without_catalog(vec![], true);
    assert!(matches!(course.next(), ScanStep::Pinned(true, false)));
    let mut course = course;
    for _ in 0..4 {
        course = course.take(
            ScanEvent::Pinned(Err(VaultError::Protocol("no filter".into())), true),
            &setting(true),
        );
    }
    match course.next() {
        ScanStep::Pins(asked) => assert!(asked.is_empty()),
        _ => panic!("the pins are to be read"),
    }
    let course = course.take(ScanEvent::Pins(Err("no database".into())), &setting(true));
    let done = outcome(course.take(ScanEvent::Deletes(vec![]), &setting(true)));
    assert!(!done.snapshot.write_capable);
}

#[test]
fn a_broken_connection_ends_the_scan() {
    let failed = |course: Course| match course.finish() {
        Some(Err(error)) => error,
        _ => panic!("the scan did not fail"),
    };
    let gone = || VaultError::Unavailable("gone".into());
    let listing = Course::start(vec![]).take(ScanEvent::Listed(Err(gone())), &setting(true));
    assert_eq!(failed(listing), gone());
    let course = list(Course::start(vec![]), vec![]);
    let known = catalog(&[("root", "cli")], &[]);
    let course = course.take(
        ScanEvent::Catalog(Ok((known, nothing_found()))),
        &setting(true),
    );
    assert_eq!(failed(course.take(ScanEvent::Read(Err(gone())), &setting(true))), gone());
    assert_eq!(
        failed(pins(without_catalog(vec![], true), true, false)),
        VaultError::Unavailable("app-server connection failed while validating pin filters".into())
    );
}

#[test]
fn unread_parents_do_not_end_the_scan() {
    let course = without_catalog(mixed(), true).take(
        ScanEvent::Read(Err(VaultError::Unavailable("gone".into()))),
        &setting(true),
    );
    assert!(matches!(course.next(), ScanStep::Below(_, false)));
}

#[test]
fn an_answer_to_another_question_changes_nothing() {
    let course = Course::start(vec![]).take(ScanEvent::Deletes(vec![]), &setting(true));
    assert!(matches!(course.next(), ScanStep::List(false)));
    assert!(course.finish().is_none());
}

#[test]
fn traces_of_deletions_are_kept_until_a_scan_confirms_them() {
    let scan = |pending: Vec<PendingDelete>| {
        let course = list(Course::start(vec![]), vec![thread("root", "\"cli\"", None)]);
        let known = catalog(&[("root", "cli")], &[]);
        let course = course.take(
            ScanEvent::Catalog(Ok((known, nothing_found()))),
            &setting(true),
        );
        let course = course.take(
            ScanEvent::Files(files(&ids(&["/home/codex/sessions/root.jsonl"]))),
            &setting(true),
        );
        outcome(course.take(ScanEvent::Deletes(pending), &setting(true)))
    };
    let mut traces = Traces::new();
    traces.deleted("root");
    assert_eq!(traces.pending.len(), 0);
    let snapshot = traces.scanned(scan(vec![]));
    assert_eq!(shown(&snapshot), vec!["root"]);
    traces.deleted("root");
    assert_eq!(
        traces.pending.get("root").map(String::as_str),
        Some("/home/codex/sessions/root.jsonl")
    );
    let left = |residue: Vec<String>| {
        vec![PendingDelete {
            id: "root".into(),
            path: "/home/codex/sessions/root.jsonl".into(),
            residue: Ok(residue),
        }]
    };
    traces.scanned(scan(left(ids(&["rollout file"]))));
    assert_eq!(traces.pending.len(), 1);
    traces.scanned(scan(left(vec![])));
    assert_eq!(traces.pending.len(), 0);
    assert!(traces.known.get("root").is_none());
}
