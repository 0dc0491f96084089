//! Leftover data: what of it is proven stale, and what a cleanup or a deletion
//! must find before it is believed.

use crate::codex::catalog::{
    CatalogSnapshot, CatalogSnapshotView, CatalogThread, CatalogThreadView, StaleSpawnEdge,
    StaleSpawnEdgeView,
};
use crate::codex::disk::{place_name, residue_places, searched_places, Place};
use crate::domain::{
    result_view, MaintenanceCandidate, MaintenanceCandidateView, MaintenanceKind, VaultError,
    VaultErrorView,
};
use crate::ordered::{
    ordered_texts, sorted_by, stable_sort, Order, TextMap, TextSet,
};
use crate::outside::{
    json_member, json_problem, json_string, member_of_json, problem_of_json, string_of_json,
};
use crate::path::{
    below, components, components_before, components_lt, components_of, file_name, is_below,
    join_path, joined_path, key_of_path, last_part, law_path_keys_agree, path_key, relative_path,
    relative_to,
};
use crate::text::{
    chars_of, contains, decimal, decimal_text, has_text, join, joined, less, one, push_decimal,
    same, signed_decimal, signed_decimal_text, split_at_first, split_once, strip_prefix, text_lt,
    without_prefix,
};
use vstd::prelude::*;
use vstd::string::*;

verus! {

broadcast use vstd::group_vstd_default;

/// What stands at a path.
pub enum FileState {
    /// Nothing, with what the system said.
    Absent(String),
    /// It could not be looked at, with what the system said.
    Unreadable(String),
    /// Something other than a regular file.
    Special,
    /// A regular file of so many bytes, changed so many nanoseconds after the
    /// epoch.
    Regular(u64, u128),
}

#[verifier::ext_equal]
pub enum FileStateView {
    Absent(Seq<char>),
    Unreadable(Seq<char>),
    Special,
    Regular(u64, u128),
}

impl DeepView for FileState {
    type V = FileStateView;

    open spec fn deep_view(&self) -> FileStateView {
        match self {
            FileState::Absent(problem) => FileStateView::Absent(problem@),
            FileState::Unreadable(problem) => FileStateView::Unreadable(problem@),
            FileState::Special => FileStateView::Special,
            FileState::Regular(bytes, modified) => FileStateView::Regular(*bytes, *modified),
        }
    }
}

/// Where the rollout files of a thread must lie.
pub open spec fn rollout_root(home: Seq<char>, archived: bool) -> Seq<char> {
    joined_path(
        home,
        if archived {
            "archived_sessions"@
        } else {
            "sessions"@
        },
    )
}

pub fn rollout_directory(home: &str, archived: bool) -> (r: String)
    ensures
        r@ == rollout_root(home@, archived),
{
    join_path(
        home,
        if archived {
            "archived_sessions"
        } else {
            "sessions"
        },
    )
}

/// The size of a thread's rollout file, or why it is not accepted.
pub open spec fn rollout_size(
    home: Seq<char>,
    thread: CatalogThreadView,
    state: FileStateView,
) -> Result<u64, Seq<char>> {
    let root = rollout_root(home, thread.archived);
    if !below(thread.rollout_path, root) {
        Err(
            "thread "@ + thread.id + " rollout path is outside the expected "@ + root
                + " tree"@,
        )
    } else {
        match state {
            FileStateView::Absent(problem) => Err(
                "thread "@ + thread.id + " rollout file is unavailable at "@
                    + thread.rollout_path + ": "@ + problem,
            ),
            FileStateView::Unreadable(problem) => Err(
                "thread "@ + thread.id + " rollout file is unavailable at "@
                    + thread.rollout_path + ": "@ + problem,
            ),
            FileStateView::Special => Err(
                "thread "@ + thread.id + " rollout path is not a regular file: "@
                    + thread.rollout_path,
            ),
            FileStateView::Regular(bytes, _) => Ok(bytes),
        }
    }
}

/// The size of a thread's rollout file, which must be a regular file below the
/// directory that its archive state calls for.
pub fn validate_rollout_path(home: &str, thread: &CatalogThread, state: &FileState) -> (r: Result<
    u64,
    String,
>)
    ensures
        result_view(r) == rollout_size(home@, thread.deep_view(), state.deep_view()),
{
    let root = rollout_directory(home, thread.archived);
    let id = thread.id.as_str();
    let path = thread.rollout_path.as_str();
    if !is_below(path, root.as_str()) {
        return Err(
            "thread ".to_owned().concat(id).concat(
                " rollout path is outside the expected ",
            ).concat(root.as_str()).concat(" tree"),
        );
    }
    match state {
        FileState::Absent(problem) => Err(
            "thread ".to_owned().concat(id).concat(" rollout file is unavailable at ").concat(
                path,
            ).concat(": ").concat(problem.as_str()),
        ),
        FileState::Unreadable(problem) => Err(
            "thread ".to_owned().concat(id).concat(" rollout file is unavailable at ").concat(
                path,
            ).concat(": ").concat(problem.as_str()),
        ),
        FileState::Special => Err(
            "thread ".to_owned().concat(id).concat(
                " rollout path is not a regular file: ",
            ).concat(path),
        ),
        FileState::Regular(bytes, _) => Ok(*bytes),
    }
}

/// Some thread of the catalog has the path as its rollout file, in whatever
/// spelling.
pub open spec fn referenced(threads: Map<Seq<char>, CatalogThreadView>, path: Seq<char>) -> bool {
    exists|id: Seq<char>| #[trigger]
        threads.contains_key(id) && components(threads[id].rollout_path) == components(path)
}

/// Paths in the order of their components.
pub open spec fn by_components() -> spec_fn(Seq<char>, Seq<char>) -> bool {
    |a: Seq<char>, b: Seq<char>| components_lt(components(a), components(b))
}

/// The rollout files that no thread references, in the order of their
/// components.
pub open spec fn unreferenced(
    sessions: Set<Seq<char>>,
    archived: Set<Seq<char>>,
    threads: Map<Seq<char>, CatalogThreadView>,
) -> Seq<Seq<char>> {
    sorted_by(
        ordered_texts(sessions.union(archived)).filter(
            |path: Seq<char>| !referenced(threads, path),
        ),
        by_components(),
    )
}

/// Paths in the order of their components.
pub struct ByComponents;

impl Order<String> for ByComponents {
    open spec fn order() -> spec_fn(Seq<char>, Seq<char>) -> bool {
        by_components()
    }

    fn before(a: &String, b: &String) -> (r: bool) {
        components_before(&components_of(a.as_str()), &components_of(b.as_str()))
    }
}

fn referenced_keys(threads: &TextMap<CatalogThread>) -> (r: TextSet)
    ensures
        forall|key: Seq<char>| #[trigger]
            r@.contains(key) <==> exists|id: Seq<char>| #[trigger]
                threads@.contains_key(id) && path_key(threads@[id].rollout_path) == key,
{
    let ids = threads.keys();
    let mut keys = TextSet::new();
    let mut i: usize = 0;
    while i < ids.len()
        invariant
            i <= ids@.len(),
            ids.deep_view().to_set() == threads@.dom(),
            forall|k: int|
                0 <= k < i ==> keys@.contains(
                    path_key(threads@[#[trigger] ids.deep_view()[k]].rollout_path),
                ),
            forall|key: Seq<char>| #[trigger]
                keys@.contains(key) ==> exists|id: Seq<char>| #[trigger]
                    threads@.contains_key(id) && path_key(threads@[id].rollout_path) == key,
        decreases ids.len() - i,
    {
        proof {
            assert(ids.deep_view()[i as int] == ids@[i as int]@);
            assert(ids.deep_view().to_set().contains(ids.deep_view()[i as int]));
        }
        match threads.get(ids[i].as_str()) {
            Some(thread) => {
                keys.insert(key_of_path(thread.rollout_path.as_str()));
                assert(threads@.contains_key(ids@[i as int]@));
            },
            None => {},
        }
        i += 1;
    }
    proof {
        assert forall|key: Seq<char>|
            (exists|id: Seq<char>| #[trigger]
                threads@.contains_key(id) && path_key(threads@[id].rollout_path)
                    == key) implies #[trigger] keys@.contains(key) by {
            let id = choose|id: Seq<char>| #[trigger]
                threads@.contains_key(id) && path_key(threads@[id].rollout_path) == key;
            assert(ids.deep_view().to_set().contains(id));
            let k = ids.deep_view().index_of(id);
            assert(ids.deep_view()[k] == id);
        }
    }
    keys
}

/// The union of two sets.
fn union_of(a: &TextSet, b: &TextSet) -> (r: TextSet)
    ensures
        r@ == a@.union(b@),
{
    let mut r = a.clone();
    let items = b.items();
    let mut i: usize = 0;
    while i < items.len()
        invariant
            i <= items@.len(),
            items.deep_view().to_set() == b@,
            forall|x: Seq<char>| #[trigger] r@.contains(x) ==> a@.contains(x) || b@.contains(x),
            forall|x: Seq<char>| a@.contains(x) ==> #[trigger] r@.contains(x),
            forall|k: int| 0 <= k < i ==> r@.contains(#[trigger] items.deep_view()[k]),
        decreases items.len() - i,
    {
        proof {
            assert(items.deep_view()[i as int] == items@[i as int]@);
            assert(items.deep_view().to_set().contains(items.deep_view()[i as int]));
        }
        r.insert(items[i].clone());
        i += 1;
    }
    proof {
        assert forall|x: Seq<char>| b@.contains(x) implies r@.contains(x) by {
            assert(items.deep_view().to_set().contains(x));
            let k = items.deep_view().index_of(x);
            assert(items.deep_view()[k] == x);
        }
        assert(r@ =~= a@.union(b@));
    }
    r
}

/// The rollout files on disk that no thread references.
pub fn audit_rollout_roots(
    sessions: &TextSet,
    archived: &TextSet,
    catalog: &CatalogSnapshot,
) -> (r: Vec<String>)
    ensures
        r.deep_view() == unreferenced(sessions@, archived@, catalog.deep_view().threads),
{
    let known = referenced_keys(&catalog.threads);
    let found = union_of(sessions, archived);
    let paths = found.items();
    let ghost all = paths.deep_view();
    let ghost threads = catalog.deep_view().threads;
    let ghost keep = |path: Seq<char>| !referenced(threads, path);
    let mut r: Vec<String> = Vec::new();
    let mut i: usize = 0;
    proof {
        reveal(Seq::filter);
        assert(r.deep_view() =~= all.take(0).filter(keep));
    }
    while i < paths.len()
        invariant
            i <= paths@.len(),
            all == paths.deep_view(),
            threads == catalog.threads@,
            forall|key: Seq<char>| #[trigger]
                known@.contains(key) <==> exists|id: Seq<char>| #[trigger]
                    threads.contains_key(id) && path_key(threads[id].rollout_path) == key,
            keep == (|path: Seq<char>| !referenced(threads, path)),
            r.deep_view() == all.take(i as int).filter(keep),
        decreases paths.len() - i,
    {
        let ghost before = r.deep_view();
        let path = paths[i].as_str();
        proof {
            reveal(Seq::filter);
            assert(all.take(i as int + 1).drop_last() =~= all.take(i as int));
            assert(all.take(i as int + 1).last() == all[i as int]);
            assert(all[i as int] == path@);
        }
        let key = key_of_path(path);
        proof {
            assert forall|id: Seq<char>| #[trigger] threads.contains_key(id) implies (path_key(
                threads[id].rollout_path,
            ) == key@ <==> components(threads[id].rollout_path) == components(path@)) by {
                law_path_keys_agree(threads[id].rollout_path, path@);
            }
            if referenced(threads, path@) {
                let id = choose|id: Seq<char>| #[trigger]
                    threads.contains_key(id) && components(threads[id].rollout_path) == components(
                        path@,
                    );
                assert(threads.contains_key(id) && path_key(threads[id].rollout_path) == key@);
            }
            if known@.contains(key@) {
                let id = choose|id: Seq<char>| #[trigger]
                    threads.contains_key(id) && path_key(threads[id].rollout_path) == key@;
                assert(threads.contains_key(id));
            }
            assert(known@.contains(key@) <==> referenced(threads, path@));
        }
        if !known.contains(key.as_str()) {
            r.push(paths[i].clone());
            assert(r.deep_view() =~= before.push(path@));
        }
        i += 1;
    }
    assert(all.take(i as int) =~= all);
    stable_sort::<String, ByComponents>(r)
}

/// What stands at a path; what was not looked at proves nothing.
pub open spec fn state_at(
    files: Map<Seq<char>, FileStateView>,
    path: Seq<char>,
) -> FileStateView {
    if files.contains_key(path) {
        files[path]
    } else {
        FileStateView::Special
    }
}

/// The project under which a thread is shown.
pub open spec fn shown_project(thread: CatalogThreadView) -> Seq<char> {
    match thread.project {
        Some(project) => project,
        None => thread.cwd,
    }
}

/// The ids of the catalog that occur in a path, in string order.
pub open spec fn ids_in_path(
    threads: Map<Seq<char>, CatalogThreadView>,
    path: Seq<char>,
) -> Seq<Seq<char>> {
    ordered_texts(threads.dom()).filter(|id: Seq<char>| has_text(path, id))
}

/// The project of the first thread whose id occurs in a path.
pub open spec fn project_of_path(
    threads: Map<Seq<char>, CatalogThreadView>,
    path: Seq<char>,
) -> Option<Seq<char>> {
    let ids = ids_in_path(threads, path);
    if ids.len() > 0 {
        Some(shown_project(threads[ids[0]]))
    } else {
        None
    }
}

/// The candidate for a rollout file that no thread references.
pub open spec fn rollout_candidate(
    threads: Map<Seq<char>, CatalogThreadView>,
    path: Seq<char>,
    bytes: u64,
    modified: u128,
) -> MaintenanceCandidateView {
    MaintenanceCandidateView {
        key: "rollout:"@ + path,
        kind: MaintenanceKind::UnreferencedRollout,
        label: match last_part(path) {
            Some(name) => name,
            None => "rollout.jsonl"@,
        },
        detail: path,
        project: project_of_path(threads, path),
        bytes,
        fingerprint: decimal(bytes as int) + ":"@ + decimal(modified as int),
    }
}

/// The candidates for the unreferenced files, or the first that could not be
/// looked at.
pub open spec fn rollout_candidates(
    threads: Map<Seq<char>, CatalogThreadView>,
    files: Map<Seq<char>, FileStateView>,
    paths: Seq<Seq<char>>,
) -> Result<Seq<MaintenanceCandidateView>, Seq<char>>
    decreases paths.len(),
{
    if paths.len() == 0 {
        Ok(Seq::empty())
    } else {
        match rollout_candidates(threads, files, paths.drop_last()) {
            Err(problem) => Err(problem),
            Ok(found) => match state_at(files, paths.last()) {
                FileStateView::Absent(problem) => Err(
                    "cannot inspect "@ + paths.last() + ": "@ + problem,
                ),
                FileStateView::Unreadable(problem) => Err(
                    "cannot inspect "@ + paths.last() + ": "@ + problem,
                ),
                FileStateView::Special => Ok(found),
                FileStateView::Regular(bytes, modified) => Ok(
                    found.push(rollout_candidate(threads, paths.last(), bytes, modified)),
                ),
            },
        }
    }
}

/// The fingerprint of an edge.
pub open spec fn edge_fingerprint(edge: StaleSpawnEdgeView) -> Seq<char> {
    edge.parent + ":"@ + edge.child + ":"@ + edge.status
}

/// The candidate for a stale edge.
pub open spec fn edge_candidate(edge: StaleSpawnEdgeView) -> MaintenanceCandidateView {
    MaintenanceCandidateView {
        key: "edge:"@ + edge.parent + ":"@ + edge.child,
        kind: MaintenanceKind::StaleSpawnEdge,
        label: edge.parent + " → "@ + edge.child,
        detail: edge.status,
        project: None,
        bytes: 0,
        fingerprint: edge_fingerprint(edge),
    }
}

/// The candidate for a thread without its rollout file.
pub open spec fn thread_candidate(thread: CatalogThreadView) -> MaintenanceCandidateView {
    MaintenanceCandidateView {
        key: "thread:"@ + thread.id,
        kind: MaintenanceKind::MissingRolloutThread,
        label: match thread.title {
            Some(title) => title,
            None => thread.id,
        },
        detail: thread.rollout_path,
        project: Some(shown_project(thread)),
        bytes: 0,
        fingerprint: thread.id + ":"@ + signed_decimal(thread.last_activity_ms as int) + ":"@
            + thread.rollout_path,
    }
}

/// The candidates for the threads, of those with the given ids, whose rollout
/// file is gone from where it must lie.
pub open spec fn thread_candidates(
    home: Seq<char>,
    threads: Map<Seq<char>, CatalogThreadView>,
    files: Map<Seq<char>, FileStateView>,
    ids: Seq<Seq<char>>,
) -> Result<Seq<MaintenanceCandidateView>, Seq<char>>
    decreases ids.len(),
{
    if ids.len() == 0 {
        Ok(Seq::empty())
    } else {
        match thread_candidates(home, threads, files, ids.drop_last()) {
            Err(problem) => Err(problem),
            Ok(found) => {
                let thread = threads[ids.last()];
                if !below(thread.rollout_path, rollout_root(home, thread.archived)) {
                    Ok(found)
                } else {
                    match state_at(files, thread.rollout_path) {
                        FileStateView::Absent(_) => Ok(found.push(thread_candidate(thread))),
                        FileStateView::Unreadable(problem) => Err(
                            "cannot inspect "@ + thread.rollout_path + ": "@ + problem,
                        ),
                        _ => Ok(found),
                    }
                }
            },
        }
    }
}

/// The place of a kind in the list.
pub open spec fn kind_rank(kind: MaintenanceKind) -> int {
    match kind {
        MaintenanceKind::UnreferencedRollout => 0,
        MaintenanceKind::StaleSpawnEdge => 1,
        MaintenanceKind::MissingRolloutThread => 2,
    }
}

/// By kind, then by key.
pub open spec fn by_kind() -> spec_fn(MaintenanceCandidateView, MaintenanceCandidateView) -> bool {
    |a: MaintenanceCandidateView, b: MaintenanceCandidateView|
        kind_rank(a.kind) < kind_rank(b.kind) || (kind_rank(a.kind) == kind_rank(b.kind)
            && text_lt(a.key, b.key))
}

pub struct ByKind;

fn rank_of_kind(kind: MaintenanceKind) -> (r: u8)
    ensures
        r == kind_rank(kind),
{
    match kind {
        MaintenanceKind::UnreferencedRollout => 0,
        MaintenanceKind::StaleSpawnEdge => 1,
        MaintenanceKind::MissingRolloutThread => 2,
    }
}

impl Order<MaintenanceCandidate> for ByKind {
    open spec fn order() -> spec_fn(MaintenanceCandidateView, MaintenanceCandidateView) -> bool {
        by_kind()
    }

    fn before(a: &MaintenanceCandidate, b: &MaintenanceCandidate) -> (r: bool) {
        let x: u8 = rank_of_kind(a.kind);
        let y: u8 = rank_of_kind(b.kind);
        x < y || (x == y && less(a.key.as_str(), b.key.as_str()))
    }
}

/// What leftover data a scan of the disk and the catalog proves.
pub open spec fn discovered(
    home: Seq<char>,
    sessions: Set<Seq<char>>,
    archived: Set<Seq<char>>,
    files: Map<Seq<char>, FileStateView>,
    catalog: CatalogSnapshotView,
) -> Result<Seq<MaintenanceCandidateView>, Seq<char>> {
    match rollout_candidates(
        catalog.threads,
        files,
        unreferenced(sessions, archived, catalog.threads),
    ) {
        Err(problem) => Err(problem),
        Ok(rollouts) => match thread_candidates(
            home,
            catalog.threads,
            files,
            ordered_texts(catalog.threads.dom()),
        ) {
            Err(problem) => Err(problem),
            Ok(threads) => Ok(
                sorted_by(
                    rollouts + catalog.stale_edges.map_values(
                        |edge: StaleSpawnEdgeView| edge_candidate(edge),
                    ) + threads,
                    by_kind(),
                ),
            ),
        },
    }
}

fn project_from_path(threads: &TextMap<CatalogThread>, path: &str) -> (r: Option<String>)
    ensures
        r.deep_view() == project_of_path(threads@, path@),
{
    let ids = threads.keys();
    let ghost all = ids.deep_view();
    let ghost keep = |id: Seq<char>| has_text(path@, id);
    let mut i: usize = 0;
    proof {
        reveal(Seq::filter);
        assert(all.take(0).filter(keep) =~= Seq::empty());
    }
    while i < ids.len()
        invariant
            i <= ids@.len(),
            all == ids.deep_view(),
            all == ordered_texts(threads@.dom()),
            all.to_set() == threads@.dom(),
            keep == (|id: Seq<char>| has_text(path@, id)),
            all.take(i as int).filter(keep).len() == 0,
        decreases ids.len() - i,
    {
        let id = ids[i].as_str();
        proof {
            reveal(Seq::filter);
            assert(all[i as int] == id@);
            assert(all.to_set().contains(all[i as int]));
            assert(all.take(i as int + 1).drop_last() =~= all.take(i as int));
            assert(all.take(i as int + 1).last() == all[i as int]);
        }
        if contains(path, id) {
            proof {
                lemma_filter_prefix(all, keep, i as int + 1);
                let kept = all.take(i as int + 1).filter(keep);
                assert(kept =~= seq![id@]);
                assert(all.filter(keep)[0] == kept[0]);
            }
            match threads.get(id) {
                Some(thread) => {
                    return Some(
                        match &thread.project {
                            Some(project) => project.clone(),
                            None => thread.cwd.clone(),
                        },
                    );
                },
                None => {},
            }
        }
        i += 1;
    }
    assert(all.take(i as int) =~= all);
    None
}

/// What a filter keeps of the beginning stands at the beginning of what it
/// keeps.
proof fn lemma_filter_prefix(s: Seq<Seq<char>>, keep: spec_fn(Seq<char>) -> bool, i: int)
    requires
        0 <= i <= s.len(),
    ensures
        s.take(i).filter(keep).len() <= s.filter(keep).len(),
        forall|k: int|
            0 <= k < s.take(i).filter(keep).len() ==> s.take(i).filter(keep)[k] == s.filter(
                keep,
            )[k],
    decreases s.len() - i,
{
    reveal(Seq::filter);
    if i < s.len() {
        lemma_filter_prefix(s, keep, i + 1);
        assert(s.take(i + 1).drop_last() =~= s.take(i));
        let shorter = s.take(i).filter(keep);
        let longer = s.take(i + 1).filter(keep);
        assert forall|k: int| 0 <= k < shorter.len() implies shorter[k] == s.filter(keep)[k] by {
            assert(longer[k] == shorter[k]);
        }
    } else {
        assert(s.take(i) =~= s);
    }
}

fn state_of<'a>(files: &'a TextMap<FileState>, path: &str, special: &'a FileState) -> (r:
    &'a FileState)
    requires
        special.deep_view() is Special,
    ensures
        r.deep_view() == state_at(files@, path@),
{
    match files.get(path) {
        Some(state) => state,
        None => special,
    }
}

fn find_rollouts(
    threads: &TextMap<CatalogThread>,
    files: &TextMap<FileState>,
    paths: &Vec<String>,
) -> (r: Result<Vec<MaintenanceCandidate>, String>)
    ensures
        result_view(r) == rollout_candidates(threads@, files@, paths.deep_view()),
{
    let ghost all = paths.deep_view();
    let special = FileState::Special;
    let mut found: Vec<MaintenanceCandidate> = Vec::new();
    let mut i: usize = 0;
    proof {
        assert(all.take(0) =~= Seq::empty());
        assert(found.deep_view() =~= Seq::empty());
    }
    while i < paths.len()
        invariant
            i <= paths@.len(),
            special.deep_view() is Special,
            all == paths.deep_view(),
            rollout_candidates(threads@, files@, all.take(i as int)) == Ok::<
                Seq<MaintenanceCandidateView>,
                Seq<char>,
            >(found.deep_view()),
        decreases paths.len() - i,
    {
        let ghost before = found.deep_view();
        let path = paths[i].as_str();
        proof {
            assert(all.take(i as int + 1).drop_last() =~= all.take(i as int));
            assert(all.take(i as int + 1).last() == path@);
            if rollout_candidates(threads@, files@, all.take(i as int + 1)) is Err {
                lemma_rollouts_fail(threads@, files@, all, i as int + 1);
            }
        }
        match state_of(files, path, &special) {
            FileState::Absent(problem) => {
                return Err(
                    "cannot inspect ".to_owned().concat(path).concat(": ").concat(
                        problem.as_str(),
                    ),
                );
            },
            FileState::Unreadable(problem) => {
                return Err(
                    "cannot inspect ".to_owned().concat(path).concat(": ").concat(
                        problem.as_str(),
                    ),
                );
            },
            FileState::Special => {},
            FileState::Regular(bytes, modified) => {
                let mut fingerprint = decimal_text(*bytes);
                fingerprint.append(":");
                push_decimal(&mut fingerprint, *modified);
                let candidate = MaintenanceCandidate {
                    key: "rollout:".to_owned().concat(path),
                    kind: MaintenanceKind::UnreferencedRollout,
                    label: match file_name(path) {
                        Some(name) => name,
                        None => "rollout.jsonl".to_owned(),
                    },
                    detail: paths[i].clone(),
                    project: project_from_path(threads, path),
                    bytes: *bytes,
                    fingerprint,
                };
                assert(candidate.deep_view() == rollout_candidate(
                    threads@,
                    path@,
                    *bytes,
                    *modified,
                ));
                found.push(candidate);
                assert(found.deep_view() =~= before.push(candidate.deep_view()));
            },
        }
        i += 1;
    }
    assert(all.take(i as int) =~= all);
    Ok(found)
}

proof fn lemma_rollouts_fail(
    threads: Map<Seq<char>, CatalogThreadView>,
    files: Map<Seq<char>, FileStateView>,
    paths: Seq<Seq<char>>,
    i: int,
)
    requires
        0 <= i <= paths.len(),
        rollout_candidates(threads, files, paths.take(i)) is Err,
    ensures
        rollout_candidates(threads, files, paths) == rollout_candidates(
            threads,
            files,
            paths.take(i),
        ),
    decreases paths.len() - i,
{
    if i < paths.len() {
        assert(paths.take(i + 1).drop_last() =~= paths.take(i));
        lemma_rollouts_fail(threads, files, paths, i + 1);
    } else {
        assert(paths.take(i) =~= paths);
    }
}

proof fn lemma_threads_fail(
    home: Seq<char>,
    threads: Map<Seq<char>, CatalogThreadView>,
    files: Map<Seq<char>, FileStateView>,
    ids: Seq<Seq<char>>,
    i: int,
)
    requires
        0 <= i <= ids.len(),
        thread_candidates(home, threads, files, ids.take(i)) is Err,
    ensures
        thread_candidates(home, threads, files, ids) == thread_candidates(
            home,
            threads,
            files,
            ids.take(i),
        ),
    decreases ids.len() - i,
{
    if i < ids.len() {
        assert(ids.take(i + 1).drop_last() =~= ids.take(i));
        lemma_threads_fail(home, threads, files, ids, i + 1);
    } else {
        assert(ids.take(i) =~= ids);
    }
}

fn candidate_of_thread(thread: &CatalogThread) -> (r: MaintenanceCandidate)
    ensures
        r.deep_view() == thread_candidate(thread.deep_view()),
{
    MaintenanceCandidate {
        key: "thread:".to_owned().concat(thread.id.as_str()),
        kind: MaintenanceKind::MissingRolloutThread,
        label: match &thread.title {
            Some(title) => title.clone(),
            None => thread.id.clone(),
        },
        detail: thread.rollout_path.clone(),
        project: Some(
            match &thread.project {
                Some(project) => project.clone(),
                None => thread.cwd.clone(),
            },
        ),
        bytes: 0,
        fingerprint: thread.id.clone().concat(":").concat(
            signed_decimal_text(thread.last_activity_ms).as_str(),
        ).concat(":").concat(thread.rollout_path.as_str()),
    }
}

fn find_threads(home: &str, threads: &TextMap<CatalogThread>, files: &TextMap<FileState>) -> (r:
    Result<Vec<MaintenanceCandidate>, String>)
    ensures
        result_view(r) == thread_candidates(
            home@,
            threads@,
            files@,
            ordered_texts(threads@.dom()),
        ),
{
    let ids = threads.keys();
    let ghost all = ids.deep_view();
    let special = FileState::Special;
    let mut found: Vec<MaintenanceCandidate> = Vec::new();
    let mut i: usize = 0;
    proof {
        assert(all.take(0) =~= Seq::empty());
        assert(found.deep_view() =~= Seq::empty());
    }
    while i < ids.len()
        invariant
            i <= ids@.len(),
            special.deep_view() is Special,
            all == ids.deep_view(),
            all == ordered_texts(threads@.dom()),
            all.to_set() == threads@.dom(),
            thread_candidates(home@, threads@, files@, all.take(i as int)) == Ok::<
                Seq<MaintenanceCandidateView>,
                Seq<char>,
            >(found.deep_view()),
        decreases ids.len() - i,
    {
        let ghost before = found.deep_view();
        proof {
            assert(all[i as int] == ids@[i as int]@);
            assert(all.to_set().contains(all[i as int]));
            assert(all.take(i as int + 1).drop_last() =~= all.take(i as int));
            assert(all.take(i as int + 1).last() == all[i as int]);
            if thread_candidates(home@, threads@, files@, all.take(i as int + 1)) is Err {
                lemma_threads_fail(home@, threads@, files@, all, i as int + 1);
            }
        }
        match threads.get(ids[i].as_str()) {
            Some(thread) => {
                let root = rollout_directory(home, thread.archived);
                let path = thread.rollout_path.as_str();
                if is_below(path, root.as_str()) {
                    match state_of(files, path, &special) {
                        FileState::Absent(_) => {
                            let candidate = candidate_of_thread(thread);
                            found.push(candidate);
                            assert(found.deep_view() =~= before.push(candidate.deep_view()));
                        },
                        FileState::Unreadable(problem) => {
                            return Err(
                                "cannot inspect ".to_owned().concat(path).concat(": ").concat(
                                    problem.as_str(),
                                ),
                            );
                        },
                        _ => {},
                    }
                }
            },
            None => {},
        }
        i += 1;
    }
    assert(all.take(i as int) =~= all);
    Ok(found)
}

fn find_edges(edges: &Vec<StaleSpawnEdge>) -> (r: Vec<MaintenanceCandidate>)
    ensures
        r.deep_view() == edges.deep_view().map_values(
            |edge: StaleSpawnEdgeView| edge_candidate(edge),
        ),
{
    let ghost want = edges.deep_view().map_values(|edge: StaleSpawnEdgeView| edge_candidate(edge));
    let mut r: Vec<MaintenanceCandidate> = Vec::new();
    let mut i: usize = 0;
    while i < edges.len()
        invariant
            i <= edges@.len(),
            want == edges.deep_view().map_values(|edge: StaleSpawnEdgeView| edge_candidate(edge)),
            r.deep_view() == want.take(i as int),
        decreases edges.len() - i,
    {
        let ghost before = r.deep_view();
        let edge = &edges[i];
        let parent = edge.parent.as_str();
        let child = edge.child.as_str();
        let candidate = MaintenanceCandidate {
            key: "edge:".to_owned().concat(parent).concat(":").concat(child),
            kind: MaintenanceKind::StaleSpawnEdge,
            label: parent.to_owned().concat(" → ").concat(child),
            detail: edge.status.clone(),
            project: None,
            bytes: 0,
            fingerprint: parent.to_owned().concat(":").concat(child).concat(":").concat(
                edge.status.as_str(),
            ),
        };
        r.push(candidate);
        proof {
            assert(edges.deep_view()[i as int] == edge.deep_view());
            assert(candidate.deep_view() == want[i as int]);
            assert(r.deep_view() =~= before.push(candidate.deep_view()));
            assert(r.deep_view() =~= want.take(i as int + 1));
        }
        i += 1;
    }
    assert(want.take(i as int) =~= want);
    r
}

/// What a scan of the disk and the catalog found.
pub struct MaintenanceDiscovery {
    pub active_rollouts: usize,
    pub archived_rollouts: usize,
    pub candidates: Vec<MaintenanceCandidate>,
}

/// Finds the leftover data that the disk and the catalog prove.
pub fn discover_maintenance(
    home: &str,
    sessions: &TextSet,
    archived: &TextSet,
    files: &TextMap<FileState>,
    catalog: &CatalogSnapshot,
) -> (r: Result<MaintenanceDiscovery, String>)
    ensures
        match discovered(home@, sessions@, archived@, files@, catalog.deep_view()) {
            Err(problem) => r matches Err(text) && text@ == problem,
            Ok(candidates) => r matches Ok(found) && found.candidates.deep_view() == candidates
                && found.active_rollouts == sessions@.len() && found.archived_rollouts
                == archived@.len(),
        },
{
    let orphaned = audit_rollout_roots(sessions, archived, catalog);
    let mut candidates = match find_rollouts(&catalog.threads, files, &orphaned) {
        Ok(found) => found,
        Err(problem) => {
            return Err(problem);
        },
    };
    let mut threads = match find_threads(home, &catalog.threads, files) {
        Ok(found) => found,
        Err(problem) => {
            return Err(problem);
        },
    };
    let mut edges = find_edges(&catalog.stale_edges);
    let ghost a = candidates.deep_view();
    let ghost b = edges.deep_view();
    let ghost c = threads.deep_view();
    candidates.append(&mut edges);
    assert(candidates.deep_view() =~= a + b);
    candidates.append(&mut threads);
    assert(candidates.deep_view() =~= a + b + c);
    Ok(
        MaintenanceDiscovery {
            active_rollouts: sessions.len(),
            archived_rollouts: archived.len(),
            candidates: stable_sort::<MaintenanceCandidate, ByKind>(candidates),
        },
    )
}

/// The string under a key of a line of the session index.
pub open spec fn index_string(line: Seq<char>, key: Seq<char>) -> Option<Seq<char>> {
    match json_member(line, key) {
        Some(member) => json_string(member),
        None => None,
    }
}

fn string_in_line(line: &str, key: &str) -> (r: Option<String>)
    ensures
        r.deep_view() == index_string(line@, key@),
{
    match member_of_json(line, key) {
        Some(member) => string_of_json(member.as_str()),
        None => None,
    }
}

fn is_string(value: &Option<String>, text: &str) -> (r: bool)
    ensures
        r == (value.deep_view() == Some(text@)),
{
    crate::text::option_is(value, text)
}

/// Whether the session index mentions an id, or what is wrong with it.
pub open spec fn mentioned(
    path: Seq<char>,
    lines: Seq<Result<Seq<char>, Seq<char>>>,
    id: Seq<char>,
) -> Result<bool, Seq<char>>
    decreases lines.len(),
{
    if lines.len() == 0 {
        Ok(false)
    } else {
        match lines[0] {
            Err(problem) => Err("cannot read "@ + path + ": "@ + problem),
            Ok(line) => match json_problem(line) {
                Some(problem) => Err("cannot parse "@ + path + ": "@ + problem),
                None => if index_string(line, "id"@) == Some(id) {
                    Ok(true)
                } else {
                    mentioned(path, lines.drop_first(), id)
                },
            },
        }
    }
}

/// The lines as values.
pub open spec fn lines_view(lines: Seq<Result<String, String>>) -> Seq<
    Result<Seq<char>, Seq<char>>,
> {
    lines.map_values(|line: Result<String, String>| result_view(line))
}

/// Whether the session index mentions an id.
pub fn session_index_contains(
    path: &str,
    lines: &Vec<Result<String, String>>,
    thread_id: &str,
) -> (r: Result<bool, String>)
    ensures
        result_view(r) == mentioned(path@, lines_view(lines@), thread_id@),
{
    let ghost all = lines_view(lines@);
    let mut i: usize = 0;
    assert(all.skip(0) =~= all);
    while i < lines.len()
        invariant
            i <= lines@.len(),
            all == lines_view(lines@),
            mentioned(path@, all, thread_id@) == mentioned(
                path@,
                all.skip(i as int),
                thread_id@,
            ),
        decreases lines.len() - i,
    {
        proof {
            let rest = all.skip(i as int);
            assert(rest[0] == result_view(lines@[i as int]));
            assert(rest.drop_first() =~= all.skip(i as int + 1));
        }
        match &lines[i] {
            Err(problem) => {
                return Err(
                    "cannot read ".to_owned().concat(path).concat(": ").concat(problem.as_str()),
                );
            },
            Ok(line) => {
                match problem_of_json(line.as_str()) {
                    Some(problem) => {
                        return Err(
                            "cannot parse ".to_owned().concat(path).concat(": ").concat(
                                problem.as_str(),
                            ),
                        );
                    },
                    None => {},
                }
                if is_string(&string_in_line(line.as_str(), "id"), thread_id) {
                    return Ok(true);
                }
            },
        }
        i += 1;
    }
    Ok(false)
}

/// A line of the session index is about an id.
pub open spec fn about(line: Seq<char>, id: Seq<char>) -> bool {
    index_string(line, "id"@) == Some(id) || index_string(line, "thread_id"@) == Some(id)
}

/// Drops the lines of the session index that are about an id, and says whether
/// there were any.
pub fn remove_session_index_entry(lines: &Vec<String>, thread_id: &str) -> (r: (Vec<String>, bool))
    ensures
        r.0.deep_view() == lines.deep_view().filter(|line: Seq<char>| !about(line, thread_id@)),
        r.1 == exists|i: int|
            0 <= i < lines@.len() && about(#[trigger] lines.deep_view()[i], thread_id@),
{
    let ghost all = lines.deep_view();
    let ghost keep = |line: Seq<char>| !about(line, thread_id@);
    let mut kept: Vec<String> = Vec::new();
    let mut changed = false;
    let mut i: usize = 0;
    proof {
        reveal(Seq::filter);
        assert(kept.deep_view() =~= all.take(0).filter(keep));
    }
    while i < lines.len()
        invariant
            i <= lines@.len(),
            all == lines.deep_view(),
            keep == (|line: Seq<char>| !about(line, thread_id@)),
            kept.deep_view() == all.take(i as int).filter(keep),
            changed == exists|k: int| 0 <= k < i && about(#[trigger] all[k], thread_id@),
        decreases lines.len() - i,
    {
        let ghost before = kept.deep_view();
        let line = lines[i].as_str();
        proof {
            reveal(Seq::filter);
            assert(all[i as int] == line@);
            assert(all.take(i as int + 1).drop_last() =~= all.take(i as int));
            assert(all.take(i as int + 1).last() == all[i as int]);
        }
        if is_string(&string_in_line(line, "id"), thread_id) || is_string(
            &string_in_line(line, "thread_id"),
            thread_id,
        ) {
            changed = true;
            assert(about(all[i as int], thread_id@));
        } else {
            kept.push(lines[i].clone());
            assert(kept.deep_view() =~= before.push(line@));
        }
        i += 1;
    }
    assert(all.take(i as int) =~= all);
    (kept, changed)
}

/// One place that a deleted thread must be gone from.
pub struct ResidueCheck {
    pub name: String,
    pub found: Result<bool, String>,
}

#[verifier::ext_equal]
pub struct ResidueCheckView {
    pub name: Seq<char>,
    pub found: Result<bool, Seq<char>>,
}

impl DeepView for ResidueCheck {
    type V = ResidueCheckView;

    open spec fn deep_view(&self) -> ResidueCheckView {
        ResidueCheckView { name: self.name@, found: result_view(self.found) }
    }
}

/// The places where a deleted thread was still found, or the first that could
/// not be looked at.
pub open spec fn residue(checks: Seq<ResidueCheckView>) -> Result<Seq<Seq<char>>, Seq<char>>
    decreases checks.len(),
{
    if checks.len() == 0 {
        Ok(Seq::empty())
    } else {
        match residue(checks.drop_last()) {
            Err(problem) => Err(problem),
            Ok(names) => match checks.last().found {
                Err(problem) => Err(problem),
                Ok(true) => Ok(names.push(checks.last().name)),
                Ok(false) => Ok(names),
            },
        }
    }
}

proof fn lemma_residue_fails(checks: Seq<ResidueCheckView>, i: int)
    requires
        0 <= i <= checks.len(),
        residue(checks.take(i)) is Err,
    ensures
        residue(checks) == residue(checks.take(i)),
    decreases checks.len() - i,
{
    if i < checks.len() {
        assert(checks.take(i + 1).drop_last() =~= checks.take(i));
        lemma_residue_fails(checks, i + 1);
    } else {
        assert(checks.take(i) =~= checks);
    }
}

/// The places where a deleted thread was still found.
pub fn deletion_residue(checks: &Vec<ResidueCheck>) -> (r: Result<Vec<String>, String>)
    ensures
        result_view(r) == residue(checks.deep_view()),
{
    let ghost all = checks.deep_view();
    let mut names: Vec<String> = Vec::new();
    let mut i: usize = 0;
    proof {
        assert(all.take(0) =~= Seq::empty());
        assert(names.deep_view() =~= Seq::empty());
    }
    while i < checks.len()
        invariant
            i <= checks@.len(),
            all == checks.deep_view(),
            residue(all.take(i as int)) == Ok::<Seq<Seq<char>>, Seq<char>>(names.deep_view()),
        decreases checks.len() - i,
    {
        let ghost before = names.deep_view();
        proof {
            assert(all.take(i as int + 1).drop_last() =~= all.take(i as int));
            assert(all.take(i as int + 1).last() == checks@[i as int].deep_view());
            if residue(all.take(i as int + 1)) is Err {
                lemma_residue_fails(all, i as int + 1);
            }
        }
        match &checks[i].found {
            Err(problem) => {
                return Err(problem.clone());
            },
            Ok(found) => {
                if *found {
                    names.push(checks[i].name.clone());
                    assert(names.deep_view() =~= before.push(checks@[i as int].name@));
                }
            },
        }
        i += 1;
    }
    assert(all.take(i as int) =~= all);
    Ok(names)
}

proof fn lemma_residue_clean(checks: Seq<ResidueCheckView>, i: int)
    requires
        residue(checks) == Ok::<Seq<Seq<char>>, Seq<char>>(Seq::empty()),
        0 <= i < checks.len(),
    ensures
        checks[i].found == Ok::<bool, Seq<char>>(false),
    decreases checks.len(),
{
    let names = residue(checks.drop_last());
    assert(names is Ok);
    if checks.last().found == Ok::<bool, Seq<char>>(true) {
        assert(names->Ok_0.push(checks.last().name).len() > 0);
    }
    if i < checks.len() - 1 {
        assert(names->Ok_0 =~= Seq::empty());
        lemma_residue_clean(checks.drop_last(), i);
    }
}

/// A deletion is taken as complete only where every place was looked at and
/// the thread was found in none.
pub proof fn law_clean_deletion(checks: Seq<ResidueCheckView>)
    requires
        residue(checks) == Ok::<Seq<Seq<char>>, Seq<char>>(Seq::empty()),
    ensures
        forall|i: int|
            0 <= i < checks.len() ==> (#[trigger] checks[i]).found == Ok::<bool, Seq<char>>(false),
{
    assert forall|i: int| 0 <= i < checks.len() implies (#[trigger] checks[i]).found == Ok::<
        bool,
        Seq<char>,
    >(false) by {
        lemma_residue_clean(checks, i);
    }
}

/// What was found at each place that a deleted thread must be gone from. A
/// place without an answer was not looked at.
pub open spec fn place_checks(
    history: bool,
    answers: Seq<Result<bool, Seq<char>>>,
) -> Seq<ResidueCheckView> {
    let names = searched_places(history);
    Seq::new(
        names.len(),
        |i: int|
            ResidueCheckView {
                name: names[i],
                found: if i < answers.len() {
                    answers[i]
                } else {
                    Err("cannot verify "@ + names[i])
                },
            },
    )
}

/// Answers, as values.
pub open spec fn answers_view(answers: Seq<Result<bool, String>>) -> Seq<Result<bool, Seq<char>>> {
    answers.map_values(|answer: Result<bool, String>| result_view(answer))
}

/// The places where a deleted thread was still found, given what was found at
/// each of the places, in their order.
pub fn residue_at_places(history: bool, answers: &Vec<Result<bool, String>>) -> (r: Result<
    Vec<String>,
    String,
>)
    ensures
        result_view(r) == residue(place_checks(history, answers_view(answers@))),
{
    let places = residue_places(history);
    let ghost names = searched_places(history);
    let ghost want = place_checks(history, answers_view(answers@));
    let mut checks: Vec<ResidueCheck> = Vec::new();
    let mut i: usize = 0;
    proof {
        assert(names.len() == places@.len());
        assert(checks.deep_view() =~= want.take(0));
    }
    while i < places.len()
        invariant
            i <= places@.len(),
            names == searched_places(history),
            names == places@.map_values(|place: Place| place_name(place)),
            want == place_checks(history, answers_view(answers@)),
            checks.deep_view() == want.take(i as int),
        decreases places.len() - i,
    {
        let ghost before = checks.deep_view();
        let name = places[i].name();
        assert(names[i as int] == name@);
        let found = if i < answers.len() {
            match &answers[i] {
                Ok(found) => Ok(*found),
                Err(problem) => Err(problem.clone()),
            }
        } else {
            Err("cannot verify ".to_owned().concat(name.as_str()))
        };
        let check = ResidueCheck { name, found };
        checks.push(check);
        proof {
            assert(check.deep_view() == want[i as int]);
            assert(checks.deep_view() =~= before.push(check.deep_view()));
            assert(checks.deep_view() =~= want.take(i as int + 1));
        }
        i += 1;
    }
    assert(want.take(i as int) =~= want);
    deletion_residue(&checks)
}

/// A deletion is taken as complete only where each of the places was looked at,
/// and the thread was found in none of them.
pub proof fn law_every_place_is_searched(history: bool, answers: Seq<Result<bool, Seq<char>>>)
    requires
        residue(place_checks(history, answers)) == Ok::<Seq<Seq<char>>, Seq<char>>(Seq::empty()),
    ensures
        answers.len() >= searched_places(history).len(),
        forall|i: int|
            0 <= i < searched_places(history).len() ==> #[trigger] answers[i] == Ok::<
                bool,
                Seq<char>,
            >(false),
{
    let checks = place_checks(history, answers);
    law_clean_deletion(checks);
    assert forall|i: int| 0 <= i < searched_places(history).len() implies i < answers.len()
        && #[trigger] answers[i] == Ok::<bool, Seq<char>>(false) by {
        assert(checks[i].found == Ok::<bool, Seq<char>>(false));
    }
    let last = searched_places(history).len() - 1;
    assert(checks[last].found == Ok::<bool, Seq<char>>(false));
}

/// A character that a batch id may hold.
pub open spec fn batch_char(c: char) -> bool {
    ('a' <= c && c <= 'z') || ('A' <= c && c <= 'Z') || ('0' <= c && c <= '9') || c == '-' || c
        == '_'
}

/// A batch id that can name a directory.
pub open spec fn valid_batch_id(id: Seq<char>) -> bool {
    id.len() > 0 && forall|i: int| 0 <= i < id.len() ==> batch_char(#[trigger] id[i])
}

pub fn is_valid_batch_id(batch_id: &str) -> (r: bool)
    ensures
        r == valid_batch_id(batch_id@),
{
    let v = chars_of(batch_id);
    if v.len() == 0 {
        return false;
    }
    let mut i: usize = 0;
    while i < v.len()
        invariant
            i <= v@.len(),
            v@ == batch_id@,
            v@.len() > 0,
            forall|k: int| 0 <= k < i ==> batch_char(#[trigger] batch_id@[k]),
        decreases v.len() - i,
    {
        let c = v[i];
        if !(('a' <= c && c <= 'z') || ('A' <= c && c <= 'Z') || ('0' <= c && c <= '9') || c == '-'
            || c == '_') {
            assert(!batch_char(batch_id@[i as int]));
            return false;
        }
        i += 1;
    }
    true
}

/// Where the backups of a batch go.
pub fn backup_root(home: &str, batch_id: &str) -> (r: Result<String, VaultError>)
    ensures
        result_view(r) == if valid_batch_id(batch_id@) {
            Ok::<Seq<char>, VaultErrorView>(
                joined_path(joined_path(home@, "codex-vault-backups"@), batch_id@),
            )
        } else {
            Err(VaultErrorView::Blocked("invalid maintenance batch id"@))
        },
{
    if !is_valid_batch_id(batch_id) {
        return Err(VaultError::Blocked("invalid maintenance batch id".to_owned()));
    }
    Ok(join_path(join_path(home, "codex-vault-backups").as_str(), batch_id))
}

/// The first candidate with the key.
pub open spec fn with_key(
    candidates: Seq<MaintenanceCandidateView>,
    key: Seq<char>,
) -> Option<MaintenanceCandidateView>
    decreases candidates.len(),
{
    if candidates.len() == 0 {
        None
    } else if candidates[0].key == key {
        Some(candidates[0])
    } else {
        with_key(candidates.drop_first(), key)
    }
}

/// The candidate that is to be cleaned up, as it is found now; it must be of
/// the kind and have the fingerprint that were shown.
pub open spec fn still_there(
    candidates: Seq<MaintenanceCandidateView>,
    expected: MaintenanceCandidateView,
) -> Result<MaintenanceCandidateView, VaultErrorView> {
    match with_key(candidates, expected.key) {
        None => Err(VaultErrorView::StalePreview),
        Some(actual) => if actual.kind != expected.kind || actual.fingerprint
            != expected.fingerprint {
            Err(VaultErrorView::StalePreview)
        } else {
            Ok(actual)
        },
    }
}

/// The candidate that is to be cleaned up, as it is found now.
pub fn find_current(candidates: &Vec<MaintenanceCandidate>, expected: &MaintenanceCandidate) -> (r:
    Result<MaintenanceCandidate, VaultError>)
    ensures
        result_view(r) == still_there(candidates.deep_view(), expected.deep_view()),
{
    let ghost all = candidates.deep_view();
    let mut i: usize = 0;
    assert(all.skip(0) =~= all);
    while i < candidates.len()
        invariant
            i <= candidates@.len(),
            all == candidates.deep_view(),
            with_key(all, expected.key@) == with_key(all.skip(i as int), expected.key@),
        decreases candidates.len() - i,
    {
        let actual = &candidates[i];
        proof {
            let rest = all.skip(i as int);
            assert(rest[0] == actual.deep_view());
            assert(rest.drop_first() =~= all.skip(i as int + 1));
        }
        if same(actual.key.as_str(), expected.key.as_str()) {
            if actual.kind != expected.kind || !same(
                actual.fingerprint.as_str(),
                expected.fingerprint.as_str(),
            ) {
                return Err(VaultError::StalePreview);
            }
            return Ok(actual.clone());
        }
        i += 1;
    }
    Err(VaultError::StalePreview)
}

/// A cleanup touches only what is found now as it was shown.
pub proof fn law_cleanup_matches_what_was_shown(
    candidates: Seq<MaintenanceCandidateView>,
    expected: MaintenanceCandidateView,
)
    ensures
        still_there(candidates, expected) matches Ok(actual) ==> candidates.contains(actual)
            && actual.key == expected.key && actual.kind == expected.kind && actual.fingerprint
            == expected.fingerprint,
{
    lemma_with_key(candidates, expected.key);
}

proof fn lemma_with_key(candidates: Seq<MaintenanceCandidateView>, key: Seq<char>)
    ensures
        with_key(candidates, key) matches Some(c) ==> candidates.contains(c) && c.key == key,
    decreases candidates.len(),
{
    if candidates.len() > 0 {
        if candidates[0].key == key {
            assert(candidates.contains(candidates[0]));
        } else {
            lemma_with_key(candidates.drop_first(), key);
            if with_key(candidates, key) is Some {
                let c = with_key(candidates, key)->0;
                let k = candidates.drop_first().index_of(c);
                assert(candidates[k + 1] == c);
            }
        }
    }
}

/// The edge that a fingerprint is of: the parent up to the first colon, the
/// child up to the second, the status behind it.
pub open spec fn edge_of(fingerprint: Seq<char>) -> StaleSpawnEdgeView {
    match split_at_first(fingerprint, ':') {
        None => StaleSpawnEdgeView {
            parent: fingerprint,
            child: Seq::empty(),
            status: Seq::empty(),
        },
        Some((parent, rest)) => match split_at_first(rest, ':') {
            None => StaleSpawnEdgeView { parent, child: rest, status: Seq::empty() },
            Some((child, status)) => StaleSpawnEdgeView { parent, child, status },
        },
    }
}

/// The edge that a candidate's fingerprint is of; a parent and a child are
/// required.
pub fn edge_from_fingerprint(fingerprint: &str) -> (r: Result<StaleSpawnEdge, VaultError>)
    ensures
        ({
            let edge = edge_of(fingerprint@);
            result_view(r) == if edge.parent.len() == 0 || edge.child.len() == 0 {
                Err::<StaleSpawnEdgeView, VaultErrorView>(VaultErrorView::StalePreview)
            } else {
                Ok(edge)
            }
        }),
{
    let empty = String::new();
    assert(empty@ =~= Seq::empty());
    let edge = match split_once(fingerprint, ':') {
        None => StaleSpawnEdge {
            parent: fingerprint.to_owned(),
            child: String::new(),
            status: empty,
        },
        Some((parent, rest)) => match split_once(rest.as_str(), ':') {
            None => StaleSpawnEdge { parent, child: rest, status: empty },
            Some((child, status)) => StaleSpawnEdge { parent, child, status },
        },
    };
    assert(edge.deep_view() =~= edge_of(fingerprint@));
    if chars_of(edge.parent.as_str()).len() == 0 || chars_of(edge.child.as_str()).len() == 0 {
        return Err(VaultError::StalePreview);
    }
    Ok(edge)
}

/// The fingerprint of an edge gives the edge back, where neither its parent
/// nor its child holds a colon.
pub proof fn law_edge_fingerprint_round_trip(edge: StaleSpawnEdgeView)
    requires
        !edge.parent.contains(':'),
        !edge.child.contains(':'),
    ensures
        edge_of(edge_fingerprint(edge)) == edge,
{
    reveal_strlit(":");
    let f = edge_fingerprint(edge);
    let rest = edge.child + ":"@ + edge.status;
    let m = edge.parent.len() as int;
    let n = edge.child.len() as int;
    assert forall|k: int| 0 <= k < m implies f[k] != ':' by {
        assert(f[k] == edge.parent[k]);
        assert(edge.parent.contains(edge.parent[k]));
    }
    assert(f[m] == ':');
    crate::text::lemma_first_of(f, ':', m);
    assert(f.take(m) =~= edge.parent);
    assert(f.skip(m + 1) =~= rest);
    assert forall|k: int| 0 <= k < n implies rest[k] != ':' by {
        assert(rest[k] == edge.child[k]);
        assert(edge.child.contains(edge.child[k]));
    }
    assert(rest[n] == ':');
    crate::text::lemma_first_of(rest, ':', n);
    assert(rest.take(n) =~= edge.child);
    assert(rest.skip(n + 1) =~= edge.status);
}

/// The thread that a candidate's key is of.
pub fn thread_from_key(key: &str) -> (r: Result<String, VaultError>)
    ensures
        result_view(r) == match without_prefix(key@, "thread:"@) {
            Some(id) => if id.len() > 0 {
                Ok::<Seq<char>, VaultErrorView>(id)
            } else {
                Err(VaultErrorView::StalePreview)
            },
            None => Err(VaultErrorView::StalePreview),
        },
{
    match strip_prefix(key, "thread:") {
        Some(id) => if chars_of(id.as_str()).len() > 0 {
            Ok(id)
        } else {
            Err(VaultError::StalePreview)
        },
        None => Err(VaultError::StalePreview),
    }
}

/// Where the backup of a rollout file goes, below the backups of its batch.
/// The file must lie below one of the two directories of rollout files.
pub fn rollout_backup_target(home: &str, backups: &str, path: &str) -> (r: Result<
    String,
    VaultError,
>)
    ensures
        result_view(r) == if below(path@, rollout_root(home@, false)) || below(
            path@,
            rollout_root(home@, true),
        ) {
            match relative_to(path@, home@) {
                Some(relative) => Ok::<Seq<char>, VaultErrorView>(
                    joined_path(joined_path(backups@, "rollouts"@), relative),
                ),
                None => Err(VaultErrorView::Blocked("rollout path escaped CODEX_HOME"@)),
            }
        } else {
            Err(
                VaultErrorView::Blocked(
                    "rollout cleanup path is outside CODEX_HOME: "@ + path@,
                ),
            )
        },
{
    if !is_below(path, rollout_directory(home, false).as_str()) && !is_below(
        path,
        rollout_directory(home, true).as_str(),
    ) {
        return Err(
            VaultError::Blocked(
                "rollout cleanup path is outside CODEX_HOME: ".to_owned().concat(path),
            ),
        );
    }
    match relative_path(path, home) {
        Some(relative) => Ok(
            join_path(join_path(backups, "rollouts").as_str(), relative.as_str()),
        ),
        None => Err(VaultError::Blocked("rollout path escaped CODEX_HOME".to_owned())),
    }
}

} // verus!
