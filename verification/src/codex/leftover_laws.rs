//! What leftover data a scan offers.

use crate::codex::catalog::{CatalogSnapshotView, CatalogThreadView, StaleSpawnEdgeView};
use crate::codex::maintenance::{
    by_components, by_kind, discovered, edge_candidate, ids_in_path, kind_rank, referenced,
    rollout_candidate, rollout_candidates, rollout_root, state_at, thread_candidate,
    thread_candidates, unreferenced, FileStateView,
};
use crate::domain::{MaintenanceCandidateView, MaintenanceKind};
use crate::ordered::{
    ascending, in_order, law_sorted_in_order, lemma_filter_member, lemma_ordered_members,
    lemma_sorted_contains, ordered_texts, sorted_by, weak_order,
};
use crate::path::{below, components, joined_path, last_part, lemma_components_order};
use crate::text::{has_text, lemma_text_lt_order, occurs_at, text_lt, without_suffix};
use vstd::prelude::*;

verus! {

broadcast use vstd::group_vstd_default;

/// A candidate for a rollout file that no thread references.
pub open spec fn is_orphan(
    sessions: Set<Seq<char>>,
    archived: Set<Seq<char>>,
    files: Map<Seq<char>, FileStateView>,
    threads: Map<Seq<char>, CatalogThreadView>,
    path: Seq<char>,
    c: MaintenanceCandidateView,
) -> bool {
    &&& sessions.contains(path) || archived.contains(path)
    &&& !referenced(threads, path)
    &&& state_at(files, path) matches FileStateView::Regular(bytes, modified) && c
        == rollout_candidate(threads, path, bytes, modified)
}

/// A candidate for a thread whose rollout file is gone from where it must lie.
pub open spec fn is_bodiless(
    home: Seq<char>,
    files: Map<Seq<char>, FileStateView>,
    threads: Map<Seq<char>, CatalogThreadView>,
    id: Seq<char>,
    c: MaintenanceCandidateView,
) -> bool {
    &&& threads.contains_key(id)
    &&& below(threads[id].rollout_path, rollout_root(home, threads[id].archived))
    &&& state_at(files, threads[id].rollout_path) is Absent
    &&& c == thread_candidate(threads[id])
}

proof fn lemma_rollouts(
    threads: Map<Seq<char>, CatalogThreadView>,
    files: Map<Seq<char>, FileStateView>,
    paths: Seq<Seq<char>>,
    c: MaintenanceCandidateView,
)
    requires
        rollout_candidates(threads, files, paths) is Ok,
    ensures
        rollout_candidates(threads, files, paths)->Ok_0.contains(c) <==> exists|path: Seq<char>|
            #[trigger]
            paths.contains(path) && (state_at(files, path) matches FileStateView::Regular(
                bytes,
                modified,
            ) && c == rollout_candidate(threads, path, bytes, modified)),
    decreases paths.len(),
{
    let all = rollout_candidates(threads, files, paths)->Ok_0;
    if paths.len() > 0 {
        let head = paths.drop_last();
        let before = rollout_candidates(threads, files, head)->Ok_0;
        lemma_rollouts(threads, files, head, c);
        let last = paths.last();
        assert(paths[paths.len() - 1] == last);
        assert(paths.contains(last));
        if all.contains(c) {
            let k = all.index_of(c);
            if k < before.len() {
                assert(before[k] == c);
                assert(before.contains(c));
                let path = choose|path: Seq<char>| #[trigger]
                    head.contains(path) && (state_at(files, path) matches FileStateView::Regular(
                        bytes,
                        modified,
                    ) && c == rollout_candidate(threads, path, bytes, modified));
                assert(paths[head.index_of(path)] == path);
                assert(paths.contains(path));
            }
        }
        if exists|path: Seq<char>| #[trigger]
            paths.contains(path) && (state_at(files, path) matches FileStateView::Regular(
                bytes,
                modified,
            ) && c == rollout_candidate(threads, path, bytes, modified)) {
            let path = choose|path: Seq<char>| #[trigger]
                paths.contains(path) && (state_at(files, path) matches FileStateView::Regular(
                    bytes,
                    modified,
                ) && c == rollout_candidate(threads, path, bytes, modified));
            let k = paths.index_of(path);
            if k < head.len() {
                assert(head[k] == path);
                assert(head.contains(path));
                assert(before.contains(c));
                assert(all[before.index_of(c)] == c);
            } else {
                assert(all[all.len() - 1] == c);
            }
        }
    }
}

proof fn lemma_threads(
    home: Seq<char>,
    threads: Map<Seq<char>, CatalogThreadView>,
    files: Map<Seq<char>, FileStateView>,
    ids: Seq<Seq<char>>,
    c: MaintenanceCandidateView,
)
    requires
        thread_candidates(home, threads, files, ids) is Ok,
        forall|i: int| 0 <= i < ids.len() ==> threads.contains_key(#[trigger] ids[i]),
    ensures
        thread_candidates(home, threads, files, ids)->Ok_0.contains(c) <==> exists|id: Seq<char>|
            #[trigger]
            ids.contains(id) && is_bodiless(home, files, threads, id, c),
    decreases ids.len(),
{
    let all = thread_candidates(home, threads, files, ids)->Ok_0;
    if ids.len() > 0 {
        let head = ids.drop_last();
        let before = thread_candidates(home, threads, files, head)->Ok_0;
        assert forall|i: int| 0 <= i < head.len() implies threads.contains_key(
            #[trigger] head[i],
        ) by {
            assert(head[i] == ids[i]);
        }
        lemma_threads(home, threads, files, head, c);
        let last = ids.last();
        assert(ids[ids.len() - 1] == last);
        assert(ids.contains(last));
        if all.contains(c) {
            let k = all.index_of(c);
            if k < before.len() {
                assert(before[k] == c);
                assert(before.contains(c));
                let id = choose|id: Seq<char>| #[trigger]
                    head.contains(id) && is_bodiless(home, files, threads, id, c);
                assert(ids[head.index_of(id)] == id);
                assert(ids.contains(id));
            }
        }
        if exists|id: Seq<char>| #[trigger]
            ids.contains(id) && is_bodiless(home, files, threads, id, c) {
            let id = choose|id: Seq<char>| #[trigger]
                ids.contains(id) && is_bodiless(home, files, threads, id, c);
            let k = ids.index_of(id);
            if k < head.len() {
                assert(head[k] == id);
                assert(head.contains(id));
                assert(before.contains(c));
                assert(all[before.index_of(c)] == c);
            } else {
                assert(all[all.len() - 1] == c);
            }
        }
    }
}

proof fn lemma_by_kind()
    ensures
        weak_order(by_kind()),
{
    let lt = by_kind();
    assert forall|a: MaintenanceCandidateView, b: MaintenanceCandidateView| #[trigger]
        lt(a, b) implies !lt(b, a) by {
        lemma_text_lt_order(a.key, b.key, a.key);
    }
    assert forall|
        a: MaintenanceCandidateView,
        b: MaintenanceCandidateView,
        c: MaintenanceCandidateView,
    | !(#[trigger] lt(b, a)) && !(#[trigger] lt(c, b)) implies !lt(c, a) by {
        lemma_text_lt_order(b.key, a.key, c.key);
        lemma_text_lt_order(c.key, a.key, b.key);
        lemma_text_lt_order(a.key, b.key, c.key);
    }
}

/// What is offered comes by kind and key, and is exactly this: the regular
/// rollout files that no thread references, the stale edges of the catalog, and
/// the threads whose rollout file is gone from where it must lie.
pub proof fn law_only_leftovers_are_offered(
    home: Seq<char>,
    sessions: Set<Seq<char>>,
    archived: Set<Seq<char>>,
    files: Map<Seq<char>, FileStateView>,
    catalog: CatalogSnapshotView,
    c: MaintenanceCandidateView,
)
    requires
        sessions.finite(),
        archived.finite(),
        catalog.threads.dom().finite(),
        discovered(home, sessions, archived, files, catalog) is Ok,
    ensures
        ({
            let found = discovered(home, sessions, archived, files, catalog)->Ok_0;
            &&& in_order(found, by_kind())
            &&& found.contains(c) <==> {
                ||| exists|path: Seq<char>| #[trigger]
                    is_orphan(sessions, archived, files, catalog.threads, path, c)
                ||| exists|edge: StaleSpawnEdgeView| #[trigger]
                    catalog.stale_edges.contains(edge) && c == edge_candidate(edge)
                ||| exists|id: Seq<char>| #[trigger]
                    is_bodiless(home, files, catalog.threads, id, c)
            }
        }),
{
    let threads = catalog.threads;
    let paths = unreferenced(sessions, archived, threads);
    let ids = ordered_texts(threads.dom());
    let a = rollout_candidates(threads, files, paths)->Ok_0;
    let b = catalog.stale_edges.map_values(|edge: StaleSpawnEdgeView| edge_candidate(edge));
    let d = thread_candidates(home, threads, files, ids)->Ok_0;
    let found = discovered(home, sessions, archived, files, catalog)->Ok_0;
    let all = a + b + d;
    lemma_by_kind();
    law_sorted_in_order(all, by_kind());
    lemma_sorted_contains(all, by_kind(), c);
    lemma_ordered_members(sessions.union(archived));
    lemma_ordered_members(threads.dom());
    assert forall|i: int| 0 <= i < ids.len() implies threads.contains_key(#[trigger] ids[i]) by {
        assert(ids.to_set().contains(ids[i]));
    }
    lemma_rollouts(threads, files, paths, c);
    lemma_threads(home, threads, files, ids, c);
    let both = ordered_texts(sessions.union(archived));
    let keep = |path: Seq<char>| !referenced(threads, path);
    assert forall|path: Seq<char>| paths.contains(path) <==> (sessions.contains(path)
        || archived.contains(path)) && !referenced(threads, path) by {
        lemma_sorted_contains(both.filter(keep), by_components(), path);
        lemma_filter_member(both, keep, path);
        assert(both.contains(path) <==> both.to_set().contains(path));
    }
    assert(a.contains(c) <==> exists|path: Seq<char>| #[trigger]
        is_orphan(sessions, archived, files, threads, path, c)) by {
        if a.contains(c) {
            let path = choose|path: Seq<char>| #[trigger]
                paths.contains(path) && (state_at(files, path) matches FileStateView::Regular(
                    bytes,
                    modified,
                ) && c == rollout_candidate(threads, path, bytes, modified));
            assert(is_orphan(sessions, archived, files, threads, path, c));
        }
        if exists|path: Seq<char>| #[trigger]
            is_orphan(sessions, archived, files, threads, path, c) {
            let path = choose|path: Seq<char>| #[trigger]
                is_orphan(sessions, archived, files, threads, path, c);
            assert(paths.contains(path));
        }
    }
    assert(d.contains(c) <==> exists|id: Seq<char>| #[trigger]
        is_bodiless(home, files, threads, id, c)) by {
        if exists|id: Seq<char>| #[trigger] is_bodiless(home, files, threads, id, c) {
            let id = choose|id: Seq<char>| #[trigger] is_bodiless(home, files, threads, id, c);
            assert(ids.to_set().contains(id));
            assert(ids.contains(id));
        }
    }
    assert(b.contains(c) <==> exists|edge: StaleSpawnEdgeView| #[trigger]
        catalog.stale_edges.contains(edge) && c == edge_candidate(edge)) by {
        if b.contains(c) {
            let k = b.index_of(c);
            assert(catalog.stale_edges.contains(catalog.stale_edges[k]));
        }
        if exists|edge: StaleSpawnEdgeView| #[trigger]
            catalog.stale_edges.contains(edge) && c == edge_candidate(edge) {
            let edge = choose|edge: StaleSpawnEdgeView| #[trigger]
                catalog.stale_edges.contains(edge) && c == edge_candidate(edge);
            assert(b[catalog.stale_edges.index_of(edge)] == c);
        }
    }
    assert(all.contains(c) <==> a.contains(c) || b.contains(c) || d.contains(c)) by {
        if a.contains(c) {
            assert(all[a.index_of(c)] == c);
        }
        if b.contains(c) {
            assert(all[a.len() + b.index_of(c)] == c);
        }
        if d.contains(c) {
            assert(all[a.len() + b.len() + d.index_of(c)] == c);
        }
        if all.contains(c) {
            let k = all.index_of(c);
            if k < a.len() {
                assert(a[k] == c);
            } else if k < a.len() + b.len() {
                assert(b[k - a.len()] == c);
            } else {
                assert(d[k - a.len() - b.len()] == c);
            }
        }
    }
}

/// The unreferenced files come in the order of their components.
pub proof fn law_unreferenced_in_order(
    sessions: Set<Seq<char>>,
    archived: Set<Seq<char>>,
    threads: Map<Seq<char>, CatalogThreadView>,
)
    ensures
        in_order(unreferenced(sessions, archived, threads), by_components()),
{
    let lt = by_components();
    assert forall|a: Seq<char>, b: Seq<char>| #[trigger] lt(a, b) implies !lt(b, a) by {
        lemma_components_order(components(a), components(b), components(a));
    }
    assert forall|a: Seq<char>, b: Seq<char>, c: Seq<char>|
        !(#[trigger] lt(b, a)) && !(#[trigger] lt(c, b)) implies !lt(c, a) by {
        lemma_components_order(components(a), components(b), components(c));
        lemma_components_order(components(b), components(c), components(a));
        lemma_components_order(components(c), components(a), components(b));
    }
    law_sorted_in_order(
        ordered_texts(sessions.union(archived)).filter(
            |path: Seq<char>| !referenced(threads, path),
        ),
        lt,
    );
}

/// Nothing is offered that was not seen: a file only where it was found in one
/// of the directories of sessions, was looked at as a regular file of so many
/// bytes and is the file of no thread, in whatever spelling; a thread only
/// where its file was looked for in the directory for its archive state and
/// was not there; an edge only where it is stale.
pub proof fn law_leftovers_were_seen(
    home: Seq<char>,
    sessions: Set<Seq<char>>,
    archived: Set<Seq<char>>,
    files: Map<Seq<char>, FileStateView>,
    catalog: CatalogSnapshotView,
    c: MaintenanceCandidateView,
)
    requires
        sessions.finite(),
        archived.finite(),
        catalog.threads.dom().finite(),
        discovered(home, sessions, archived, files, catalog) is Ok,
        discovered(home, sessions, archived, files, catalog)->Ok_0.contains(c),
    ensures
        c.kind is UnreferencedRollout ==> {
            let path = c.detail;
            &&& sessions.contains(path) || archived.contains(path)
            &&& files.contains_key(path)
            &&& files[path] matches FileStateView::Regular(bytes, modified) && c.bytes == bytes
            &&& forall|id: Seq<char>| #[trigger]
                catalog.threads.contains_key(id) ==> components(catalog.threads[id].rollout_path)
                    != components(path)
        },
        c.kind is MissingRolloutThread ==> exists|id: Seq<char>| #[trigger]
            catalog.threads.contains_key(id) && {
                let thread = catalog.threads[id];
                &&& c.detail == thread.rollout_path
                &&& files.contains_key(thread.rollout_path)
                &&& files[thread.rollout_path] is Absent
                &&& below(
                    thread.rollout_path,
                    joined_path(
                        home,
                        if thread.archived {
                            "archived_sessions"@
                        } else {
                            "sessions"@
                        },
                    ),
                )
            },
        c.kind is StaleSpawnEdge ==> exists|edge: StaleSpawnEdgeView| #[trigger]
            catalog.stale_edges.contains(edge) && c.detail == edge.status,
{
    law_only_leftovers_are_offered(home, sessions, archived, files, catalog, c);
    let threads = catalog.threads;
    if exists|path: Seq<char>| #[trigger]
        is_orphan(sessions, archived, files, threads, path, c) {
        let path = choose|path: Seq<char>| #[trigger]
            is_orphan(sessions, archived, files, threads, path, c);
        assert(c.detail == path);
    } else if exists|edge: StaleSpawnEdgeView| #[trigger]
        catalog.stale_edges.contains(edge) && c == edge_candidate(edge) {
        let edge = choose|edge: StaleSpawnEdgeView| #[trigger]
            catalog.stale_edges.contains(edge) && c == edge_candidate(edge);
        assert(catalog.stale_edges.contains(edge));
    } else {
        let id = choose|id: Seq<char>| #[trigger] is_bodiless(home, files, threads, id, c);
        assert(threads.contains_key(id));
    }
}

/// Files come before edges and edges before threads, and those of one kind by
/// their keys.
pub proof fn law_leftovers_come_by_kind(
    home: Seq<char>,
    sessions: Set<Seq<char>>,
    archived: Set<Seq<char>>,
    files: Map<Seq<char>, FileStateView>,
    catalog: CatalogSnapshotView,
    i: int,
    j: int,
)
    requires
        sessions.finite(),
        archived.finite(),
        catalog.threads.dom().finite(),
        discovered(home, sessions, archived, files, catalog) is Ok,
        0 <= i < j < discovered(home, sessions, archived, files, catalog)->Ok_0.len(),
    ensures
        ({
            let found = discovered(home, sessions, archived, files, catalog)->Ok_0;
            let (sooner, later) = (found[i].kind, found[j].kind);
            &&& later is UnreferencedRollout ==> sooner is UnreferencedRollout
            &&& later is StaleSpawnEdge ==> !(sooner is MissingRolloutThread)
            &&& sooner == later ==> !text_lt(found[j].key, found[i].key)
        }),
{
    let found = discovered(home, sessions, archived, files, catalog)->Ok_0;
    law_only_leftovers_are_offered(home, sessions, archived, files, catalog, found[i]);
    let lt = by_kind();
    assert(!lt(found[j], found[i]));
}

/// A file in a directory of sessions that no thread references and that cannot
/// be looked at is not passed over: there is no answer.
pub proof fn law_a_file_that_cannot_be_looked_at_is_not_passed_over(
    home: Seq<char>,
    sessions: Set<Seq<char>>,
    archived: Set<Seq<char>>,
    files: Map<Seq<char>, FileStateView>,
    catalog: CatalogSnapshotView,
    path: Seq<char>,
)
    requires
        sessions.finite(),
        archived.finite(),
        sessions.contains(path) || archived.contains(path),
        forall|id: Seq<char>| #[trigger]
            catalog.threads.contains_key(id) ==> components(catalog.threads[id].rollout_path)
                != components(path),
        files.contains_key(path),
        files[path] is Unreadable || files[path] is Absent,
    ensures
        discovered(home, sessions, archived, files, catalog) is Err,
{
    let threads = catalog.threads;
    let both = ordered_texts(sessions.union(archived));
    let keep = |p: Seq<char>| !referenced(threads, p);
    lemma_ordered_members(sessions.union(archived));
    assert(both.to_set().contains(path));
    lemma_filter_member(both, keep, path);
    lemma_sorted_contains(both.filter(keep), by_components(), path);
    let paths = unreferenced(sessions, archived, threads);
    assert(paths.contains(path));
    lemma_unseen_file(threads, files, paths, paths.index_of(path));
}

proof fn lemma_unseen_file(
    threads: Map<Seq<char>, CatalogThreadView>,
    files: Map<Seq<char>, FileStateView>,
    paths: Seq<Seq<char>>,
    i: int,
)
    requires
        0 <= i < paths.len(),
        files.contains_key(paths[i]),
        files[paths[i]] is Unreadable || files[paths[i]] is Absent,
    ensures
        rollout_candidates(threads, files, paths) is Err,
    decreases paths.len(),
{
    if i < paths.len() - 1 {
        assert(paths.drop_last()[i] == paths[i]);
        lemma_unseen_file(threads, files, paths.drop_last(), i);
    }
}

/// The project shown for a file that no thread references is the one of a
/// thread whose id stands in its path, the first of those in the order of their
/// ids, or the directory of that thread where it has none; there is none
/// exactly where no id stands in the path.
pub proof fn law_a_path_tells_its_project(
    threads: Map<Seq<char>, CatalogThreadView>,
    path: Seq<char>,
    bytes: u64,
    modified: u128,
)
    requires
        threads.dom().finite(),
    ensures
        ({
            let project = rollout_candidate(threads, path, bytes, modified).project;
            &&& project is None <==> forall|id: Seq<char>| #[trigger]
                threads.contains_key(id) ==> !has_text(path, id)
            &&& project is Some ==> exists|id: Seq<char>|
                {
                    &&& #[trigger] threads.contains_key(id)
                    &&& has_text(path, id)
                    &&& threads[id].project is Some ==> project == threads[id].project
                    &&& threads[id].project is None ==> project == Some(threads[id].cwd)
                    &&& forall|other: Seq<char>| #[trigger]
                        threads.contains_key(other) && has_text(path, other) ==> other == id
                            || text_lt(id, other)
                }
        }),
{
    let all = ordered_texts(threads.dom());
    let keep = |id: Seq<char>| has_text(path, id);
    let ids = all.filter(keep);
    lemma_ordered_members(threads.dom());
    assert(ids == ids_in_path(threads, path));
    assert forall|id: Seq<char>| #[trigger] threads.contains_key(id) && has_text(
        path,
        id,
    ) implies ids.contains(id) by {
        assert(all.to_set().contains(id));
        lemma_filter_member(all, keep, id);
    }
    if ids.len() > 0 {
        let id = ids[0];
        assert(ids.contains(id));
        lemma_filter_member(all, keep, id);
        assert(all.to_set().contains(id));
        assert(threads.contains_key(id) && has_text(path, id));
        assert forall|other: Seq<char>| #[trigger] threads.contains_key(other) && has_text(
            path,
            other,
        ) implies other == id || text_lt(id, other) by {
            let k = ids.index_of(other);
            lemma_filter_ascending(all, keep);
            if k > 0 {
                assert(text_lt(ids[0], ids[k]));
            }
        }
    }
}

proof fn lemma_filter_ascending(s: Seq<Seq<char>>, keep: spec_fn(Seq<char>) -> bool)
    requires
        ascending(s),
    ensures
        ascending(s.filter(keep)),
    decreases s.len(),
{
    reveal(Seq::filter);
    if s.len() > 0 {
        let head = s.drop_last();
        assert forall|i: int, j: int| 0 <= i < j < head.len() implies text_lt(
            #[trigger] head[i],
            #[trigger] head[j],
        ) by {
            assert(head[i] == s[i] && head[j] == s[j]);
        }
        lemma_filter_ascending(head, keep);
        let kept = head.filter(keep);
        let now = s.filter(keep);
        assert forall|i: int, j: int| 0 <= i < j < now.len() implies text_lt(
            #[trigger] now[i],
            #[trigger] now[j],
        ) by {
            if j < kept.len() {
                assert(now[i] == kept[i] && now[j] == kept[j]);
            } else {
                assert(now[i] == kept[i]);
                assert(kept.contains(kept[i]));
                lemma_filter_member(head, keep, kept[i]);
                let k = head.index_of(kept[i]);
                assert(s[k] == kept[i]);
            }
        }
    }
}

/// What a leftover shows of itself: a file its name, its path and its size; a
/// thread its title, or its id where it has none, and the place of the file
/// that is gone; an edge both of its threads and its status. What holds no
/// file holds no bytes.
pub proof fn law_what_a_leftover_shows(
    threads: Map<Seq<char>, CatalogThreadView>,
    dir: Seq<char>,
    name: Seq<char>,
    bytes: u64,
    modified: u128,
    thread: CatalogThreadView,
    edge: StaleSpawnEdgeView,
)
    ensures
        ({
            let path = dir + "/"@ + name;
            let file = rollout_candidate(threads, path, bytes, modified);
            &&& last_part(path) == Some(name) ==> file.label == name
            &&& file.detail == path
            &&& file.bytes == bytes
            &&& file.key == "rollout:"@ + path
        }),
        ({
            let c = thread_candidate(thread);
            &&& thread.title is Some ==> c.label == thread.title->0
            &&& thread.title is None ==> c.label == thread.id
            &&& c.detail == thread.rollout_path
            &&& c.bytes == 0
            &&& c.key == "thread:"@ + thread.id
            &&& thread.project is Some ==> c.project == thread.project
            &&& thread.project is None ==> c.project == Some(thread.cwd)
        }),
        ({
            let c = edge_candidate(edge);
            &&& occurs_at(c.label, edge.parent, 0)
            &&& without_suffix(c.label, edge.child) is Some
            &&& c.detail == edge.status
            &&& c.bytes == 0
            &&& c.project is None
        }),
{
    let label = edge_candidate(edge).label;
    let p = edge.parent.len() as int;
    assert(label.subrange(0, p) =~= edge.parent);
    assert(label.subrange(label.len() - edge.child.len(), label.len() as int) =~= edge.child);
}

} // verus!
