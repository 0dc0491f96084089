//! What a scan holds after each of its steps, in terms of what was listed,
//! catalogued and read.

use crate::codex::catalog::{CatalogSnapshotView, CatalogThreadView};
use crate::codex::scan::{
    adopted, as_listed, batch, catalog_notes, catalog_only_ids, catalogued, discovery_notes,
    filled, lacks_parent, server_only, unreferenced_among, with_listed, with_parents,
    without_parent, ListedView, ReadView, ScanView,
};
use crate::codex::settle_laws::told_of;
use crate::codex::thread::{parent_of, source_of, ThreadView};
use crate::domain::{MaintenanceCandidateView, MaintenanceKind, SessionSourceView};
use crate::ordered::{lemma_filter_member, lemma_ordered_members, ordered_texts};
use crate::text::{decimal, has_text, occurs_at};
use vstd::prelude::*;

verus! {

broadcast use vstd::group_vstd_default;

/// Each listed thread is held under its id, as it was listed last; what was
/// held before stays where no such id was listed. The relations stay complete
/// exactly where no id came twice, and each time one did is told.
pub proof fn law_each_listed_thread_is_held(scan: ScanView, listed: Seq<ListedView>, id: Seq<char>)
    ensures
        ({
            let after = with_listed(scan, listed);
            let twice = (exists|i: int|
                0 <= i < listed.len() && scan.raw.contains_key((#[trigger] listed[i]).dto.id)) || (
            exists|i: int, k: int|
                0 <= i < k < listed.len() && (#[trigger] listed[i]).dto.id == (
                #[trigger] listed[k]).dto.id);
            &&& after.raw.contains_key(id) <==> scan.raw.contains_key(id) || exists|i: int|
                0 <= i < listed.len() && (#[trigger] listed[i]).dto.id == id
            &&& (forall|i: int| 0 <= i < listed.len() ==> (#[trigger] listed[i]).dto.id != id)
                && scan.raw.contains_key(id) ==> after.raw[id] == scan.raw[id]
            &&& forall|i: int|
                0 <= i < listed.len() && (#[trigger] listed[i]).dto.id == id && (forall|k: int|
                    i < k < listed.len() ==> (#[trigger] listed[k]).dto.id != id)
                    ==> after.raw[id] == listed[i]
            &&& after.relation_complete <==> scan.relation_complete && !twice
            &&& after.storage_complete == scan.storage_complete
            &&& after.diagnostics.len() >= scan.diagnostics.len()
            &&& after.diagnostics == scan.diagnostics <==> !twice
        }),
    decreases listed.len(),
{
    if listed.len() > 0 {
        let head = listed.drop_last();
        let last = listed.len() - 1;
        let new = listed[last].dto.id;
        law_each_listed_thread_is_held(scan, head, id);
        law_each_listed_thread_is_held(scan, head, new);
        let before = with_listed(scan, head);
        let after = with_listed(scan, listed);
        assert forall|i: int| 0 <= i < last implies #[trigger] head[i] == listed[i] by {}
        let known = before.raw.contains_key(new);
        if exists|i: int| 0 <= i < head.len() && (#[trigger] head[i]).dto.id == id {
            let i = choose|i: int| 0 <= i < head.len() && (#[trigger] head[i]).dto.id == id;
            assert(listed[i].dto.id == id);
        }
        if exists|i: int| 0 <= i < listed.len() && (#[trigger] listed[i]).dto.id == id {
            let i = choose|i: int| 0 <= i < listed.len() && (#[trigger] listed[i]).dto.id == id;
            if i < last {
                assert(head[i].dto.id == id);
            }
        }
        if (forall|i: int| 0 <= i < listed.len() ==> (#[trigger] listed[i]).dto.id != id)
            && scan.raw.contains_key(id) {
            assert forall|i: int| 0 <= i < head.len() implies (#[trigger] head[i]).dto.id != id by {
                assert(listed[i].dto.id != id);
            }
            assert(listed[last].dto.id != id);
        }
        assert forall|i: int|
            0 <= i < listed.len() && (#[trigger] listed[i]).dto.id == id && (forall|k: int|
                i < k < listed.len() ==> (#[trigger] listed[k]).dto.id
                    != id) implies after.raw[id] == listed[i] by {
            if i < last {
                assert(listed[last].dto.id != id);
                assert(head[i].dto.id == id);
                assert forall|k: int| i < k < head.len() implies (#[trigger] head[k]).dto.id
                    != id by {
                    assert(listed[k].dto.id != id);
                }
            }
        }
        let twice_before = (exists|i: int|
            0 <= i < head.len() && scan.raw.contains_key((#[trigger] head[i]).dto.id)) || (exists|
            i: int,
            k: int,
        |
            0 <= i < k < head.len() && (#[trigger] head[i]).dto.id == (
            #[trigger] head[k]).dto.id);
        let twice = (exists|i: int|
            0 <= i < listed.len() && scan.raw.contains_key((#[trigger] listed[i]).dto.id)) || (
        exists|i: int, k: int|
            0 <= i < k < listed.len() && (#[trigger] listed[i]).dto.id == (
            #[trigger] listed[k]).dto.id);
        assert(twice <==> twice_before || known) by {
            if known {
                if scan.raw.contains_key(new) {
                    assert(scan.raw.contains_key(listed[last].dto.id));
                } else {
                    let i = choose|i: int|
                        0 <= i < head.len() && (#[trigger] head[i]).dto.id == new;
                    assert(listed[i].dto.id == listed[last].dto.id);
                }
            }
            if twice_before {
                if exists|i: int|
                    0 <= i < head.len() && scan.raw.contains_key((#[trigger] head[i]).dto.id) {
                    let i = choose|i: int|
                        0 <= i < head.len() && scan.raw.contains_key((#[trigger] head[i]).dto.id);
                    assert(scan.raw.contains_key(listed[i].dto.id));
                } else {
                    let (i, k) = choose|i: int, k: int|
                        0 <= i < k < head.len() && (#[trigger] head[i]).dto.id == (
                        #[trigger] head[k]).dto.id;
                    assert(listed[i].dto.id == listed[k].dto.id);
                }
            }
            if twice {
                if exists|i: int|
                    0 <= i < listed.len() && scan.raw.contains_key(
                        (#[trigger] listed[i]).dto.id,
                    ) {
                    let i = choose|i: int|
                        0 <= i < listed.len() && scan.raw.contains_key(
                            (#[trigger] listed[i]).dto.id,
                        );
                    if i < last {
                        assert(scan.raw.contains_key(head[i].dto.id));
                    }
                } else {
                    let (i, k) = choose|i: int, k: int|
                        0 <= i < k < listed.len() && (#[trigger] listed[i]).dto.id == (
                        #[trigger] listed[k]).dto.id;
                    assert(head[i].dto.id == listed[i].dto.id);
                    if k < last {
                        assert(head[i].dto.id == head[k].dto.id);
                    }
                }
            }
        }
        if after.diagnostics == scan.diagnostics {
            assert(after.diagnostics.len() == scan.diagnostics.len());
            assert(!known);
        }
    }
}

/// What the server lists under one heading is held with that archive state.
pub proof fn law_a_listing_says_what_is_archived(threads: Seq<ThreadView>, archived: bool, i: int)
    requires
        0 <= i < threads.len(),
    ensures
        as_listed(threads, archived).len() == threads.len(),
        as_listed(threads, archived)[i].dto == threads[i],
        as_listed(threads, archived)[i].archived == archived,
{
}

/// With a catalog, exactly the threads stay that both the server and the
/// catalog know; each is archived as the catalog says, and has the catalog's
/// directory, project, pin and parent. The relations stay complete exactly
/// where every edge found its parent, and the storage where the files could be
/// searched.
pub proof fn law_the_catalog_takes_over(
    scan: ScanView,
    catalog: CatalogSnapshotView,
    found: Result<(nat, nat, Seq<MaintenanceCandidateView>), Seq<char>>,
    id: Seq<char>,
)
    ensures
        ({
            let after = catalogued(scan, catalog, found);
            &&& after.raw.contains_key(id) <==> scan.raw.contains_key(id)
                && catalog.threads.contains_key(id)
            &&& after.raw.contains_key(id) ==> {
                let (listed, thread) = (after.raw[id], catalog.threads[id]);
                &&& listed.archived == thread.archived
                &&& listed.dto.id == scan.raw[id].dto.id
                &&& listed.dto.name == scan.raw[id].dto.name
                &&& listed.dto.status == scan.raw[id].dto.status
                &&& listed.dto.cwd == Some(thread.cwd)
                &&& listed.dto.project_id == thread.project
                &&& listed.dto.is_pinned == Some(thread.pinned)
                &&& listed.dto.parent_thread_id == thread.parent_id
                &&& listed.dto.source == thread.source
            }
            &&& after.relation_complete <==> scan.relation_complete
                && catalog.unresolved_child_edges == 0
            &&& after.storage_complete <==> scan.storage_complete && found is Ok
            &&& scan.diagnostics.len() <= after.diagnostics.len()
            &&& after.diagnostics.take(scan.diagnostics.len() as int) == scan.diagnostics
            &&& found is Err || catalog.ignored_orphan_edges > 0 || catalog.unresolved_child_edges
                > 0 ==> after.diagnostics.len() > scan.diagnostics.len()
        }),
{
    let after = catalogued(scan, catalog, found);
    assert(after.diagnostics.take(scan.diagnostics.len() as int) =~= scan.diagnostics);
}

/// What only one of the server and the catalog has: the ids that the server
/// lists and the catalog does not have, and the other way round.
pub proof fn law_what_only_one_side_has(
    raw: Map<Seq<char>, ListedView>,
    threads: Map<Seq<char>, CatalogThreadView>,
    id: Seq<char>,
)
    requires
        raw.dom().finite(),
        threads.dom().finite(),
    ensures
        server_only(raw, threads).contains(id) <==> raw.contains_key(id) && !threads.contains_key(
            id,
        ),
        catalog_only_ids(raw, threads).contains(id) <==> threads.contains_key(id)
            && !raw.contains_key(id),
{
    lemma_ordered_members(raw.dom());
    lemma_ordered_members(threads.dom());
    lemma_filter_member(
        ordered_texts(raw.dom()),
        |x: Seq<char>| !threads.contains_key(x),
        id,
    );
    lemma_filter_member(
        ordered_texts(threads.dom()),
        |x: Seq<char>| !raw.contains_key(x),
        id,
    );
    assert(ordered_texts(raw.dom()).to_set().contains(id) == ordered_texts(raw.dom()).contains(
        id,
    ));
    assert(ordered_texts(threads.dom()).to_set().contains(id) == ordered_texts(
        threads.dom(),
    ).contains(id));
}

/// A catalogued thread that was asked for is held afterwards, whatever the
/// server answered, archived as the catalog says and with the catalog's
/// directory. Where the server answered, its name and status are the server's;
/// where it did not, the status says so and the failure is told. Nothing else
/// changes, and nothing is doubted on that account.
pub proof fn law_catalogued_threads_are_filled_in(
    scan: ScanView,
    threads: Map<Seq<char>, CatalogThreadView>,
    reads: Map<Seq<char>, ReadView>,
    ids: Seq<Seq<char>>,
    id: Seq<char>,
)
    ensures
        ({
            let after = filled(scan, threads, reads, ids);
            let asked = ids.contains(id) && threads.contains_key(id);
            &&& after.raw.contains_key(id) <==> scan.raw.contains_key(id) || asked
            &&& scan.raw.contains_key(id) && !asked ==> after.raw[id] == scan.raw[id]
            &&& asked ==> {
                let (listed, thread) = (after.raw[id], threads[id]);
                let answer = if reads.contains_key(id) {
                    Some(reads[id])
                } else {
                    None
                };
                &&& listed.archived == thread.archived
                &&& listed.dto.cwd == Some(thread.cwd)
                &&& listed.dto.is_pinned == Some(thread.pinned)
                &&& listed.dto.parent_thread_id == thread.parent_id
                &&& answer matches Some(ReadView::Found(dto)) ==> listed.dto.name == dto.name
                    && listed.dto.status == dto.status && listed.dto.id == dto.id
                &&& !(answer matches Some(ReadView::Found(_))) ==> listed.dto.id == thread.id
                    && listed.dto.name is None && listed.dto.status is Some
            }
            &&& after.relation_complete == scan.relation_complete
            &&& after.storage_complete == scan.storage_complete
            &&& after.diagnostics.len() >= scan.diagnostics.len()
            &&& asked && !(reads.contains_key(id) && reads[id] is Found)
                ==> after.diagnostics.len() > scan.diagnostics.len()
        }),
    decreases ids.len(),
{
    if ids.len() > 0 {
        let head = ids.drop_last();
        let last = ids.len() - 1;
        law_catalogued_threads_are_filled_in(scan, threads, reads, head, id);
        if ids.contains(id) {
            let k = ids.index_of(id);
            if k < last {
                assert(head[k] == id);
                assert(head.contains(id));
            }
        }
        if head.contains(id) {
            assert(ids[head.index_of(id)] == id);
            assert(ids.contains(id));
        }
        if ids[last] == id {
            assert(ids.contains(id));
        }
    }
}

/// A thread is asked for its parent exactly where it is a sub-agent and has
/// none.
pub proof fn law_orphans_are_asked_for(raw: Map<Seq<char>, ListedView>, id: Seq<char>)
    requires
        raw.dom().finite(),
    ensures
        without_parent(raw).contains(id) <==> raw.contains_key(id) && source_of(raw[id].dto.source)
            == SessionSourceView::Descendant && parent_of(raw[id].dto) is None,
{
    lemma_ordered_members(raw.dom());
    lemma_filter_member(
        ordered_texts(raw.dom()),
        |x: Seq<char>| lacks_parent(raw[x].dto),
        id,
    );
    assert(ordered_texts(raw.dom()).to_set().contains(id) == ordered_texts(raw.dom()).contains(
        id,
    ));
}

/// A thread is held, was found when it was read, says the same of its source
/// as when it was listed, and has a parent.
pub open spec fn adopts(
    raw: Map<Seq<char>, ListedView>,
    reads: Map<Seq<char>, ReadView>,
    id: Seq<char>,
) -> bool {
    &&& raw.contains_key(id)
    &&& reads.contains_key(id)
    &&& reads[id] matches ReadView::Found(read) && parent_of(read) is Some && source_of(read.source)
        == source_of(raw[id].dto.source)
}

/// The relations stay complete exactly where each thread that was asked for
/// its parent has one, and says the same of its source as before; a thread that
/// was read has the parent and the source that it was read with.
pub proof fn law_parents_must_be_proven(
    scan: ScanView,
    reads: Map<Seq<char>, ReadView>,
    ids: Seq<Seq<char>>,
)
    requires
        ids.no_duplicates(),
    ensures
        ({
            let after = with_parents(scan, reads, ids);
            &&& after.relation_complete <==> scan.relation_complete && forall|i: int|
                0 <= i < ids.len() ==> adopts(scan.raw, reads, #[trigger] ids[i])
            &&& after.storage_complete == scan.storage_complete
            &&& after.raw.dom() == scan.raw.dom()
            &&& forall|id: Seq<char>| #[trigger]
                scan.raw.contains_key(id) ==> {
                    let (was, is) = (scan.raw[id], after.raw[id]);
                    let read = ids.contains(id) && reads.contains_key(id) && reads[id] is Found;
                    &&& !read ==> is == was
                    &&& read ==> parent_of(is.dto) == parent_of(reads[id]->Found_0)
                        && is.dto.source == reads[id]->Found_0.source
                    &&& is.archived == was.archived
                    &&& is.dto.id == was.dto.id
                    &&& is.dto.name == was.dto.name
                    &&& is.dto.status == was.dto.status
                }
        }),
    decreases ids.len(),
{
    if ids.len() == 0 {
        assert(forall|i: int|
            0 <= i < ids.len() ==> adopts(scan.raw, reads, #[trigger] ids[i]));
    } else {
        let head = ids.drop_last();
        let last = ids.len() - 1;
        let id = ids[last];
        assert(head.no_duplicates()) by {
            assert forall|i: int, k: int|
                0 <= i < head.len() && 0 <= k < head.len() && i != k implies head[i] != head[k] by {
                assert(ids[i] != ids[k]);
            }
        }
        law_parents_must_be_proven(scan, reads, head);
        let before = with_parents(scan, reads, head);
        let after = with_parents(scan, reads, ids);
        assert(!head.contains(id)) by {
            if head.contains(id) {
                let k = head.index_of(id);
                assert(ids[k] != ids[last]);
            }
        }
        assert(before.raw.contains_key(id) == scan.raw.contains_key(id)) by {
            assert(before.raw.dom().contains(id) == scan.raw.dom().contains(id));
        }
        assert(after.raw.dom() =~= scan.raw.dom());
        let read = scan.raw.contains_key(id) && reads.contains_key(id) && reads[id] is Found;
        if read {
            assert(before.raw[id] == scan.raw[id]);
            lemma_adopted(before.raw[id], reads[id]->Found_0);
        }
        assert(after.relation_complete <==> before.relation_complete && adopts(
            scan.raw,
            reads,
            id,
        ));
        assert((forall|i: int|
            0 <= i < ids.len() ==> adopts(scan.raw, reads, #[trigger] ids[i])) <==> (forall|i: int|
            0 <= i < head.len() ==> adopts(scan.raw, reads, #[trigger] head[i])) && adopts(
            scan.raw,
            reads,
            id,
        )) by {
            if forall|i: int| 0 <= i < ids.len() ==> adopts(scan.raw, reads, #[trigger] ids[i]) {
                assert(adopts(scan.raw, reads, ids[last]));
                assert forall|i: int| 0 <= i < head.len() implies adopts(
                    scan.raw,
                    reads,
                    #[trigger] head[i],
                ) by {
                    assert(adopts(scan.raw, reads, ids[i]));
                }
            }
            if (forall|i: int| 0 <= i < head.len() ==> adopts(scan.raw, reads, #[trigger] head[i]))
                && adopts(scan.raw, reads, id) {
                assert forall|i: int| 0 <= i < ids.len() implies adopts(
                    scan.raw,
                    reads,
                    #[trigger] ids[i],
                ) by {
                    if i < last {
                        assert(adopts(scan.raw, reads, head[i]));
                    }
                }
            }
        }
        assert forall|x: Seq<char>| #[trigger] scan.raw.contains_key(x) implies {
            let (was, is) = (scan.raw[x], after.raw[x]);
            let read = ids.contains(x) && reads.contains_key(x) && reads[x] is Found;
            &&& !read ==> is == was
            &&& read ==> parent_of(is.dto) == parent_of(reads[x]->Found_0) && is.dto.source
                == reads[x]->Found_0.source
            &&& is.archived == was.archived
            &&& is.dto.id == was.dto.id
            &&& is.dto.name == was.dto.name
            &&& is.dto.status == was.dto.status
        } by {
            assert(ids.contains(x) <==> head.contains(x) || x == id) by {
                if ids.contains(x) {
                    let k = ids.index_of(x);
                    if k < last {
                        assert(head[k] == x);
                    }
                }
                if head.contains(x) {
                    assert(ids[head.index_of(x)] == x);
                }
                if x == id {
                    assert(ids[last] == x);
                }
            }
            assert(before.raw.dom().contains(x));
        }
    }
}

proof fn lemma_adopted(listed: ListedView, read: ThreadView)
    ensures
        parent_of(adopted(listed, read).dto) == parent_of(read),
{
}

/// The ids are read in lots that hold each of them once, in their order, and
/// none of which holds more than sixty-four.
pub proof fn law_lots_hold_every_id(ids: Seq<Seq<char>>, i: int)
    requires
        0 <= i < ids.len(),
    ensures
        batch(ids, i / 64).len() <= 64,
        i % 64 < batch(ids, i / 64).len(),
        batch(ids, i / 64)[i % 64] == ids[i],
        (i / 64) * 64 + batch(ids, i / 64).len() == ids.len() || batch(ids, i / 64).len() == 64,
{
}

/// What the catalog leaves out is told with its number: the stale edges, the
/// threads whose parent is missing, and the threads that the server lists and
/// the catalog does not have. Where there is nothing of the kind, and no file
/// without a thread, nothing is told.
pub proof fn law_what_the_catalog_leaves_out_is_counted(
    scan: ScanView,
    catalog: CatalogSnapshotView,
    found: Result<(nat, nat, Seq<MaintenanceCandidateView>), Seq<char>>,
)
    ensures
        ({
            let after = catalogued(scan, catalog, found).diagnostics;
            let from = scan.diagnostics.len() as int;
            let (stale, unresolved) = (catalog.ignored_orphan_edges, catalog.unresolved_child_edges);
            let extra = server_only(scan.raw, catalog.threads).len();
            &&& stale > 0 ==> told_of(after, from, decimal(stale as int))
            &&& unresolved > 0 ==> told_of(after, from, decimal(unresolved as int))
            &&& extra > 0 ==> told_of(after, from, decimal(extra as int))
            &&& found matches Err(problem) ==> told_of(after, from, problem)
            &&& stale == 0 && unresolved == 0 && extra == 0 && (found matches Ok((_, _, candidates))
                && forall|i: int|
                0 <= i < candidates.len() ==> (#[trigger] candidates[i]).kind
                    != MaintenanceKind::UnreferencedRollout) ==> after == scan.diagnostics
        }),
{
    let after = catalogued(scan, catalog, found).diagnostics;
    let from = scan.diagnostics.len() as int;
    let (a, b) = (discovery_notes(found), catalog_notes(scan.raw, catalog));
    let (stale, unresolved) = (catalog.ignored_orphan_edges, catalog.unresolved_child_edges);
    let extra = server_only(scan.raw, catalog.threads).len();
    if stale > 0 {
        lemma_within(
            "ignored "@,
            decimal(stale as int),
            " stale spawn edges whose child is absent from the task catalog"@,
        );
        assert(after[from + a.len()] == b[0]);
    }
    if unresolved > 0 {
        let k: int = if stale > 0 {
            1
        } else {
            0
        };
        lemma_within(
            Seq::empty(),
            decimal(unresolved as int),
            " catalog tasks reference missing parent rows"@,
        );
        assert(Seq::<char>::empty() + decimal(unresolved as int) =~= decimal(unresolved as int));
        assert(after[from + a.len() + k] == b[k]);
    }
    if extra > 0 {
        let k = b.len() - 1;
        lemma_within(
            "ignored "@,
            decimal(extra as int),
            " app-server rows absent from the authoritative task catalog"@,
        );
        assert(after[from + a.len() + k] == b[k]);
    }
    if found is Err {
        let problem = found->Err_0;
        lemma_within("rollout root scan is incomplete: "@, problem, Seq::empty());
        assert("rollout root scan is incomplete: "@ + problem + Seq::<char>::empty()
            =~= "rollout root scan is incomplete: "@ + problem);
        assert(after[from] == a[0]);
    }
    if found is Ok {
        let (_, _, candidates) = found->Ok_0;
        let keep = |c: MaintenanceCandidateView| c.kind == MaintenanceKind::UnreferencedRollout;
        let kept = candidates.filter(keep);
        assert(kept == unreferenced_among(candidates));
        if kept.len() > 0 {
            assert(kept.contains(kept[0]));
            lemma_filter_member(candidates, keep, kept[0]);
            let i = candidates.index_of(kept[0]);
            assert(candidates[i].kind == MaintenanceKind::UnreferencedRollout);
        } else if stale == 0 && unresolved == 0 && extra == 0 {
            assert(after =~= scan.diagnostics);
        }
    }
}

proof fn lemma_within(before: Seq<char>, part: Seq<char>, behind: Seq<char>)
    ensures
        has_text(before + part + behind, part),
{
    let s = before + part + behind;
    let n = before.len() as int;
    assert(s.subrange(n, n + part.len()) =~= part);
    assert(occurs_at(s, part, n));
}

} // verus!
