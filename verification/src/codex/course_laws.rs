//! What a scan asks for and how each answer leads on, in terms of the answers,
//! and what is remembered of deletions.

use crate::codex::catalog::{CatalogSnapshotView, CatalogThreadView};
use crate::codex::course::{
    after, after_delete, after_outcome, asked, batches_of, first_batch, later_batches, ran,
    CourseView, ScanEventView, ScanOutcomeView, ScanSettingView, ScanStepView, TracesView,
};
use crate::codex::draft::DraftView;
use crate::codex::scan::{
    as_listed, catalog_only_ids, started, with_listed, ListedView, ScanView,
};
use crate::codex::scan_laws::law_each_listed_thread_is_held;
use crate::codex::maintenance::FileStateView;
use crate::codex::settle::{
    lemma_deletes_keep_capability, pins_listed, with_deletes, with_pins, PendingDeleteView, PinListingView,
};
use crate::codex::settle_laws::{
    law_a_snapshot_holds_each_session, law_deletions_leave_sessions_alone,
    law_which_deletions_are_complete,
};
use crate::codex::thread::ThreadView;
use crate::domain::{MaintenanceCandidateView, VaultErrorView};
use vstd::prelude::*;

verus! {

broadcast use vstd::group_vstd_default;

/// Every id is in one of the lots in which they are read, and only once: the
/// lots one behind the other are the ids.
pub proof fn law_lots_are_the_ids(ids: Seq<Seq<char>>, i: int)
    requires
        0 <= i < ids.len(),
    ensures
        i / 64 < batches_of(ids).len(),
        i % 64 < batches_of(ids)[i / 64].len(),
        batches_of(ids)[i / 64][i % 64] == ids[i],
        forall|k: int|
            0 <= k < batches_of(ids).len() ==> 0 < (#[trigger] batches_of(ids)[k]).len() <= 64,
        forall|k: int|
            0 <= k < batches_of(ids).len() - 1 ==> (#[trigger] batches_of(ids)[k]).len() == 64,
{
}

/// A scan first asks for the threads that are not archived, then for those
/// that are. Where both come back, it holds each of them, and says of each
/// under which heading it was listed last.
pub proof fn law_both_listings_are_held(
    diagnostics: Seq<Seq<char>>,
    setting: ScanSettingView,
    live: Seq<ThreadView>,
    archived: Seq<ThreadView>,
    id: Seq<char>,
)
    ensures
        ({
            let first = ran(diagnostics, setting, Seq::empty());
            let events = seq![
                ScanEventView::Listed(Ok(live)),
                ScanEventView::Listed(Ok(archived)),
            ];
            let second = ran(diagnostics, setting, events.take(1));
            let third = ran(diagnostics, setting, events);
            let in_live = exists|i: int| 0 <= i < live.len() && (#[trigger] live[i]).id == id;
            let in_archived = exists|i: int|
                0 <= i < archived.len() && (#[trigger] archived[i]).id == id;
            &&& asked(first) == ScanStepView::List(false)
            &&& asked(second) == ScanStepView::List(true)
            &&& asked(third) == ScanStepView::Catalog
            &&& third matches CourseView::Catalog { scan } && {
                &&& scan.raw.contains_key(id) <==> in_live || in_archived
                &&& in_archived ==> scan.raw[id].archived
                &&& in_live && !in_archived ==> !scan.raw[id].archived
                &&& in_live && in_archived ==> !scan.relation_complete
            }
        }),
{
    let events = seq![ScanEventView::Listed(Ok(live)), ScanEventView::Listed(Ok(archived))];
    assert(events.drop_last() =~= events.take(1));
    assert(events.take(1).drop_last() =~= Seq::empty());
    let first = ran(diagnostics, setting, Seq::empty());
    let second = ran(diagnostics, setting, events.take(1));
    let third = ran(diagnostics, setting, events);
    let middle = with_listed(started(diagnostics), as_listed(live, false));
    let end = with_listed(middle, as_listed(archived, true));
    assert(second == after(first, events[0], setting));
    assert(second == CourseView::Listing { scan: middle, archived: true });
    assert(third == after(second, events[1], setting));
    assert(third == CourseView::Catalog { scan: end });
    lemma_held_first(diagnostics, live, id);
    lemma_held_then(middle, archived, id);
}

proof fn lemma_held_first(diagnostics: Seq<Seq<char>>, live: Seq<ThreadView>, id: Seq<char>)
    ensures
        ({
            let middle = with_listed(started(diagnostics), as_listed(live, false));
            let in_live = exists|i: int| 0 <= i < live.len() && (#[trigger] live[i]).id == id;
            &&& middle.raw.contains_key(id) <==> in_live
            &&& in_live ==> !middle.raw[id].archived
        }),
{
    let a = as_listed(live, false);
    let start = started(diagnostics);
    law_each_listed_thread_is_held(start, a, id);
    if exists|i: int| 0 <= i < live.len() && (#[trigger] live[i]).id == id {
        let i = choose|i: int| 0 <= i < live.len() && (#[trigger] live[i]).id == id;
        assert(a[i].dto.id == id);
        let k = lemma_last_listed(a, id, i);
        assert(with_listed(start, a).raw[id] == a[k]);
    } else if exists|i: int| 0 <= i < a.len() && (#[trigger] a[i]).dto.id == id {
        let i = choose|i: int| 0 <= i < a.len() && (#[trigger] a[i]).dto.id == id;
        assert(live[i].id == id);
    }
}

proof fn lemma_held_then(middle: ScanView, archived: Seq<ThreadView>, id: Seq<char>)
    ensures
        ({
            let end = with_listed(middle, as_listed(archived, true));
            let in_archived = exists|i: int|
                0 <= i < archived.len() && (#[trigger] archived[i]).id == id;
            &&& end.raw.contains_key(id) <==> middle.raw.contains_key(id) || in_archived
            &&& in_archived ==> end.raw[id].archived
            &&& !in_archived && middle.raw.contains_key(id) ==> end.raw[id] == middle.raw[id]
            &&& in_archived && middle.raw.contains_key(id) ==> !end.relation_complete
        }),
{
    let b = as_listed(archived, true);
    law_each_listed_thread_is_held(middle, b, id);
    if exists|i: int| 0 <= i < archived.len() && (#[trigger] archived[i]).id == id {
        let i = choose|i: int| 0 <= i < archived.len() && (#[trigger] archived[i]).id == id;
        assert(b[i].dto.id == id);
        let k = lemma_last_listed(b, id, i);
        assert(with_listed(middle, b).raw[id] == b[k]);
        if middle.raw.contains_key(id) {
            assert(middle.raw.contains_key(b[i].dto.id));
        }
    } else {
        assert forall|i: int| 0 <= i < b.len() implies (#[trigger] b[i]).dto.id != id by {
            assert(archived[i].id != id);
        }
    }
}

proof fn lemma_last_listed(
    listed: Seq<ListedView>,
    id: Seq<char>,
    i: int,
) -> (last: int)
    requires
        0 <= i < listed.len(),
        listed[i].dto.id == id,
    ensures
        i <= last < listed.len(),
        listed[last].dto.id == id,
        forall|k: int| last < k < listed.len() ==> (#[trigger] listed[k]).dto.id != id,
    decreases listed.len() - i,
{
    if exists|k: int| i < k < listed.len() && (#[trigger] listed[k]).dto.id == id {
        let k = choose|k: int| i < k < listed.len() && (#[trigger] listed[k]).dto.id == id;
        lemma_last_listed(listed, id, k)
    } else {
        i
    }
}

/// A listing that fails ends the scan with its error, and so does a broken
/// read of what the catalog alone has.
pub proof fn law_a_failed_listing_ends_the_scan(
    scan: ScanView,
    archived: bool,
    threads: Map<Seq<char>, CatalogThreadView>,
    left: Seq<Seq<Seq<char>>>,
    error: VaultErrorView,
    setting: ScanSettingView,
)
    ensures
        after(CourseView::Listing { scan, archived }, ScanEventView::Listed(Err(error)), setting)
            == CourseView::Failed(error),
        after(
            CourseView::Missing { scan, threads, left },
            ScanEventView::Read(Err(error)),
            setting,
        ) == CourseView::Failed(error),
{
}

/// With a catalog, the threads that it alone has are read next, lot by lot,
/// where there are any.
pub proof fn law_what_the_catalog_alone_has_is_read(
    scan: ScanView,
    catalog: CatalogSnapshotView,
    found: Result<(nat, nat, Seq<MaintenanceCandidateView>), Seq<char>>,
    setting: ScanSettingView,
)
    requires
        catalog_only_ids(scan.raw, catalog.threads).len() > 0,
    ensures
        ({
            let ids = catalog_only_ids(scan.raw, catalog.threads);
            let next = after(
                CourseView::Catalog { scan },
                ScanEventView::Catalog(Ok((catalog, found))),
                setting,
            );
            asked(next) == ScanStepView::Read(
                ids.take(
                    if ids.len() < 64 {
                        ids.len() as int
                    } else {
                        64
                    },
                ),
            )
        }),
{
    let ids = catalog_only_ids(scan.raw, catalog.threads);
    let lots = batches_of(ids);
    law_lots_are_the_ids(ids, 0);
    assert(lots[0] =~= ids.take(
        if ids.len() < 64 {
            ids.len() as int
        } else {
            64
        },
    ));
}

/// A lot that was read is not read again, and the others stay in their order.
pub proof fn law_lots_are_read_in_turn(left: Seq<Seq<Seq<char>>>)
    requires
        left.len() > 0,
    ensures
        seq![first_batch(left)] + later_batches(left) == left,
{
    assert(seq![first_batch(left)] + later_batches(left) =~= left);
}

/// Pins are asked for under each of the four headings once: pinned and not,
/// among the archived and the others. No heading is asked for twice.
pub proof fn law_pins_are_asked_for_under_each_heading(
    draft: DraftView,
    relation_complete: bool,
    ids: Set<Seq<char>>,
    explicit: Map<Seq<char>, bool>,
    some: Seq<PinListingView>,
    others: Seq<PinListingView>,
    pinned: bool,
    archived: bool,
)
    requires
        some.len() < others.len() < 4,
    ensures
        ({
            let at = |listings: Seq<PinListingView>|
                asked(CourseView::Pins { draft, relation_complete, ids, explicit, listings });
            &&& at(some) != at(others)
            &&& exists|n: nat|
                n < 4 && (forall|listings: Seq<PinListingView>| #[trigger]
                    listings.len() == n ==> at(listings) == ScanStepView::Pinned(
                        pinned,
                        archived,
                    )) && #[trigger] is_heading(n, pinned, archived)
        }),
{
    let n: nat = if pinned {
        if archived {
            2
        } else {
            0
        }
    } else {
        if archived {
            3
        } else {
            1
        }
    };
    assert(is_heading(n, pinned, archived));
}

/// The heading that comes after so many others.
pub open spec fn is_heading(n: nat, pinned: bool, archived: bool) -> bool {
    ||| n == 0 && pinned && !archived
    ||| n == 1 && !pinned && !archived
    ||| n == 2 && pinned && archived
    ||| n == 3 && !pinned && archived
}

/// A scan ends with every session of its draft, as it is there, in its
/// snapshot, and names exactly the deletions that are complete.
pub proof fn law_how_a_scan_ends(
    draft: DraftView,
    relation_complete: bool,
    catalogued: bool,
    pending: Seq<PendingDeleteView>,
    setting: ScanSettingView,
    id: Seq<char>,
)
    requires
        draft.nodes.dom().finite(),
    ensures
        after(
            CourseView::Deletes { draft, relation_complete, catalogued },
            ScanEventView::Deletes(pending),
            setting,
        ) matches CourseView::Done(outcome) && {
            &&& draft.nodes.contains_key(id) ==> outcome.snapshot.nodes.contains(draft.nodes[id])
            &&& outcome.snapshot.relation_complete == relation_complete
            &&& outcome.snapshot.write_capable <==> draft.write_capable && relation_complete
            &&& outcome.gone.contains(id) <==> exists|i: int|
                0 <= i < pending.len() && (#[trigger] pending[i]).id == id && pending[i].residue
                    is Ok && pending[i].residue->Ok_0.len() == 0
            &&& catalogued ==> outcome.rollout_paths == Some(draft.rollout_paths)
            &&& !catalogued ==> outcome.rollout_paths is None
        },
{
    let whole = with_deletes(draft, pending);
    lemma_deletes_finite(draft, pending);
    lemma_deletes_keep_capability(draft, pending);
    law_a_snapshot_holds_each_session(whole, relation_complete);
    law_which_deletions_are_complete(pending, id);
    if draft.nodes.contains_key(id) {
        law_deletions_leave_sessions_alone(draft, pending, id);
    }
}

proof fn lemma_deletes_finite(draft: DraftView, pending: Seq<PendingDeleteView>)
    requires
        draft.nodes.dom().finite(),
    ensures
        with_deletes(draft, pending).nodes.dom().finite(),
    decreases pending.len(),
{
    if pending.len() > 0 {
        let before = with_deletes(draft, pending.drop_last());
        let now = with_deletes(draft, pending);
        lemma_deletes_finite(draft, pending.drop_last());
        assert(now.nodes.dom() =~= before.nodes.dom() || now.nodes.dom()
            =~= before.nodes.dom().insert(pending.last().id));
    }
}

/// A deleted session whose file is known is looked for until a scan finds
/// nothing of it: its path stays remembered through every scan that does not
/// name it as gone, and no longer.
pub proof fn law_a_deleted_session_is_looked_for(
    traces: TracesView,
    id: Seq<char>,
    outcome: ScanOutcomeView,
    other: Seq<char>,
)
    ensures
        ({
            let deleted = after_delete(traces, id);
            let scanned = after_outcome(traces, outcome);
            &&& deleted.known == traces.known
            &&& traces.known.contains_key(id) ==> deleted.pending.contains_key(id)
                && deleted.pending[id] == traces.known[id]
            &&& other != id ==> deleted.pending.contains_key(other)
                == traces.pending.contains_key(other)
            &&& !traces.known.contains_key(id) ==> deleted.pending == traces.pending
            &&& scanned.pending.contains_key(id) <==> traces.pending.contains_key(id)
                && !outcome.gone.contains(id)
            &&& scanned.pending.contains_key(id) ==> scanned.pending[id] == traces.pending[id]
            &&& outcome.rollout_paths matches Some(paths) ==> {
                &&& scanned.known.contains_key(id) <==> paths.contains_key(id)
                    && !outcome.gone.contains(id)
                &&& scanned.known.contains_key(id) ==> scanned.known[id] == paths[id]
            }
            &&& outcome.rollout_paths is None ==> {
                &&& scanned.known.contains_key(id) <==> traces.known.contains_key(id)
                    && !outcome.gone.contains(id)
                &&& scanned.known.contains_key(id) ==> scanned.known[id] == traces.known[id]
            }
        }),
{
    assert(outcome.gone.to_set().contains(id) == outcome.gone.contains(id));
}

/// With a catalog the pins of the sessions are those of the catalog: once the
/// files were looked at, a session is pinned exactly where the catalog pins its
/// thread, and it is not known of one that the catalog does not have.
pub proof fn law_the_catalog_tells_the_pins(
    scan: ScanView,
    root_ids: Set<Seq<char>>,
    included_ids: Set<Seq<char>>,
    threads: Map<Seq<char>, CatalogThreadView>,
    files: Map<Seq<char>, FileStateView>,
    setting: ScanSettingView,
    id: Seq<char>,
)
    ensures
        ({
            let course = CourseView::Files { scan, root_ids, included_ids, threads };
            let next = after(course, ScanEventView::Files(files), setting);
            &&& next matches CourseView::Deletes { draft, relation_complete, catalogued } && {
                &&& catalogued
                &&& relation_complete == scan.relation_complete
                &&& draft.nodes.contains_key(id) && threads.contains_key(id)
                    ==> draft.nodes[id].pinned == Some(threads[id].pinned)
                &&& draft.nodes.contains_key(id) && !threads.contains_key(id)
                    ==> draft.nodes[id].pinned is None
            }
            &&& asked(next) == ScanStepView::Deletes
        }),
{
}

/// Without a catalog four listings must settle the pins. Where the connection
/// broke over them the scan fails; where they settle the pins, each session
/// has the one that they settle; where they do not, the table of pins is asked
/// for the same threads, and what it says must agree with what the threads
/// say.
pub proof fn law_what_follows_the_listings_of_pins(
    draft: DraftView,
    relation_complete: bool,
    ids: Set<Seq<char>>,
    explicit: Map<Seq<char>, bool>,
    listings: Seq<PinListingView>,
    answer: Result<Seq<Seq<char>>, VaultErrorView>,
    usable: bool,
    setting: ScanSettingView,
    id: Seq<char>,
)
    requires
        listings.len() == 3,
    ensures
        ({
            let course = CourseView::Pins { draft, relation_complete, ids, explicit, listings };
            let all = listings.push(PinListingView { pinned: false, listing: answer });
            let next = after(course, ScanEventView::Pinned(answer, usable), setting);
            &&& !usable ==> next is Failed
            &&& usable && pins_listed(ids, explicit, all) is Ok ==> (next matches CourseView::Deletes {
                draft: after,
                relation_complete: complete,
                catalogued,
            } && {
                let pins = pins_listed(ids, explicit, all)->Ok_0;
                &&& !catalogued
                &&& complete == relation_complete
                &&& after.write_capable == draft.write_capable
                &&& after.diagnostics == draft.diagnostics
                &&& after.nodes.dom() == draft.nodes.dom()
                &&& draft.nodes.contains_key(id) && pins.contains_key(id)
                    ==> after.nodes[id].pinned == Some(pins[id])
            })
            &&& usable && pins_listed(ids, explicit, all) is Err ==> {
                &&& asked(next) == ScanStepView::Pins(ids)
                &&& next matches CourseView::PinTable { draft: same, .. } && same == draft
            }
        }),
{
    let all = listings.push(PinListingView { pinned: false, listing: answer });
    if usable && pins_listed(ids, explicit, all) is Ok {
        let pins = pins_listed(ids, explicit, all)->Ok_0;
        assert(with_pins(draft.nodes, pins).dom() =~= draft.nodes.dom());
    }
}

/// Without a catalog the server is asked for what lies below a root where there
/// is one, once for each heading, and the pins come next.
pub proof fn law_a_root_is_probed_under_both_headings(
    scan: ScanView,
    root_ids: Set<Seq<char>>,
    included_ids: Set<Seq<char>>,
    root: Seq<char>,
    first: Result<Seq<Seq<char>>, VaultErrorView>,
    second: Result<Seq<Seq<char>>, VaultErrorView>,
    setting: ScanSettingView,
)
    ensures
        ({
            let start = CourseView::Below {
                scan,
                root_ids,
                included_ids,
                root,
                listings: Seq::empty(),
            };
            let half = after(start, ScanEventView::Below(first), setting);
            let end = after(half, ScanEventView::Below(second), setting);
            &&& asked(start) == ScanStepView::Below(root, false)
            &&& asked(half) == ScanStepView::Below(root, true)
            &&& asked(end) == ScanStepView::Pinned(true, false)
            &&& end matches CourseView::Pins { ids, .. } && ids == included_ids
        }),
{
}

} // verus!
