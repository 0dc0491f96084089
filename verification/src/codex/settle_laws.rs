//! Which threads make up the trees of a scan and what their sessions say, in
//! terms of the chains of parents, the listings of pins and the traces of
//! deletions.

use crate::codex::catalog::CatalogThreadView;
use crate::codex::closure::{
    above, all_end, climb, climb_note, climb_notes, closed_over, ends_after, in_tree, included,
    is_root, law_tree_members_reach_a_root, lemma_climb_ends, roots, source_note, source_notes,
    ClimbView,
};
use crate::codex::draft::{
    below_root, drafted, listed_ids, probed, shown_source, size_below, with_failures, DraftView,
};
use crate::codex::maintenance::FileStateView;
use crate::codex::pins::{
    covering_pins, explicit_problem, listed_pins, missing_pins, pin_conflicts, pin_partition,
    row_pins, uncovered, unexpected, PinRowView,
};
use crate::codex::scan::{ListedView, ScanView};
use crate::codex::settle::{
    agreed_pins, all_listed, catalog_pins, gone, gone_ids, listed_as, nodes_in_order,
    pinned_draft, pins_listed, residue_node, snapshot_of, stated_pins, with_deletes, with_pins,
    PendingDeleteView, PinListingView,
};
use crate::codex::thread::{mapped, parent_of, source_of};
use crate::domain::{
    node_protection, RuntimeStatusView, SessionNodeView, SessionSourceView, VaultErrorView,
};
use crate::ordered::{lemma_filter_member, lemma_ordered_members, ordered_texts};
use crate::outside::rendered;
use crate::text::{has_text, occurs_at, text_lt};
use vstd::prelude::*;

verus! {

broadcast use vstd::group_vstd_default;

/// A tree begins at a listed thread without a parent that a person began in a
/// terminal or an editor, and at no other.
pub proof fn law_which_threads_begin_trees(raw: Map<Seq<char>, ListedView>, id: Seq<char>)
    ensures
        roots(raw).contains(id) <==> {
            &&& raw.contains_key(id)
            &&& parent_of(raw[id].dto) is None
            &&& source_of(raw[id].dto.source) == SessionSourceView::Cli || source_of(
                raw[id].dto.source,
            ) == SessionSourceView::Vscode
        },
{
}

/// A thread belongs to a tree exactly where its chain of parents leads to a
/// thread at which a tree begins.
pub proof fn law_which_threads_belong_to_trees(raw: Map<Seq<char>, ListedView>, id: Seq<char>)
    ensures
        included(raw).contains(id) <==> raw.contains_key(id) && exists|n: nat|
            (#[trigger] above(raw, id, n) matches Some(top) && {
                &&& raw.contains_key(top)
                &&& parent_of(raw[top].dto) is None
                &&& source_of(raw[top].dto.source) == SessionSourceView::Cli || source_of(
                    raw[top].dto.source,
                ) == SessionSourceView::Vscode
            }),
{
    law_tree_members_reach_a_root(raw, id);
    if in_tree(raw, id) {
        let n = choose|n: nat|
            (#[trigger] above(raw, id, n) matches Some(root) && is_root(
                raw,
                root,
            ));
        assert(above(raw, id, n) is Some);
    }
    if exists|n: nat|
        (#[trigger] above(raw, id, n) matches Some(top) && {
            &&& raw.contains_key(top)
            &&& parent_of(raw[top].dto) is None
            &&& source_of(raw[top].dto.source) == SessionSourceView::Cli || source_of(
                raw[top].dto.source,
            ) == SessionSourceView::Vscode
        }) {
        let n = choose|n: nat|
            (#[trigger] above(raw, id, n) matches Some(top) && {
                &&& raw.contains_key(top)
                &&& parent_of(raw[top].dto) is None
                &&& source_of(raw[top].dto.source) == SessionSourceView::Cli || source_of(
                    raw[top].dto.source,
                ) == SessionSourceView::Vscode
            });
        assert(is_root(raw, above(raw, id, n)->0));
    }
}

/// The chain of parents of a thread leads to a listed thread without a parent.
pub open spec fn has_an_end(raw: Map<Seq<char>, ListedView>, id: Seq<char>) -> bool {
    exists|n: nat|
        (#[trigger] above(raw, id, n) matches Some(top) && raw.contains_key(top) && parent_of(
            raw[top].dto,
        ) is None)
}

proof fn lemma_has_an_end(raw: Map<Seq<char>, ListedView>, id: Seq<char>)
    ensures
        climb(raw, id) is Top <==> has_an_end(raw, id),
{
    if climb(raw, id) is Top {
        let n = choose|n: nat| #[trigger] ends_after(raw, id, n);
        let top = above(raw, id, n)->0;
        assert(above(raw, id, n) == Some(top));
    }
    if has_an_end(raw, id) {
        let n = choose|n: nat|
            (#[trigger] above(raw, id, n) matches Some(top) && raw.contains_key(top) && parent_of(
                raw[top].dto,
            ) is None);
        assert(ends_after(raw, id, n));
        lemma_climb_ends(raw, id, n);
    }
}

/// The relations are complete exactly where they were so far and the chain of
/// parents of every listed thread has an end among the listed threads: neither
/// a missing parent nor a circle is passed over.
pub proof fn law_every_chain_must_end(scan: ScanView)
    requires
        scan.raw.dom().finite(),
    ensures
        closed_over(scan).relation_complete <==> scan.relation_complete && forall|id: Seq<char>|
            #[trigger]
            scan.raw.contains_key(id) ==> has_an_end(scan.raw, id),
        closed_over(scan).raw == scan.raw,
        closed_over(scan).storage_complete == scan.storage_complete,
{
    let raw = scan.raw;
    let ids = ordered_texts(raw.dom());
    lemma_ordered_members(raw.dom());
    if all_end(raw, ids) {
        assert forall|id: Seq<char>| #[trigger] raw.contains_key(id) implies has_an_end(
            raw,
            id,
        ) by {
            assert(ids.to_set().contains(id));
            let k = ids.index_of(id);
            assert(climb(raw, ids[k]) is Top);
            lemma_has_an_end(raw, id);
        }
    }
    if forall|id: Seq<char>| #[trigger] raw.contains_key(id) ==> has_an_end(raw, id) {
        assert forall|k: int| 0 <= k < ids.len() implies climb(raw, #[trigger] ids[k]) is Top by {
            assert(ids.to_set().contains(ids[k]));
            assert(raw.contains_key(ids[k]));
            lemma_has_an_end(raw, ids[k]);
        }
    }
}

/// What a set of listings lists is what one of those that came back lists.
pub proof fn law_what_is_listed(
    listings: Seq<Result<Seq<Seq<char>>, VaultErrorView>>,
    id: Seq<char>,
)
    ensures
        listed_ids(listings).contains(id) <==> exists|i: int|
            0 <= i < listings.len() && (#[trigger] listings[i]) is Ok && listings[i]->Ok_0.contains(
                id,
            ),
    decreases listings.len(),
{
    if listings.len() > 0 {
        let head = listings.drop_last();
        let last = listings.len() - 1;
        law_what_is_listed(head, id);
        if exists|i: int|
            0 <= i < head.len() && (#[trigger] head[i]) is Ok && head[i]->Ok_0.contains(id) {
            let i = choose|i: int|
                0 <= i < head.len() && (#[trigger] head[i]) is Ok && head[i]->Ok_0.contains(id);
            assert(listings[i] is Ok && listings[i]->Ok_0.contains(id));
        }
        if listings[last] is Ok && listings[last]->Ok_0.contains(id) {
            assert(listings[last]->Ok_0.to_set().contains(id));
        }
        if exists|i: int|
            0 <= i < listings.len() && (#[trigger] listings[i]) is Ok
                && listings[i]->Ok_0.contains(id) {
            let i = choose|i: int|
                0 <= i < listings.len() && (#[trigger] listings[i]) is Ok
                    && listings[i]->Ok_0.contains(id);
            if i < last {
                assert(head[i] is Ok && head[i]->Ok_0.contains(id));
            }
        }
    }
}

/// What the server lists below a root is believed exactly where each listing
/// came back and together they list just the threads of the root's tree
/// besides the root; else the relations are doubted. Nothing else changes.
pub proof fn law_a_tree_must_be_listed_whole(
    scan: ScanView,
    root: Seq<char>,
    listings: Seq<Result<Seq<Seq<char>>, VaultErrorView>>,
)
    ensures
        probed(scan, root, listings).relation_complete <==> {
            &&& scan.relation_complete
            &&& forall|i: int| 0 <= i < listings.len() ==> (#[trigger] listings[i]) is Ok
            &&& forall|id: Seq<char>|
                #![trigger listed_ids(listings).contains(id)]
                listed_ids(listings).contains(id) <==> {
                    &&& included(scan.raw).contains(id)
                    &&& id != root
                    &&& exists|n: nat| #[trigger] above(scan.raw, id, n) == Some(root)
                }
        },
        probed(scan, root, listings).raw == scan.raw,
        probed(scan, root, listings).storage_complete == scan.storage_complete,
{
    lemma_failures(scan, root, listings);
    let (a, b) = (listed_ids(listings), below_root(scan.raw, root));
    assert forall|id: Seq<char>| b.contains(id) <==> {
        &&& included(scan.raw).contains(id)
        &&& id != root
        &&& exists|n: nat| #[trigger] above(scan.raw, id, n) == Some(root)
    } by {}
    if a != b {
        assert(!(a =~= b));
        let id = choose|id: Seq<char>| a.contains(id) != b.contains(id);
        assert(a.contains(id) != b.contains(id));
    }
}

proof fn lemma_failures(
    scan: ScanView,
    root: Seq<char>,
    listings: Seq<Result<Seq<Seq<char>>, VaultErrorView>>,
)
    ensures
        with_failures(scan, root, listings).relation_complete <==> scan.relation_complete
            && forall|i: int| 0 <= i < listings.len() ==> (#[trigger] listings[i]) is Ok,
        with_failures(scan, root, listings).raw == scan.raw,
        with_failures(scan, root, listings).storage_complete == scan.storage_complete,
    decreases listings.len(),
{
    if listings.len() > 0 {
        let head = listings.drop_last();
        let last = listings.len() - 1;
        lemma_failures(scan, root, head);
        assert forall|i: int| 0 <= i < last implies #[trigger] head[i] == listings[i] by {}
        if forall|i: int| 0 <= i < listings.len() ==> (#[trigger] listings[i]) is Ok {
            assert(listings[last] is Ok);
            assert forall|i: int| 0 <= i < head.len() implies (#[trigger] head[i]) is Ok by {
                assert(listings[i] is Ok);
            }
        }
        if (forall|i: int| 0 <= i < head.len() ==> (#[trigger] head[i]) is Ok)
            && listings[last] is Ok {
            assert forall|i: int| 0 <= i < listings.len() implies (#[trigger] listings[i])
                is Ok by {
                if i < last {
                    assert(head[i] is Ok);
                }
            }
        }
    }
}

/// The root of a tree keeps its source, and so does a thread whose source
/// nothing is known of; every other thread of a tree is a descendant.
pub proof fn law_threads_below_a_root_are_descendants(source: SessionSourceView, root: bool)
    ensures
        root || source is Other || source is Unknown ==> shown_source(source, root) == source,
        !root && !(source is Other) && !(source is Unknown) ==> shown_source(source, root)
            == SessionSourceView::Descendant,
{
}

/// A session of the draft comes from the thread that is listed under its id.
/// Where the catalog has the thread, the session has its provider and model
/// and the path of its file, and the size of the file or, where the file is
/// not accepted, a status that says why.
pub proof fn law_what_a_drafted_session_says(
    scan: ScanView,
    capable: bool,
    root_ids: Set<Seq<char>>,
    threads: Map<Seq<char>, CatalogThreadView>,
    home: Result<Seq<char>, Seq<char>>,
    files: Map<Seq<char>, FileStateView>,
    ids: Seq<Seq<char>>,
    id: Seq<char>,
)
    requires
        ids.no_duplicates(),
    ensures
        ({
            let draft = drafted(scan, capable, root_ids, threads, home, files, ids);
            let (dto, archived) = (scan.raw[id].dto, scan.raw[id].archived);
            let source = shown_source(source_of(dto.source), root_ids.contains(id));
            &&& draft.nodes.contains_key(id) <==> ids.contains(id) && scan.raw.contains_key(id)
                && mapped(dto, archived, source) is Ok
            &&& draft.nodes.contains_key(id) ==> {
                let (node, plain) = (
                    draft.nodes[id],
                    mapped(dto, archived, source)->Ok_0.0,
                );
                let (thread, size) = (threads[id], size_below(home, threads[id], files));
                &&& node.id == plain.id
                &&& node.title == plain.title
                &&& node.cwd == plain.cwd
                &&& node.archived == plain.archived
                &&& node.pinned == plain.pinned
                &&& node.parent_id == plain.parent_id
                &&& node.source == plain.source
                &&& node.last_activity == plain.last_activity
                &&& !threads.contains_key(id) ==> node == plain
                &&& threads.contains_key(id) ==> {
                    &&& node.provider == thread.provider
                    &&& node.model == thread.model
                    &&& draft.rollout_paths.contains_key(id)
                    &&& draft.rollout_paths[id] == thread.rollout_path
                    &&& size matches Ok(bytes) ==> node.rollout_bytes == Some(bytes)
                        && node.status == plain.status
                    &&& size matches Err(problem) ==> node.rollout_bytes is None && node.status
                        == RuntimeStatusView::Unknown(problem)
                }
            }
        }),
    decreases ids.len(),
{
    if ids.len() > 0 {
        let head = ids.drop_last();
        let last = ids.len() - 1;
        assert(head.no_duplicates()) by {
            assert forall|i: int, k: int|
                0 <= i < head.len() && 0 <= k < head.len() && i != k implies head[i] != head[k] by {
                assert(ids[i] != ids[k]);
            }
        }
        law_what_a_drafted_session_says(
            scan,
            capable,
            root_ids,
            threads,
            home,
            files,
            head,
            id,
        );
        if ids.contains(id) {
            let k = ids.index_of(id);
            if k < last {
                assert(head[k] == id);
                assert(ids[k] != ids[last]);
            }
        }
        if head.contains(id) {
            let k = head.index_of(id);
            assert(ids[k] == id);
            assert(ids[k] != ids[last]);
        }
        if ids[last] == id {
            assert(ids.contains(id));
            assert(!head.contains(id));
        }
    }
}

/// A pin that was read is set on its session, a session without one has no
/// known pin, and nothing else of a session changes.
pub proof fn law_pins_change_nothing_else(
    nodes: Map<Seq<char>, SessionNodeView>,
    pins: Map<Seq<char>, bool>,
    id: Seq<char>,
)
    requires
        nodes.contains_key(id),
    ensures
        with_pins(nodes, pins).dom() == nodes.dom(),
        ({
            let (was, is) = (nodes[id], with_pins(nodes, pins)[id]);
            &&& pins.contains_key(id) ==> is.pinned == Some(pins[id])
            &&& !pins.contains_key(id) ==> is.pinned is None
            &&& is == (SessionNodeView { pinned: is.pinned, ..was })
        }),
{
    assert(with_pins(nodes, pins).dom() =~= nodes.dom());
}

/// The pins of a catalog are those of its threads, and the pins that threads
/// state themselves are those of the listed threads that state one.
pub proof fn law_which_pins_are_stated(
    raw: Map<Seq<char>, ListedView>,
    ids: Set<Seq<char>>,
    threads: Map<Seq<char>, CatalogThreadView>,
    id: Seq<char>,
)
    ensures
        catalog_pins(threads).contains_key(id) <==> threads.contains_key(id),
        threads.contains_key(id) ==> catalog_pins(threads)[id] == threads[id].pinned,
        stated_pins(raw, ids).contains_key(id) <==> ids.contains(id) && raw.contains_key(id)
            && raw[id].dto.is_pinned is Some,
        stated_pins(raw, ids).contains_key(id) ==> Some(stated_pins(raw, ids)[id])
            == raw[id].dto.is_pinned,
{
}

/// The two listings of pins settle them exactly where no thread is in both,
/// each expected thread is in one and no other thread is, and no thread states
/// a pin that contradicts its listing.
pub proof fn law_when_listings_settle_pins(
    expected: Set<Seq<char>>,
    explicit: Map<Seq<char>, bool>,
    pinned: Set<Seq<char>>,
    unpinned: Set<Seq<char>>,
)
    requires
        expected.finite(),
        explicit.dom().finite(),
    ensures
        pin_partition(expected, explicit, pinned, unpinned) is Ok <==> {
            &&& forall|id: Seq<char>| !(#[trigger] pinned.contains(id) && unpinned.contains(id))
            &&& forall|id: Seq<char>| #[trigger]
                expected.contains(id) <==> pinned.contains(id) || unpinned.contains(id)
            &&& forall|id: Seq<char>| #[trigger]
                explicit.contains_key(id) ==> expected.contains(id) && explicit[id]
                    == pinned.contains(id)
        },
{
    let lost = |id: Seq<char>| !pinned.contains(id) && !unpinned.contains(id);
    let resolved = listed_pins(expected, pinned);
    let wrong = |id: Seq<char>| !(resolved.contains_key(id) && resolved[id] == explicit[id]);
    if pin_partition(expected, explicit, pinned, unpinned) is Ok {
        assert forall|id: Seq<char>| #[trigger] expected.contains(id) implies pinned.contains(id)
            || unpinned.contains(id) by {
            lemma_kept_or_not(expected, lost, id);
        }
        assert forall|id: Seq<char>| (pinned.contains(id) || unpinned.contains(id)) implies
            #[trigger] expected.contains(id) by {
            if !expected.contains(id) {
                assert(pinned.contains(id) || unpinned.contains(id));
                assert(unexpected(expected, pinned, unpinned));
            }
        }
        assert forall|id: Seq<char>| #[trigger] explicit.contains_key(id) implies
            expected.contains(id) && explicit[id] == pinned.contains(id) by {
            lemma_kept_or_not(explicit.dom(), wrong, id);
        }
    }
    if (forall|id: Seq<char>| !(#[trigger] pinned.contains(id) && unpinned.contains(id))) && (
    forall|id: Seq<char>| #[trigger]
        expected.contains(id) <==> pinned.contains(id) || unpinned.contains(id)) && (forall|
        id: Seq<char>,
    | #[trigger]
        explicit.contains_key(id) ==> expected.contains(id) && explicit[id] == pinned.contains(
            id,
        )) {
        if uncovered(expected, pinned, unpinned).len() > 0 {
            let id = uncovered(expected, pinned, unpinned)[0];
            lemma_kept(expected, lost, id);
        }
        if unexpected(expected, pinned, unpinned) {
            let id = choose|id: Seq<char>|
                (#[trigger] pinned.contains(id) || unpinned.contains(id)) && !expected.contains(
                    id,
                );
            assert(expected.contains(id));
        }
        if pin_conflicts(resolved, explicit).len() > 0 {
            let id = pin_conflicts(resolved, explicit)[0];
            lemma_kept(explicit.dom(), wrong, id);
            assert(explicit.contains_key(id));
        }
    }
}

proof fn lemma_kept(s: Set<Seq<char>>, keep: spec_fn(Seq<char>) -> bool, id: Seq<char>)
    requires
        s.finite(),
    ensures
        ordered_texts(s).filter(keep).contains(id) <==> s.contains(id) && keep(id),
{
    lemma_ordered_members(s);
    lemma_filter_member(ordered_texts(s), keep, id);
    assert(ordered_texts(s).to_set().contains(id) == ordered_texts(s).contains(id));
}

proof fn lemma_kept_or_not(s: Set<Seq<char>>, keep: spec_fn(Seq<char>) -> bool, id: Seq<char>)
    requires
        s.finite(),
        s.contains(id),
        ordered_texts(s).filter(keep).len() == 0,
    ensures
        !keep(id),
{
    lemma_kept(s, keep, id);
    if keep(id) {
        assert(ordered_texts(s).filter(keep).contains(id));
    }
}

/// A thread is listed as pinned, or as not pinned, where one of the listings
/// under that heading came back and lists it; a listing that failed settles
/// nothing.
pub proof fn law_which_threads_are_listed_as_pinned(
    listings: Seq<PinListingView>,
    ids: Set<Seq<char>>,
    explicit: Map<Seq<char>, bool>,
    pinned: bool,
    id: Seq<char>,
)
    ensures
        listed_as(listings, pinned, ids).contains(id) <==> ids.contains(id) && exists|k: int|
            0 <= k < listings.len() && (#[trigger] listings[k]).pinned == pinned
                && listings[k].listing is Ok && listings[k].listing->Ok_0.contains(id),
        (exists|k: int| 0 <= k < listings.len() && (#[trigger] listings[k]).listing is Err)
            ==> pins_listed(ids, explicit, listings) is Err,
        (forall|k: int| 0 <= k < listings.len() ==> (#[trigger] listings[k]).listing is Ok)
            ==> pins_listed(ids, explicit, listings) == pin_partition(
            ids,
            explicit,
            listed_as(listings, true, ids),
            listed_as(listings, false, ids),
        ),
{
    if exists|k: int| 0 <= k < listings.len() && (#[trigger] listings[k]).listing is Err {
        let k = choose|k: int| 0 <= k < listings.len() && (#[trigger] listings[k]).listing is Err;
        assert(!(listings[k].listing is Ok));
        assert(!all_listed(listings));
    }
    if listed_as(listings, pinned, ids).contains(id) {
        let k = choose|k: int|
            0 <= k < listings.len() && (#[trigger] listings[k]).pinned == pinned && (
            listings[k].listing matches Ok(found) && found.contains(id));
        assert(listings[k].listing->Ok_0.contains(id));
    }
    if ids.contains(id) && exists|k: int|
        0 <= k < listings.len() && (#[trigger] listings[k]).pinned == pinned && listings[k].listing
            is Ok && listings[k].listing->Ok_0.contains(id) {
        let k = choose|k: int|
            0 <= k < listings.len() && (#[trigger] listings[k]).pinned == pinned
                && listings[k].listing is Ok && listings[k].listing->Ok_0.contains(id);
        assert(listings[k].listing matches Ok(found) && found.contains(id));
    }
}

/// Pins that were read are believed exactly where no thread states another.
pub proof fn law_stated_pins_must_agree(
    read: Result<Map<Seq<char>, bool>, Seq<char>>,
    explicit: Map<Seq<char>, bool>,
)
    requires
        explicit.dom().finite(),
    ensures
        agreed_pins(read, explicit) is Ok <==> read is Ok && forall|id: Seq<char>| #[trigger]
            explicit.contains_key(id) ==> read->Ok_0.contains_key(id) && read->Ok_0[id]
                == explicit[id],
        agreed_pins(read, explicit) matches Ok(pins) ==> read == Ok::<_, Seq<char>>(pins),
{
    if let Ok(pins) = read {
        let wrong = |id: Seq<char>| !(pins.contains_key(id) && pins[id] == explicit[id]);
        if explicit_problem(pins, explicit) is None {
            assert forall|id: Seq<char>| #[trigger] explicit.contains_key(id) implies
                pins.contains_key(id) && pins[id] == explicit[id] by {
                lemma_kept_or_not(explicit.dom(), wrong, id);
            }
        } else {
            let id = pin_conflicts(pins, explicit)[0];
            lemma_kept(explicit.dom(), wrong, id);
            assert(explicit.contains_key(id) && wrong(id));
        }
    }
}

/// A row of pins can be read and holds zero or one.
pub open spec fn pin_row_holds(row: Result<PinRowView, Seq<char>>) -> bool {
    &&& row is Ok
    &&& row->Ok_0.id is Ok
    &&& row->Ok_0.pinned == Ok::<_, Seq<char>>(Some(0i64)) || row->Ok_0.pinned == Ok::<_, Seq<char>>(
        Some(1i64),
    )
}

/// The rows of pins give one pin for each of them, set where the cell is one,
/// exactly where each can be read, holds zero or one, and no two are of the
/// same thread.
pub proof fn law_each_pin_row_counts(rows: Seq<Result<PinRowView, Seq<char>>>)
    ensures
        row_pins(rows) is Ok <==> {
            &&& forall|i: int| 0 <= i < rows.len() ==> pin_row_holds(#[trigger] rows[i])
            &&& forall|i: int, k: int|
                0 <= i < k < rows.len() ==> (#[trigger] rows[i])->Ok_0.id != (
                #[trigger] rows[k])->Ok_0.id
        },
        row_pins(rows) matches Ok(pins) ==> {
            &&& forall|i: int|
                0 <= i < rows.len() ==> pins.contains_key((#[trigger] rows[i])->Ok_0.id->Ok_0) && (
                pins[rows[i]->Ok_0.id->Ok_0] <==> rows[i]->Ok_0.pinned == Ok::<_, Seq<char>>(
                    Some(1i64),
                ))
            &&& forall|id: Seq<char>| #[trigger]
                pins.contains_key(id) ==> exists|i: int|
                    0 <= i < rows.len() && (#[trigger] rows[i])->Ok_0.id->Ok_0 == id
        },
    decreases rows.len(),
{
    if rows.len() > 0 {
        let head = rows.drop_last();
        let last = rows.len() - 1;
        law_each_pin_row_counts(head);
        assert forall|i: int| 0 <= i < last implies #[trigger] head[i] == rows[i] by {}
        if row_pins(rows) is Ok {
            let (before, pins) = (row_pins(head)->Ok_0, row_pins(rows)->Ok_0);
            let row = rows[last]->Ok_0;
            assert(pin_row_holds(rows[last]));
            assert(pins == before.insert(row.id->Ok_0, row.pinned->Ok_0 == Some(1i64)));
            assert forall|i: int| 0 <= i < rows.len() implies pin_row_holds(#[trigger] rows[i])
                && pins.contains_key(rows[i]->Ok_0.id->Ok_0) && (pins[rows[i]->Ok_0.id->Ok_0]
                <==> rows[i]->Ok_0.pinned == Ok::<_, Seq<char>>(Some(1i64))) by {
                if i < last {
                    assert(head[i] == rows[i]);
                    assert(before.contains_key(rows[i]->Ok_0.id->Ok_0));
                }
            }
            assert forall|i: int, k: int| 0 <= i < k < rows.len() implies (
            #[trigger] rows[i])->Ok_0.id != (#[trigger] rows[k])->Ok_0.id by {
                assert(head[i] == rows[i]);
                if k < last {
                    assert(head[k] == rows[k]);
                } else {
                    assert(before.contains_key(rows[i]->Ok_0.id->Ok_0));
                }
            }
            assert forall|id: Seq<char>| #[trigger] pins.contains_key(id) implies exists|i: int|
                0 <= i < rows.len() && (#[trigger] rows[i])->Ok_0.id->Ok_0 == id by {
                if id == row.id->Ok_0 {
                    assert(rows[last]->Ok_0.id->Ok_0 == id);
                } else {
                    assert(before.contains_key(id));
                    let i = choose|i: int|
                        0 <= i < head.len() && (#[trigger] head[i])->Ok_0.id->Ok_0 == id;
                    assert(rows[i]->Ok_0.id->Ok_0 == id);
                }
            }
        } else if (forall|i: int| 0 <= i < rows.len() ==> pin_row_holds(#[trigger] rows[i])) && (
        forall|i: int, k: int|
            0 <= i < k < rows.len() ==> (#[trigger] rows[i])->Ok_0.id != (
            #[trigger] rows[k])->Ok_0.id) {
            assert(pin_row_holds(rows[last]));
            assert forall|i: int| 0 <= i < head.len() implies pin_row_holds(#[trigger] head[i]) by {
                assert(pin_row_holds(rows[i]));
            }
            assert forall|i: int, k: int| 0 <= i < k < head.len() implies (
            #[trigger] head[i])->Ok_0.id != (#[trigger] head[k])->Ok_0.id by {
                assert(rows[i]->Ok_0.id != rows[k]->Ok_0.id);
            }
            let before = row_pins(head)->Ok_0;
            let id = rows[last]->Ok_0.id->Ok_0;
            if before.contains_key(id) {
                let i = choose|i: int|
                    0 <= i < head.len() && (#[trigger] head[i])->Ok_0.id->Ok_0 == id;
                assert(head[i] == rows[i]);
                assert(pin_row_holds(rows[i]));
                assert(rows[i]->Ok_0.id != rows[last]->Ok_0.id);
            }
        }
    }
}

/// The rows of pins are enough exactly where they can be taken and each
/// expected thread has one.
pub proof fn law_pin_rows_must_cover(
    rows: Seq<Result<PinRowView, Seq<char>>>,
    expected: Set<Seq<char>>,
)
    requires
        expected.finite(),
    ensures
        covering_pins(rows, expected) is Ok <==> row_pins(rows) is Ok && forall|id: Seq<char>|
            #[trigger]
            expected.contains(id) ==> row_pins(rows)->Ok_0.contains_key(id),
        covering_pins(rows, expected) matches Ok(pins) ==> row_pins(rows) == Ok::<_, Seq<char>>(
            pins,
        ),
{
    if let Ok(values) = row_pins(rows) {
        let lost = |id: Seq<char>| !values.contains_key(id);
        let missing = ordered_texts(expected).filter(lost);
        if missing_pins(expected, values).len() > 0 {
            let id = missing[0];
            assert(missing.contains(id));
            lemma_kept(expected, lost, id);
            assert(expected.contains(id) && !values.contains_key(id));
        } else {
            assert forall|id: Seq<char>| #[trigger] expected.contains(id) implies
                values.contains_key(id) by {
                lemma_kept_or_not(expected, lost, id);
            }
        }
    }
}

/// Pins that could not be settled leave writing disabled and are told; pins
/// that could be settled change no capability.
pub proof fn law_unsettled_pins_disable_writing(
    draft: DraftView,
    pins: Result<Map<Seq<char>, bool>, Seq<char>>,
    notes: Seq<Seq<char>>,
)
    ensures
        pinned_draft(draft, pins, notes).write_capable <==> draft.write_capable && pins is Ok,
        pins is Err ==> pinned_draft(draft, pins, notes).nodes == draft.nodes
            && pinned_draft(draft, pins, notes).diagnostics.len() > draft.diagnostics.len(),
        pins is Ok ==> pinned_draft(draft, pins, notes).diagnostics == draft.diagnostics,
        pinned_draft(draft, pins, notes).rollout_paths == draft.rollout_paths,
{
}

/// A deletion counts as complete exactly where every place was looked at and
/// nothing was found. One that is not keeps a session in sight that is
/// protected, archived, and says where the thread was still found or why that
/// is not known.
pub proof fn law_an_incomplete_deletion_is_protected(pending: PendingDeleteView)
    ensures
        ({
            let node = residue_node(pending);
            &&& node.id == pending.id
            &&& node.cwd == pending.path
            &&& node.archived
            &&& node.parent_id is None
            &&& node_protection(node) is Some
            &&& node.status matches RuntimeStatusView::Unknown(told) && {
                &&& has_text(told, pending.id)
                &&& pending.residue matches Err(problem) ==> has_text(told, problem)
                &&& pending.residue matches Ok(found) ==> found.len() == 1 ==> has_text(
                    told,
                    found[0],
                )
            }
        }),
        gone_ids(seq![pending]) == if pending.residue matches Ok(found) && found.len() == 0 {
            seq![pending.id]
        } else {
            Seq::<Seq<char>>::empty()
        },
{
    reveal_with_fuel(Seq::filter, 2);
    let node = residue_node(pending);
    let told = node.status->Unknown_0;
    match pending.residue {
        Ok(found) => {
            let at = "delete cleanup is incomplete for "@.len() as int;
            assert(told.subrange(at, at + pending.id.len()) =~= pending.id);
            assert(occurs_at(told, pending.id, at));
            if found.len() == 1 {
                let end = told.len() - found[0].len();
                assert(told.subrange(end, end + found[0].len()) =~= found[0]);
                assert(occurs_at(told, found[0], end));
            }
        },
        Err(problem) => {
            let at = "delete cleanup cannot be verified for "@.len() as int;
            assert(told.subrange(at, at + pending.id.len()) =~= pending.id);
            assert(occurs_at(told, pending.id, at));
            let end = told.len() - problem.len();
            assert(told.subrange(end, end + problem.len()) =~= problem);
            assert(occurs_at(told, problem, end));
        },
    }
    let p = |p: PendingDeleteView| gone(p);
    assert(seq![pending].drop_last() =~= Seq::empty());
    assert(seq![pending].filter(p) =~= if p(pending) {
        seq![pending]
    } else {
        Seq::empty()
    });
    assert(gone_ids(seq![pending]) =~= if p(pending) {
        seq![pending.id]
    } else {
        Seq::<Seq<char>>::empty()
    });
}

/// The ids of the deletions that are complete are those of the pending ones of
/// which nothing was found anywhere.
pub proof fn law_which_deletions_are_complete(pending: Seq<PendingDeleteView>, id: Seq<char>)
    ensures
        gone_ids(pending).contains(id) <==> exists|i: int|
            0 <= i < pending.len() && (#[trigger] pending[i]).id == id && pending[i].residue is Ok
                && pending[i].residue->Ok_0.len() == 0,
{
    let p = |p: PendingDeleteView| gone(p);
    let kept = pending.filter(p);
    if gone_ids(pending).contains(id) {
        let k = gone_ids(pending).index_of(id);
        assert(kept.contains(kept[k]));
        lemma_filter_member(pending, p, kept[k]);
        let i = pending.index_of(kept[k]);
        assert(pending[i].id == id);
    }
    if exists|i: int|
        0 <= i < pending.len() && (#[trigger] pending[i]).id == id && pending[i].residue is Ok
            && pending[i].residue->Ok_0.len() == 0 {
        let i = choose|i: int|
            0 <= i < pending.len() && (#[trigger] pending[i]).id == id && pending[i].residue is Ok
                && pending[i].residue->Ok_0.len() == 0;
        assert(pending.contains(pending[i]));
        lemma_filter_member(pending, p, pending[i]);
        let k = kept.index_of(pending[i]);
        assert(gone_ids(pending)[k] == id);
    }
}

/// A session that is already in sight stays as it is when a deletion of it is
/// not complete, and no session leaves on that account.
pub proof fn law_deletions_leave_sessions_alone(
    draft: DraftView,
    pending: Seq<PendingDeleteView>,
    id: Seq<char>,
)
    requires
        draft.nodes.contains_key(id),
    ensures
        with_deletes(draft, pending).nodes.contains_key(id),
        with_deletes(draft, pending).nodes[id] == draft.nodes[id],
        with_deletes(draft, pending).write_capable == draft.write_capable,
    decreases pending.len(),
{
    if pending.len() > 0 {
        law_deletions_leave_sessions_alone(draft, pending.drop_last(), id);
    }
}

/// A snapshot holds each session of the draft once, in the order of the ids
/// under which they are held, and allows writing exactly where the draft does
/// and the relations are complete.
pub proof fn law_a_snapshot_holds_each_session(draft: DraftView, relation_complete: bool)
    requires
        draft.nodes.dom().finite(),
    ensures
        ({
            let snapshot = snapshot_of(draft, relation_complete);
            let ids = ordered_texts(draft.nodes.dom());
            &&& snapshot.nodes.len() == ids.len()
            &&& forall|i: int|
                0 <= i < ids.len() ==> draft.nodes.contains_key(#[trigger] ids[i])
                    && snapshot.nodes[i] == draft.nodes[ids[i]]
            &&& forall|i: int, k: int|
                0 <= i < k < ids.len() ==> text_lt(#[trigger] ids[i], #[trigger] ids[k])
            &&& forall|id: Seq<char>| #[trigger]
                draft.nodes.contains_key(id) ==> snapshot.nodes.contains(draft.nodes[id])
            &&& snapshot.write_capable <==> draft.write_capable && relation_complete
            &&& snapshot.relation_complete == relation_complete
            &&& snapshot.diagnostics == draft.diagnostics
        }),
{
    let snapshot = snapshot_of(draft, relation_complete);
    let ids = ordered_texts(draft.nodes.dom());
    lemma_ordered_members(draft.nodes.dom());
    assert(snapshot.nodes == nodes_in_order(draft.nodes));
    assert forall|i: int| 0 <= i < ids.len() implies draft.nodes.contains_key(#[trigger] ids[i])
        && snapshot.nodes[i] == draft.nodes[ids[i]] by {
        assert(ids.to_set().contains(ids[i]));
    }
    assert forall|id: Seq<char>| #[trigger] draft.nodes.contains_key(id) implies
        snapshot.nodes.contains(draft.nodes[id]) by {
        assert(ids.to_set().contains(id));
        let k = ids.index_of(id);
        assert(snapshot.nodes[k] == draft.nodes[id]);
    }
}

/// A chain without an end is not passed over in silence: one of the words that
/// come behind everything said before names the thread at which it begins.
pub proof fn law_broken_chains_are_told(scan: ScanView, id: Seq<char>)
    requires
        scan.raw.dom().finite(),
        scan.raw.contains_key(id),
        !has_an_end(scan.raw, id),
    ensures
        told_of(closed_over(scan).diagnostics, scan.diagnostics.len() as int, id),
{
    lemma_ordered_members(scan.raw.dom());
    let ids = ordered_texts(scan.raw.dom());
    assert(ids.to_set().contains(id));
    lemma_has_an_end(scan.raw, id);
    lemma_climb_told(scan.raw, ids, id);
    lemma_told_behind(
        scan.diagnostics,
        climb_notes(scan.raw, ids),
        source_notes(scan.raw, ordered_texts(included(scan.raw))),
        id,
    );
}

/// An unknown source of a thread in a tree is not passed over in silence: one
/// of the words that come behind everything said before names the thread.
pub proof fn law_unknown_sources_are_told(scan: ScanView, id: Seq<char>)
    requires
        scan.raw.dom().finite(),
        included(scan.raw).contains(id),
        source_of(scan.raw[id].dto.source) is Unknown,
    ensures
        told_of(closed_over(scan).diagnostics, scan.diagnostics.len() as int, id),
{
    lemma_included_finite(scan.raw);
    lemma_ordered_members(included(scan.raw));
    let ids = ordered_texts(included(scan.raw));
    assert(ids.to_set().contains(id));
    lemma_source_told(scan.raw, ids, id);
    lemma_told_behind(
        scan.diagnostics,
        climb_notes(scan.raw, ordered_texts(scan.raw.dom())),
        source_notes(scan.raw, ids),
        id,
    );
}

proof fn lemma_told_behind(
    before: Seq<Seq<char>>,
    a: Seq<Seq<char>>,
    b: Seq<Seq<char>>,
    id: Seq<char>,
)
    requires
        told_of(a, 0, id) || told_of(b, 0, id),
    ensures
        told_of(before + a + b, before.len() as int, id),
{
    let all = before + a + b;
    if told_of(a, 0, id) {
        let k = choose|k: int| 0 <= k < a.len() && has_text(#[trigger] a[k], id);
        assert(all[before.len() + k] == a[k]);
    } else {
        let k = choose|k: int| 0 <= k < b.len() && has_text(#[trigger] b[k], id);
        assert(all[before.len() + a.len() + k] == b[k]);
    }
}

/// One of the words from the given place on names the thread.
pub open spec fn told_of(diagnostics: Seq<Seq<char>>, from: int, id: Seq<char>) -> bool {
    exists|k: int| from <= k < diagnostics.len() && has_text(#[trigger] diagnostics[k], id)
}

proof fn lemma_included_finite(raw: Map<Seq<char>, ListedView>)
    requires
        raw.dom().finite(),
    ensures
        included(raw).finite(),
{
    assert(included(raw).subset_of(raw.dom()));
    vstd::set_lib::lemma_set_subset_finite(raw.dom(), included(raw));
}

proof fn lemma_within(before: Seq<char>, id: Seq<char>, behind: Seq<char>)
    ensures
        has_text(before + id + behind, id),
{
    let s = before + id + behind;
    assert(s.subrange(before.len() as int, (before.len() + id.len()) as int) =~= id);
    assert(occurs_at(s, id, before.len() as int));
}

proof fn lemma_climb_told(raw: Map<Seq<char>, ListedView>, ids: Seq<Seq<char>>, id: Seq<char>)
    requires
        ids.contains(id),
        !(climb(raw, id) is Top),
    ensures
        told_of(climb_notes(raw, ids), 0, id),
    decreases ids.len(),
{
    let all = climb_notes(raw, ids);
    let before = climb_notes(raw, ids.drop_last());
    if ids.last() == id {
        match climb(raw, id) {
            ClimbView::Missing(last) => {
                lemma_within("thread "@, id, " has missing ancestor "@ + last);
                assert("thread "@ + id + " has missing ancestor "@ + last =~= "thread "@ + id + (
                " has missing ancestor "@ + last));
            },
            _ => {
                lemma_within("cycle detected at thread "@, id, Seq::empty());
                assert("cycle detected at thread "@ + id =~= "cycle detected at thread "@ + id
                    + Seq::<char>::empty());
            },
        }
        assert(all[before.len() as int] == climb_note(raw, id)[0]);
        assert(has_text(all[before.len() as int], id));
    } else {
        let at = ids.index_of(id);
        assert(ids.drop_last()[at] == id);
        lemma_climb_told(raw, ids.drop_last(), id);
        let k = choose|k: int| 0 <= k < before.len() && has_text(#[trigger] before[k], id);
        assert(all[k] == before[k]);
    }
}

proof fn lemma_source_told(raw: Map<Seq<char>, ListedView>, ids: Seq<Seq<char>>, id: Seq<char>)
    requires
        ids.contains(id),
        raw.contains_key(id),
        source_of(raw[id].dto.source) is Unknown,
    ensures
        told_of(source_notes(raw, ids), 0, id),
    decreases ids.len(),
{
    let all = source_notes(raw, ids);
    let before = source_notes(raw, ids.drop_last());
    if ids.last() == id {
        let behind = " has an unknown source; only its interactive tree is protected: "@;
        let value = rendered(raw[id].dto.source);
        lemma_within("thread "@, id, behind + value);
        assert("thread "@ + id + behind + value =~= "thread "@ + id + (behind + value));
        assert(all[before.len() as int] == source_note(raw, id)[0]);
        assert(has_text(all[before.len() as int], id));
    } else {
        let at = ids.index_of(id);
        assert(ids.drop_last()[at] == id);
        lemma_source_told(raw, ids.drop_last(), id);
        let k = choose|k: int| 0 <= k < before.len() && has_text(#[trigger] before[k], id);
        assert(all[k] == before[k]);
    }
}

} // verus!
