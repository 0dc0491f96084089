//! The last steps of a scan: pins, deletions that wait to be seen, and the
//! snapshot.

use crate::codex::catalog::{CatalogThread, CatalogThreadView};
use crate::codex::draft::{Draft, DraftView};
use crate::codex::pins::{
    explicit_problem, pin_partition, resolve_pin_partition, validate_explicit_pin_states,
};
use crate::codex::scan::{Listed, ListedView};
use crate::domain::{
    error_message, result_view, RuntimeStatus, RuntimeStatusView, ScanSnapshot, ScanSnapshotView,
    SessionNode, SessionNodeView, SessionSource, SessionSourceView, VaultError, VaultErrorView,
};
use crate::ordered::{ordered_texts, TextMap, TextSet};
use crate::text::{join, joined};
use vstd::prelude::*;
use vstd::string::*;

verus! {

broadcast use vstd::group_vstd_default;

/// The pins that threads of a set state themselves.
pub open spec fn stated_pins(raw: Map<Seq<char>, ListedView>, ids: Set<Seq<char>>) -> Map<
    Seq<char>,
    bool,
> {
    Map::new(
        |id: Seq<char>|
            ids.contains(id) && raw.contains_key(id) && raw[id].dto.is_pinned is Some,
        |id: Seq<char>| raw[id].dto.is_pinned->0,
    )
}

/// The pins that threads of a set state themselves.
pub fn explicit_pin_states(raw: &TextMap<Listed>, ids: &TextSet) -> (r: TextMap<bool>)
    ensures
        r@ == stated_pins(raw@, ids@),
{
    let items = ids.items();
    let ghost all = items.deep_view();
    let ghost want = stated_pins(raw@, ids@);
    let mut r: TextMap<bool> = TextMap::new();
    let mut i: usize = 0;
    while i < items.len()
        invariant
            i <= items@.len(),
            all == items.deep_view(),
            all.to_set() == ids@,
            want == stated_pins(raw@, ids@),
            forall|id: Seq<char>| #[trigger]
                r@.contains_key(id) ==> want.contains_key(id) && r@[id] == want[id],
            forall|k: int|
                0 <= k < i && want.contains_key(#[trigger] all[k]) ==> r@.contains_key(all[k]),
        decreases items.len() - i,
    {
        proof {
            assert(all[i as int] == items@[i as int]@);
            assert(all.to_set().contains(all[i as int]));
        }
        match raw.get(items[i].as_str()) {
            Some(listed) => match listed.dto.is_pinned {
                Some(pinned) => {
                    r.insert(items[i].clone(), pinned);
                },
                None => {},
            },
            None => {},
        }
        i += 1;
    }
    proof {
        assert forall|id: Seq<char>| want.contains_key(id) implies r@.contains_key(id) by {
            assert(all.to_set().contains(id));
            let k = all.index_of(id);
            assert(all[k] == id);
        }
        assert(r@ =~= want);
    }
    r
}

/// The sessions with their pins; one without a pin has none.
pub open spec fn with_pins(
    nodes: Map<Seq<char>, SessionNodeView>,
    pins: Map<Seq<char>, bool>,
) -> Map<Seq<char>, SessionNodeView> {
    nodes.map_entries(
        |id: Seq<char>, node: SessionNodeView|
            SessionNodeView {
                pinned: if pins.contains_key(id) {
                    Some(pins[id])
                } else {
                    None
                },
                ..node
            },
    )
}

/// The pins of the catalog.
pub open spec fn catalog_pins(threads: Map<Seq<char>, CatalogThreadView>) -> Map<Seq<char>, bool> {
    threads.map_values(|thread: CatalogThreadView| thread.pinned)
}

fn set_pins(nodes: &TextMap<SessionNode>, pins: &TextMap<bool>) -> (r: TextMap<SessionNode>)
    ensures
        r@ == with_pins(nodes@, pins@),
{
    let ids = nodes.keys();
    let ghost all = ids.deep_view();
    let ghost want = with_pins(nodes@, pins@);
    let mut r: TextMap<SessionNode> = TextMap::new();
    let mut i: usize = 0;
    while i < ids.len()
        invariant
            i <= ids@.len(),
            all == ids.deep_view(),
            all.to_set() == nodes@.dom(),
            want == with_pins(nodes@, pins@),
            forall|id: Seq<char>| #[trigger]
                r@.contains_key(id) ==> want.contains_key(id) && r@[id] == want[id],
            forall|k: int|
                0 <= k < i && want.contains_key(#[trigger] all[k]) ==> r@.contains_key(all[k]),
        decreases ids.len() - i,
    {
        proof {
            assert(all[i as int] == ids@[i as int]@);
            assert(all.to_set().contains(all[i as int]));
        }
        match nodes.get(ids[i].as_str()) {
            Some(node) => {
                let pinned = match pins.get(ids[i].as_str()) {
                    Some(pinned) => Some(*pinned),
                    None => None,
                };
                let node = SessionNode { pinned, ..node.clone() };
                r.insert(ids[i].clone(), node);
            },
            None => {},
        }
        i += 1;
    }
    proof {
        assert forall|id: Seq<char>| want.contains_key(id) implies r@.contains_key(id) by {
            assert(all.to_set().contains(id));
            let k = all.index_of(id);
            assert(all[k] == id);
        }
        assert(r@ =~= want);
    }
    r
}

fn pins_of(threads: &TextMap<CatalogThread>) -> (r: TextMap<bool>)
    ensures
        r@ == catalog_pins(threads@),
{
    let ids = threads.keys();
    let ghost all = ids.deep_view();
    let ghost want = catalog_pins(threads@);
    let mut r: TextMap<bool> = TextMap::new();
    let mut i: usize = 0;
    while i < ids.len()
        invariant
            i <= ids@.len(),
            all == ids.deep_view(),
            all.to_set() == threads@.dom(),
            want == catalog_pins(threads@),
            forall|id: Seq<char>| #[trigger]
                r@.contains_key(id) ==> want.contains_key(id) && r@[id] == want[id],
            forall|k: int|
                0 <= k < i && want.contains_key(#[trigger] all[k]) ==> r@.contains_key(all[k]),
        decreases ids.len() - i,
    {
        proof {
            assert(all[i as int] == ids@[i as int]@);
            assert(all.to_set().contains(all[i as int]));
        }
        match threads.get(ids[i].as_str()) {
            Some(thread) => {
                r.insert(ids[i].clone(), thread.pinned);
            },
            None => {},
        }
        i += 1;
    }
    proof {
        assert forall|id: Seq<char>| want.contains_key(id) implies r@.contains_key(id) by {
            assert(all.to_set().contains(id));
            let k = all.index_of(id);
            assert(all[k] == id);
        }
        assert(r@ =~= want);
    }
    r
}

/// What the server listed as pinned, or as not pinned.
pub struct PinListing {
    pub pinned: bool,
    pub listing: Result<Vec<String>, VaultError>,
}

#[verifier::ext_equal]
pub struct PinListingView {
    pub pinned: bool,
    pub listing: Result<Seq<Seq<char>>, VaultErrorView>,
}

impl DeepView for PinListing {
    type V = PinListingView;

    open spec fn deep_view(&self) -> PinListingView {
        PinListingView { pinned: self.pinned, listing: result_view(self.listing) }
    }
}

/// The ids of a set that were listed as pinned, or as not pinned.
pub open spec fn listed_as(
    listings: Seq<PinListingView>,
    pinned: bool,
    ids: Set<Seq<char>>,
) -> Set<Seq<char>> {
    ids.filter(
        |id: Seq<char>|
            exists|k: int|
                0 <= k < listings.len() && (#[trigger] listings[k]).pinned == pinned && (
                listings[k].listing matches Ok(found) && found.contains(id)),
    )
}

/// What the listings that failed say.
pub open spec fn listing_notes(listings: Seq<PinListingView>) -> Seq<Seq<char>>
    decreases listings.len(),
{
    if listings.len() == 0 {
        Seq::empty()
    } else {
        let before = listing_notes(listings.drop_last());
        match listings.last().listing {
            Ok(_) => before,
            Err(error) => before.push(
                if listings.last().pinned {
                    "isPinned=true filter unavailable: "@
                } else {
                    "isPinned=false filter unavailable: "@
                } + error_message(error),
            ),
        }
    }
}

/// Every listing came.
pub open spec fn all_listed(listings: Seq<PinListingView>) -> bool {
    forall|k: int| 0 <= k < listings.len() ==> (#[trigger] listings[k]).listing is Ok
}

/// The pins that the listings prove.
pub open spec fn pins_listed(
    ids: Set<Seq<char>>,
    explicit: Map<Seq<char>, bool>,
    listings: Seq<PinListingView>,
) -> Result<Map<Seq<char>, bool>, Seq<char>> {
    if all_listed(listings) {
        pin_partition(
            ids,
            explicit,
            listed_as(listings, true, ids),
            listed_as(listings, false, ids),
        )
    } else {
        Err("app-server pin filters are unavailable"@)
    }
}

/// What the listings settle.
pub enum PinStep {
    /// The pins are proven.
    Proven(TextMap<bool>),
    /// They must be read elsewhere; the diagnostics say why.
    Elsewhere(Vec<String>),
}

fn find_listed(listings: &Vec<PinListing>, pinned: bool, ids: &TextSet) -> (r: TextSet)
    ensures
        r@ == listed_as(listings.deep_view(), pinned, ids@),
{
    let ghost views = listings.deep_view();
    let items = ids.items();
    let ghost all = items.deep_view();
    let ghost want = listed_as(views, pinned, ids@);
    let mut r = TextSet::new();
    let mut i: usize = 0;
    while i < items.len()
        invariant
            i <= items@.len(),
            all == items.deep_view(),
            all.to_set() == ids@,
            views == listings.deep_view(),
            want == listed_as(views, pinned, ids@),
            forall|id: Seq<char>| #[trigger] r@.contains(id) ==> want.contains(id),
            forall|k: int|
                0 <= k < i && want.contains(#[trigger] all[k]) ==> r@.contains(all[k]),
        decreases items.len() - i,
    {
        proof {
            assert(all[i as int] == items@[i as int]@);
            assert(all.to_set().contains(all[i as int]));
        }
        if listing_holds(listings, pinned, items[i].as_str()) {
            r.insert(items[i].clone());
        }
        i += 1;
    }
    proof {
        assert forall|id: Seq<char>| want.contains(id) implies r@.contains(id) by {
            assert(all.to_set().contains(id));
            let k = all.index_of(id);
            assert(all[k] == id);
        }
        assert(r@ =~= want);
    }
    r
}

fn listing_holds(listings: &Vec<PinListing>, pinned: bool, id: &str) -> (r: bool)
    ensures
        r == exists|k: int|
            0 <= k < listings.deep_view().len() && (#[trigger] listings.deep_view()[k]).pinned
                == pinned && (listings.deep_view()[k].listing matches Ok(found) && found.contains(
                id@,
            )),
{
    let ghost views = listings.deep_view();
    let mut i: usize = 0;
    while i < listings.len()
        invariant
            i <= listings@.len(),
            views == listings.deep_view(),
            forall|k: int|
                0 <= k < i ==> !((#[trigger] views[k]).pinned == pinned && (
                views[k].listing matches Ok(found) && found.contains(id@))),
        decreases listings.len() - i,
    {
        let listing = &listings[i];
        assert(views[i as int] == listing.deep_view());
        if listing.pinned == pinned {
            match &listing.listing {
                Ok(found) => {
                    if crate::domain::list_has(found, id) {
                        return true;
                    }
                },
                Err(_) => {},
            }
        }
        i += 1;
    }
    false
}

/// Settles the pins by what the server listed. Where the connection broke,
/// nothing is settled.
pub fn resolve_listed_pins(
    usable: bool,
    ids: &TextSet,
    explicit: &TextMap<bool>,
    listings: &Vec<PinListing>,
) -> (r: Result<PinStep, VaultError>)
    ensures
        if !usable {
            r matches Err(error) && error.deep_view() == VaultErrorView::Unavailable(
                "app-server connection failed while validating pin filters"@,
            )
        } else {
            match pins_listed(ids@, explicit@, listings.deep_view()) {
                Ok(pins) => r matches Ok(PinStep::Proven(found)) && found@ == pins,
                Err(problem) => r matches Ok(PinStep::Elsewhere(notes)) && notes.deep_view()
                    == listing_notes(listings.deep_view()).push(problem),
            }
        },
{
    if !usable {
        return Err(
            VaultError::Unavailable(
                "app-server connection failed while validating pin filters".to_owned(),
            ),
        );
    }
    let ghost all = listings.deep_view();
    let mut notes: Vec<String> = Vec::new();
    let mut available = true;
    let mut i: usize = 0;
    proof {
        assert(all.take(0) =~= Seq::empty());
        assert(notes.deep_view() =~= Seq::empty());
    }
    while i < listings.len()
        invariant
            i <= listings@.len(),
            all == listings.deep_view(),
            notes.deep_view() == listing_notes(all.take(i as int)),
            available == forall|k: int| 0 <= k < i ==> (#[trigger] all[k]).listing is Ok,
        decreases listings.len() - i,
    {
        let ghost before = notes.deep_view();
        let listing = &listings[i];
        proof {
            assert(all[i as int] == listing.deep_view());
            assert(all.take(i as int + 1).drop_last() =~= all.take(i as int));
            assert(all.take(i as int + 1).last() == all[i as int]);
        }
        match &listing.listing {
            Ok(_) => {},
            Err(error) => {
                available = false;
                let opening = if listing.pinned {
                    "isPinned=true filter unavailable: ".to_owned()
                } else {
                    "isPinned=false filter unavailable: ".to_owned()
                };
                let note = opening.concat(error.message().as_str());
                notes.push(note);
                assert(notes.deep_view() =~= before.push(note@));
            },
        }
        i += 1;
    }
    assert(all.take(i as int) =~= all);
    let problem = if available {
        let pinned = find_listed(listings, true, ids);
        let unpinned = find_listed(listings, false, ids);
        match resolve_pin_partition(ids, explicit, &pinned, &unpinned) {
            Ok(pins) => {
                return Ok(PinStep::Proven(pins));
            },
            Err(problem) => problem,
        }
    } else {
        "app-server pin filters are unavailable".to_owned()
    };
    let ghost before = notes.deep_view();
    notes.push(problem);
    assert(notes.deep_view() =~= before.push(problem@));
    Ok(PinStep::Elsewhere(notes))
}

/// The pins that were read elsewhere, where they agree with those that threads
/// state.
pub open spec fn agreed_pins(
    read: Result<Map<Seq<char>, bool>, Seq<char>>,
    explicit: Map<Seq<char>, bool>,
) -> Result<Map<Seq<char>, bool>, Seq<char>> {
    match read {
        Err(problem) => Err(problem),
        Ok(pins) => match explicit_problem(pins, explicit) {
            Some(problem) => Err(problem),
            None => Ok(pins),
        },
    }
}

/// Accepts pins that were read elsewhere, where they agree with those that
/// threads state.
pub fn accept_read_pins(read: Result<TextMap<bool>, String>, explicit: &TextMap<bool>) -> (r:
    Result<TextMap<bool>, String>)
    ensures
        result_view(r) == agreed_pins(result_view(read), explicit@),
{
    match read {
        Err(problem) => Err(problem),
        Ok(pins) => match validate_explicit_pin_states(&pins, explicit) {
            Ok(()) => Ok(pins),
            Err(problem) => Err(problem),
        },
    }
}

/// The draft with pins. Without proof of them nothing may be written.
pub open spec fn pinned_draft(
    draft: DraftView,
    pins: Result<Map<Seq<char>, bool>, Seq<char>>,
    notes: Seq<Seq<char>>,
) -> DraftView {
    match pins {
        Ok(pins) => DraftView { nodes: with_pins(draft.nodes, pins), ..draft },
        Err(problem) => DraftView {
            write_capable: false,
            diagnostics: (draft.diagnostics + notes).push(
                "read-only Codex pin-state fallback unavailable: "@ + problem,
            ).push("pin state cannot be proven; all state-changing operations are disabled"@),
            ..draft
        },
    }
}

/// A deletion that waits to be seen, with what was still found of it.
pub struct PendingDelete {
    pub id: String,
    pub path: String,
    pub residue: Result<Vec<String>, String>,
}

#[verifier::ext_equal]
pub struct PendingDeleteView {
    pub id: Seq<char>,
    pub path: Seq<char>,
    pub residue: Result<Seq<Seq<char>>, Seq<char>>,
}

impl DeepView for PendingDelete {
    type V = PendingDeleteView;

    open spec fn deep_view(&self) -> PendingDeleteView {
        PendingDeleteView {
            id: self.id@,
            path: self.path@,
            residue: result_view(self.residue),
        }
    }
}

/// A deletion of which nothing was found any more.
pub open spec fn gone(pending: PendingDeleteView) -> bool {
    pending.residue matches Ok(found) && found.len() == 0
}

/// Why a deletion is not complete, and the mark of its session.
pub open spec fn residue_reason(pending: PendingDeleteView) -> (Seq<char>, Seq<char>) {
    match pending.residue {
        Ok(found) => (
            "delete cleanup is incomplete for "@ + pending.id + ": "@ + joined(found, ", "@),
            "cleanupResidue"@,
        ),
        Err(problem) => (
            "delete cleanup cannot be verified for "@ + pending.id + ": "@ + problem,
            "cleanupUnverified"@,
        ),
    }
}

/// The session that stands for a deletion that is not complete.
pub open spec fn residue_node(pending: PendingDeleteView) -> SessionNodeView {
    SessionNodeView {
        id: pending.id,
        title: pending.id,
        project: None,
        provider: None,
        model: None,
        cwd: pending.path,
        rollout_bytes: None,
        last_activity: None,
        archived: true,
        pinned: Some(false),
        status: RuntimeStatusView::Unknown(residue_reason(pending).0),
        parent_id: None,
        source: SessionSourceView::Other(residue_reason(pending).1),
    }
}

/// The draft with the deletions that are not complete.
pub open spec fn with_deletes(draft: DraftView, pending: Seq<PendingDeleteView>) -> DraftView
    decreases pending.len(),
{
    if pending.len() == 0 {
        draft
    } else {
        let before = with_deletes(draft, pending.drop_last());
        let last = pending.last();
        if gone(last) {
            before
        } else {
            DraftView {
                nodes: if before.nodes.contains_key(last.id) {
                    before.nodes
                } else {
                    before.nodes.insert(last.id, residue_node(last))
                },
                diagnostics: before.diagnostics.push(residue_reason(last).0),
                ..before
            }
        }
    }
}

/// The ids of the deletions that are complete.
pub open spec fn gone_ids(pending: Seq<PendingDeleteView>) -> Seq<Seq<char>> {
    pending.filter(|p: PendingDeleteView| gone(p)).map_values(|p: PendingDeleteView| p.id)
}

/// The sessions of a map, by their ids.
pub open spec fn nodes_in_order(nodes: Map<Seq<char>, SessionNodeView>) -> Seq<SessionNodeView> {
    ordered_texts(nodes.dom()).map_values(|id: Seq<char>| nodes[id])
}

/// The snapshot of a draft.
pub open spec fn snapshot_of(draft: DraftView, relation_complete: bool) -> ScanSnapshotView {
    ScanSnapshotView {
        nodes: nodes_in_order(draft.nodes),
        write_capable: draft.write_capable && relation_complete,
        relation_complete,
        diagnostics: draft.diagnostics,
    }
}

impl Draft {
    /// Gives the sessions the pins of the catalog.
    pub fn pin_by_catalog(&mut self, threads: &TextMap<CatalogThread>)
        ensures
            final(self).deep_view() == (DraftView {
                nodes: with_pins(old(self).deep_view().nodes, catalog_pins(threads@)),
                ..old(self).deep_view()
            }),
    {
        let pins = pins_of(threads);
        self.nodes = set_pins(&self.nodes, &pins);
    }

    /// Gives the sessions their pins, or disables writing where they are not
    /// proven.
    pub fn settle_pins(&mut self, pins: &Result<TextMap<bool>, String>, notes: &Vec<String>)
        ensures
            final(self).deep_view() == pinned_draft(
                old(self).deep_view(),
                result_view(*pins),
                notes.deep_view(),
            ),
    {
        match pins {
            Ok(pins) => {
                self.nodes = set_pins(&self.nodes, pins);
            },
            Err(problem) => {
                self.write_capable = false;
                crate::codex::draft::append_texts(&mut self.diagnostics, notes);
                let ghost before = self.diagnostics.deep_view();
                let first = "read-only Codex pin-state fallback unavailable: ".to_owned().concat(
                    problem.as_str(),
                );
                self.diagnostics.push(first);
                assert(self.diagnostics.deep_view() =~= before.push(first@));
                let ghost before = self.diagnostics.deep_view();
                let second =
                    "pin state cannot be proven; all state-changing operations are disabled".to_owned();
                self.diagnostics.push(second);
                assert(self.diagnostics.deep_view() =~= before.push(second@));
            },
        }
    }

    fn add_residue(&mut self, pending: &PendingDelete, reason: String, mark: String)
        requires
            (reason@, mark@) == residue_reason(pending.deep_view()),
            !gone(pending.deep_view()),
        ensures
            final(self).deep_view() == with_deletes(
                old(self).deep_view(),
                seq![pending.deep_view()],
            ),
    {
        let ghost start = self.deep_view();
        let ghost one = seq![pending.deep_view()];
        self.diagnostics.push(reason.clone());
        proof {
            assert(one.drop_last() =~= Seq::empty());
            assert(with_deletes(start, one.drop_last()) == start);
            assert(one.last() == pending.deep_view());
            assert(self.diagnostics.deep_view() =~= start.diagnostics.push(reason@));
        }
        if self.nodes.get(pending.id.as_str()).is_none() {
            let node = SessionNode {
                id: pending.id.clone(),
                title: pending.id.clone(),
                project: None,
                provider: None,
                model: None,
                cwd: pending.path.clone(),
                rollout_bytes: None,
                last_activity: None,
                archived: true,
                pinned: Some(false),
                status: RuntimeStatus::Unknown(reason),
                parent_id: None,
                source: SessionSource::Other(mark),
            };
            assert(node.deep_view() =~= residue_node(pending.deep_view()));
            self.nodes.insert(pending.id.clone(), node);
        }
    }

    /// Takes in what was still found of deletions. Gives the ids of those that
    /// are complete.
    pub fn settle_deletes(&mut self, pending: &Vec<PendingDelete>) -> (r: Vec<String>)
        ensures
            final(self).deep_view() == with_deletes(old(self).deep_view(), pending.deep_view()),
            r.deep_view() == gone_ids(pending.deep_view()),
    {
        let ghost start = self.deep_view();
        let ghost all = pending.deep_view();
        let ghost keep = |p: PendingDeleteView| gone(p);
        let ghost id_of = |p: PendingDeleteView| p.id;
        let mut r: Vec<String> = Vec::new();
        let mut i: usize = 0;
        proof {
            reveal(Seq::filter);
            assert(all.take(0) =~= Seq::empty());
            assert(r.deep_view() =~= all.take(0).filter(keep).map_values(id_of));
        }
        while i < pending.len()
            invariant
                i <= pending@.len(),
                all == pending.deep_view(),
                keep == (|p: PendingDeleteView| gone(p)),
                id_of == (|p: PendingDeleteView| p.id),
                self.deep_view() == with_deletes(start, all.take(i as int)),
                r.deep_view() == all.take(i as int).filter(keep).map_values(id_of),
            decreases pending.len() - i,
        {
            let ghost before = r.deep_view();
            let ghost now = self.deep_view();
            let one = &pending[i];
            proof {
                reveal(Seq::filter);
                assert(all[i as int] == one.deep_view());
                assert(all.take(i as int + 1).drop_last() =~= all.take(i as int));
                assert(all.take(i as int + 1).last() == all[i as int]);
                let single = seq![one.deep_view()];
                assert(single.drop_last() =~= Seq::empty());
                assert(with_deletes(now, single.drop_last()) == now);
            }
            match &one.residue {
                Ok(found) => {
                    assert(found.deep_view().len() == found@.len());
                    if found.len() == 0 {
                        r.push(one.id.clone());
                        assert(r.deep_view() =~= before.push(one.id@));
                        assert(all.take(i as int + 1).filter(keep).map_values(id_of)
                            =~= before.push(one.id@));
                    } else {
                        let reason = "delete cleanup is incomplete for ".to_owned().concat(
                            one.id.as_str(),
                        ).concat(": ").concat(join(found, ", ").as_str());
                        self.add_residue(one, reason, "cleanupResidue".to_owned());
                    }
                },
                Err(problem) => {
                    let reason = "delete cleanup cannot be verified for ".to_owned().concat(
                        one.id.as_str(),
                    ).concat(": ").concat(problem.as_str());
                    self.add_residue(one, reason, "cleanupUnverified".to_owned());
                },
            }
            i += 1;
        }
        assert(all.take(i as int) =~= all);
        r
    }

    /// The snapshot.
    pub fn finish(self, relation_complete: bool) -> (r: ScanSnapshot)
        ensures
            r.deep_view() == snapshot_of(self.deep_view(), relation_complete),
    {
        let ids = self.nodes.keys();
        let ghost all = ids.deep_view();
        let ghost want = nodes_in_order(self.nodes@);
        let mut nodes: Vec<SessionNode> = Vec::new();
        let mut i: usize = 0;
        assert(nodes.deep_view() =~= want.take(0));
        while i < ids.len()
            invariant
                i <= ids@.len(),
                all == ids.deep_view(),
                all == ordered_texts(self.nodes@.dom()),
                all.to_set() == self.nodes@.dom(),
                want == nodes_in_order(self.nodes@),
                nodes.deep_view() == want.take(i as int),
            decreases ids.len() - i,
        {
            let ghost before = nodes.deep_view();
            proof {
                assert(all[i as int] == ids@[i as int]@);
                assert(all.to_set().contains(all[i as int]));
            }
            match self.nodes.get(ids[i].as_str()) {
                Some(node) => {
                    let node = node.clone();
                    nodes.push(node);
                    assert(nodes.deep_view() =~= before.push(node.deep_view()));
                    assert(nodes.deep_view() =~= want.take(i as int + 1));
                },
                None => {},
            }
            i += 1;
        }
        assert(want.take(i as int) =~= want);
        ScanSnapshot {
            nodes,
            write_capable: self.write_capable && relation_complete,
            relation_complete,
            diagnostics: self.diagnostics,
        }
    }
}

/// A snapshot allows writing only where the relations are complete and every
/// step before allowed it.
pub proof fn law_snapshot_fails_closed(
    draft: DraftView,
    pins: Result<Map<Seq<char>, bool>, Seq<char>>,
    notes: Seq<Seq<char>>,
    pending: Seq<PendingDeleteView>,
    relation_complete: bool,
)
    ensures
        snapshot_of(
            with_deletes(pinned_draft(draft, pins, notes), pending),
            relation_complete,
        ).write_capable ==> relation_complete && draft.write_capable && pins is Ok,
{
    lemma_deletes_keep_capability(pinned_draft(draft, pins, notes), pending);
}

pub proof fn lemma_deletes_keep_capability(draft: DraftView, pending: Seq<PendingDeleteView>)
    ensures
        with_deletes(draft, pending).write_capable == draft.write_capable,
    decreases pending.len(),
{
    if pending.len() > 0 {
        lemma_deletes_keep_capability(draft, pending.drop_last());
    }
}

/// A deletion that is not complete stays in sight: its id keeps a session.
pub proof fn law_incomplete_deletes_stay(
    draft: DraftView,
    pending: Seq<PendingDeleteView>,
    i: int,
)
    requires
        0 <= i < pending.len(),
        !gone(pending[i]),
    ensures
        with_deletes(draft, pending).nodes.contains_key(pending[i].id),
    decreases pending.len(),
{
    if i < pending.len() - 1 {
        law_incomplete_deletes_stay(draft, pending.drop_last(), i);
    }
}

} // verus!
