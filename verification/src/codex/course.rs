//! The course of a scan: what is asked for next, and how each answer leads on.
//!
//! The server, the database and the disk are asked by the program around the
//! library. In which order, and what becomes of the answers, is decided here.

use crate::codex::catalog::{CatalogSnapshot, CatalogSnapshotView, CatalogThread, CatalogThreadView};
use crate::codex::closure::{closed_over, included, roots, Closure};
use crate::codex::draft::{
    draft_nodes, drafted, law_draft_writes_only_when_complete, listings_view, probed, Draft,
    DraftView,
};
use crate::codex::maintenance::{FileState, FileStateView, MaintenanceDiscovery};
use crate::codex::scan::{
    as_listed, batch, batches, catalog_only_ids, catalogued, discovery_view, doubting, filled,
    law_parents_keep_threads, lemma_filled_threads, noting, started, with_listed, with_parents,
    without_parent, ListedView, Read, ReadView, Scan, ScanView, THREAD_READ_BATCH_SIZE,
};
use crate::codex::settle::{
    accept_read_pins, agreed_pins, catalog_pins, explicit_pin_states, gone_ids,
    lemma_deletes_keep_capability, listing_notes, pinned_draft,
    pins_listed, resolve_listed_pins, snapshot_of, stated_pins, with_deletes, with_pins,
    PendingDelete, PendingDeleteView, PinListing, PinListingView, PinStep,
};
use crate::codex::thread::{ThreadDto, ThreadView};
use crate::domain::{
    error_message, result_view, MaintenanceCandidateView, ScanSnapshot, ScanSnapshotView,
    VaultError, VaultErrorView,
};
use crate::ordered::{
    lemma_filter_member, lemma_ordered_members, ordered_texts, TextMap, TextSet,
};
use crate::text::{copy_texts, decimal};
use vstd::prelude::*;
use vstd::string::*;

verus! {

broadcast use vstd::group_vstd_default;

/// What a scan depends on and does not ask for.
pub struct ScanSetting {
    /// The server and the command line can do what is needed.
    pub capable: bool,
    pub home: Result<String, String>,
}

#[verifier::ext_equal]
pub struct ScanSettingView {
    pub capable: bool,
    pub home: Result<Seq<char>, Seq<char>>,
}

impl DeepView for ScanSetting {
    type V = ScanSettingView;

    open spec fn deep_view(&self) -> ScanSettingView {
        ScanSettingView { capable: self.capable, home: result_view(self.home) }
    }
}

/// What a scan asks for next.
#[derive(Debug)]
pub enum ScanStep {
    /// The threads of the server that are archived, or those that are not.
    List(bool),
    /// The catalog of tasks, with what leftovers were found by it.
    Catalog,
    /// The metadata of threads.
    Read(Vec<String>),
    /// The threads below a root that are archived, or those that are not.
    Below(String, bool),
    /// The states of files.
    Files(Vec<String>),
    /// The threads that are pinned, or those that are not, among the archived
    /// or among the others.
    Pinned(bool, bool),
    /// The pins of threads by the database.
    Pins(TextSet),
    /// What is left of deletions.
    Deletes,
    /// Nothing: the scan is over.
    Nothing,
}

#[verifier::ext_equal]
pub enum ScanStepView {
    List(bool),
    Catalog,
    Read(Seq<Seq<char>>),
    Below(Seq<char>, bool),
    Files(Seq<Seq<char>>),
    Pinned(bool, bool),
    Pins(Set<Seq<char>>),
    Deletes,
    Nothing,
}

impl DeepView for ScanStep {
    type V = ScanStepView;

    open spec fn deep_view(&self) -> ScanStepView {
        match self {
            ScanStep::List(archived) => ScanStepView::List(*archived),
            ScanStep::Catalog => ScanStepView::Catalog,
            ScanStep::Read(ids) => ScanStepView::Read(ids.deep_view()),
            ScanStep::Below(root, archived) => ScanStepView::Below(root@, *archived),
            ScanStep::Files(paths) => ScanStepView::Files(paths.deep_view()),
            ScanStep::Pinned(pinned, archived) => ScanStepView::Pinned(*pinned, *archived),
            ScanStep::Pins(ids) => ScanStepView::Pins(ids@),
            ScanStep::Deletes => ScanStepView::Deletes,
            ScanStep::Nothing => ScanStepView::Nothing,
        }
    }
}

/// An answer to what a scan asked for.
pub enum ScanEvent {
    Listed(Result<Vec<ThreadDto>, VaultError>),
    Catalog(Result<(CatalogSnapshot, Result<MaintenanceDiscovery, String>), String>),
    Read(Result<TextMap<Read>, VaultError>),
    Below(Result<Vec<String>, VaultError>),
    Files(TextMap<FileState>),
    /// Also says whether the connection can still be used.
    Pinned(Result<Vec<String>, VaultError>, bool),
    Pins(Result<TextMap<bool>, String>),
    Deletes(Vec<PendingDelete>),
}

#[verifier::ext_equal]
pub enum ScanEventView {
    Listed(Result<Seq<ThreadView>, VaultErrorView>),
    Catalog(
        Result<
            (CatalogSnapshotView, Result<(nat, nat, Seq<MaintenanceCandidateView>), Seq<char>>),
            Seq<char>,
        >,
    ),
    Read(Result<Map<Seq<char>, ReadView>, VaultErrorView>),
    Below(Result<Seq<Seq<char>>, VaultErrorView>),
    Files(Map<Seq<char>, FileStateView>),
    Pinned(Result<Seq<Seq<char>>, VaultErrorView>, bool),
    Pins(Result<Map<Seq<char>, bool>, Seq<char>>),
    Deletes(Seq<PendingDeleteView>),
}

impl DeepView for ScanEvent {
    type V = ScanEventView;

    open spec fn deep_view(&self) -> ScanEventView {
        match self {
            ScanEvent::Listed(answer) => ScanEventView::Listed(result_view(*answer)),
            ScanEvent::Catalog(read) => ScanEventView::Catalog(
                match *read {
                    Ok((catalog, found)) => Ok((catalog.deep_view(), discovery_view(found))),
                    Err(problem) => Err(problem@),
                },
            ),
            ScanEvent::Read(answer) => ScanEventView::Read(result_view(*answer)),
            ScanEvent::Below(answer) => ScanEventView::Below(result_view(*answer)),
            ScanEvent::Files(files) => ScanEventView::Files(files@),
            ScanEvent::Pinned(answer, usable) => ScanEventView::Pinned(
                result_view(*answer),
                *usable,
            ),
            ScanEvent::Pins(read) => ScanEventView::Pins(result_view(*read)),
            ScanEvent::Deletes(pending) => ScanEventView::Deletes(pending.deep_view()),
        }
    }
}

/// What a scan came to.
pub struct ScanOutcome {
    pub snapshot: ScanSnapshot,
    /// Where the rollout files of the sessions lie, where the catalog was read.
    pub rollout_paths: Option<TextMap<String>>,
    /// The deletions of which nothing is left.
    pub gone: Vec<String>,
}

#[verifier::ext_equal]
pub struct ScanOutcomeView {
    pub snapshot: ScanSnapshotView,
    pub rollout_paths: Option<Map<Seq<char>, Seq<char>>>,
    pub gone: Seq<Seq<char>>,
}

impl DeepView for ScanOutcome {
    type V = ScanOutcomeView;

    open spec fn deep_view(&self) -> ScanOutcomeView {
        ScanOutcomeView {
            snapshot: self.snapshot.deep_view(),
            rollout_paths: self.rollout_paths.deep_view(),
            gone: self.gone.deep_view(),
        }
    }
}

/// How far a scan is, with what it knows.
pub enum Course {
    /// The server lists its threads.
    Listing { scan: Scan, archived: bool },
    /// The catalog is read.
    Catalog { scan: Scan },
    /// Threads of the catalog that the server did not list are read, in batches.
    Missing { scan: Scan, threads: TextMap<CatalogThread>, left: Vec<Vec<String>> },
    /// Threads without their parent are read, in batches.
    Parents { scan: Scan, threads: Option<TextMap<CatalogThread>>, left: Vec<Vec<String>> },
    /// The server lists what stands below a root.
    Below {
        scan: Scan,
        closure: Closure,
        root: String,
        listings: Vec<Result<Vec<String>, VaultError>>,
    },
    /// The rollout files are looked at.
    Files { scan: Scan, closure: Closure, threads: TextMap<CatalogThread> },
    /// The server lists the pinned threads, and the others.
    Pins {
        draft: Draft,
        relation_complete: bool,
        ids: TextSet,
        explicit: TextMap<bool>,
        listings: Vec<PinListing>,
    },
    /// The pins are read from the database.
    PinTable {
        draft: Draft,
        relation_complete: bool,
        ids: TextSet,
        explicit: TextMap<bool>,
        notes: Vec<String>,
    },
    /// What is left of deletions is looked for.
    Deletes { draft: Draft, relation_complete: bool, catalogued: bool },
    Done(ScanOutcome),
    Failed(VaultError),
}

#[verifier::ext_equal]
pub enum CourseView {
    Listing { scan: ScanView, archived: bool },
    Catalog { scan: ScanView },
    Missing {
        scan: ScanView,
        threads: Map<Seq<char>, CatalogThreadView>,
        left: Seq<Seq<Seq<char>>>,
    },
    Parents {
        scan: ScanView,
        threads: Option<Map<Seq<char>, CatalogThreadView>>,
        left: Seq<Seq<Seq<char>>>,
    },
    Below {
        scan: ScanView,
        root_ids: Set<Seq<char>>,
        included_ids: Set<Seq<char>>,
        root: Seq<char>,
        listings: Seq<Result<Seq<Seq<char>>, VaultErrorView>>,
    },
    Files {
        scan: ScanView,
        root_ids: Set<Seq<char>>,
        included_ids: Set<Seq<char>>,
        threads: Map<Seq<char>, CatalogThreadView>,
    },
    Pins {
        draft: DraftView,
        relation_complete: bool,
        ids: Set<Seq<char>>,
        explicit: Map<Seq<char>, bool>,
        listings: Seq<PinListingView>,
    },
    PinTable {
        draft: DraftView,
        relation_complete: bool,
        ids: Set<Seq<char>>,
        explicit: Map<Seq<char>, bool>,
        notes: Seq<Seq<char>>,
    },
    Deletes { draft: DraftView, relation_complete: bool, catalogued: bool },
    Done(ScanOutcomeView),
    Failed(VaultErrorView),
}

impl DeepView for Course {
    type V = CourseView;

    open spec fn deep_view(&self) -> CourseView {
        match self {
            Course::Listing { scan, archived } => CourseView::Listing {
                scan: scan.deep_view(),
                archived: *archived,
            },
            Course::Catalog { scan } => CourseView::Catalog { scan: scan.deep_view() },
            Course::Missing { scan, threads, left } => CourseView::Missing {
                scan: scan.deep_view(),
                threads: threads@,
                left: left.deep_view(),
            },
            Course::Parents { scan, threads, left } => CourseView::Parents {
                scan: scan.deep_view(),
                threads: threads.deep_view(),
                left: left.deep_view(),
            },
            Course::Below { scan, closure, root, listings } => CourseView::Below {
                scan: scan.deep_view(),
                root_ids: closure.root_ids@,
                included_ids: closure.included_ids@,
                root: root@,
                listings: listings_view(listings@),
            },
            Course::Files { scan, closure, threads } => CourseView::Files {
                scan: scan.deep_view(),
                root_ids: closure.root_ids@,
                included_ids: closure.included_ids@,
                threads: threads@,
            },
            Course::Pins { draft, relation_complete, ids, explicit, listings } => {
                CourseView::Pins {
                    draft: draft.deep_view(),
                    relation_complete: *relation_complete,
                    ids: ids@,
                    explicit: explicit@,
                    listings: listings.deep_view(),
                }
            },
            Course::PinTable { draft, relation_complete, ids, explicit, notes } => {
                CourseView::PinTable {
                    draft: draft.deep_view(),
                    relation_complete: *relation_complete,
                    ids: ids@,
                    explicit: explicit@,
                    notes: notes.deep_view(),
                }
            },
            Course::Deletes { draft, relation_complete, catalogued } => CourseView::Deletes {
                draft: draft.deep_view(),
                relation_complete: *relation_complete,
                catalogued: *catalogued,
            },
            Course::Done(outcome) => CourseView::Done(outcome.deep_view()),
            Course::Failed(error) => CourseView::Failed(error.deep_view()),
        }
    }
}

/// Ids in batches.
pub open spec fn batches_of(ids: Seq<Seq<char>>) -> Seq<Seq<Seq<char>>> {
    Seq::new(
        ((ids.len() + THREAD_READ_BATCH_SIZE - 1) / THREAD_READ_BATCH_SIZE as int) as nat,
        |k: int| batch(ids, k),
    )
}

/// The batch that comes next.
pub open spec fn first_batch(left: Seq<Seq<Seq<char>>>) -> Seq<Seq<char>> {
    if left.len() == 0 {
        Seq::empty()
    } else {
        left[0]
    }
}

/// The batches after the next one.
pub open spec fn later_batches(left: Seq<Seq<Seq<char>>>) -> Seq<Seq<Seq<char>>> {
    if left.len() == 0 {
        left
    } else {
        left.skip(1)
    }
}

/// The rollout files of a catalog.
pub open spec fn rollouts_of(threads: Map<Seq<char>, CatalogThreadView>) -> Seq<Seq<char>> {
    ordered_texts(threads.dom()).map_values(|id: Seq<char>| threads[id].rollout_path)
}

/// What a scan asks for next.
pub open spec fn asked(course: CourseView) -> ScanStepView {
    match course {
        CourseView::Listing { archived, .. } => ScanStepView::List(archived),
        CourseView::Catalog { .. } => ScanStepView::Catalog,
        CourseView::Missing { left, .. } => ScanStepView::Read(first_batch(left)),
        CourseView::Parents { left, .. } => ScanStepView::Read(first_batch(left)),
        CourseView::Below { root, listings, .. } => ScanStepView::Below(root, listings.len() > 0),
        CourseView::Files { threads, .. } => ScanStepView::Files(rollouts_of(threads)),
        CourseView::Pins { listings, .. } => ScanStepView::Pinned(
            listings.len() % 2 == 0,
            listings.len() > 1,
        ),
        CourseView::PinTable { ids, .. } => ScanStepView::Pins(ids),
        CourseView::Deletes { .. } => ScanStepView::Deletes,
        CourseView::Done(_) => ScanStepView::Nothing,
        CourseView::Failed(_) => ScanStepView::Nothing,
    }
}

/// On to the pins, without a catalog.
pub open spec fn to_pins(
    scan: ScanView,
    root_ids: Set<Seq<char>>,
    included_ids: Set<Seq<char>>,
    setting: ScanSettingView,
) -> CourseView {
    CourseView::Pins {
        draft: drafted(
            scan,
            setting.capable,
            root_ids,
            Map::empty(),
            setting.home,
            Map::empty(),
            ordered_texts(included_ids),
        ),
        relation_complete: scan.relation_complete,
        ids: included_ids,
        explicit: stated_pins(scan.raw, included_ids),
        listings: Seq::empty(),
    }
}

/// On to the trees. With a catalog its files come next; without one the server
/// is held against the parents at the first root, where there is a root.
pub open spec fn to_trees(
    scan: ScanView,
    threads: Option<Map<Seq<char>, CatalogThreadView>>,
    setting: ScanSettingView,
) -> CourseView {
    let closed = closed_over(scan);
    let root_ids = roots(scan.raw);
    let included_ids = included(scan.raw);
    match threads {
        Some(threads) => CourseView::Files { scan: closed, root_ids, included_ids, threads },
        None => if ordered_texts(root_ids).len() == 0 {
            to_pins(closed, root_ids, included_ids, setting)
        } else {
            CourseView::Below {
                scan: closed,
                root_ids,
                included_ids,
                root: ordered_texts(root_ids)[0],
                listings: Seq::empty(),
            }
        },
    }
}

/// On to the batches of threads without a parent, as far as any are left.
pub open spec fn to_parents(
    scan: ScanView,
    threads: Option<Map<Seq<char>, CatalogThreadView>>,
    left: Seq<Seq<Seq<char>>>,
    setting: ScanSettingView,
) -> CourseView {
    if left.len() == 0 {
        to_trees(scan, threads, setting)
    } else {
        CourseView::Parents { scan, threads, left }
    }
}

/// On to the batches of threads that the server did not list, as far as any are
/// left.
pub open spec fn to_missing(
    scan: ScanView,
    threads: Map<Seq<char>, CatalogThreadView>,
    left: Seq<Seq<Seq<char>>>,
    setting: ScanSettingView,
) -> CourseView {
    if left.len() == 0 {
        to_parents(scan, Some(threads), batches_of(without_parent(scan.raw)), setting)
    } else {
        CourseView::Missing { scan, threads, left }
    }
}

/// The scan after its connection broke while it listed pins.
pub open spec fn pins_broken() -> VaultErrorView {
    VaultErrorView::Unavailable("app-server connection failed while validating pin filters"@)
}

/// How an answer leads on. One to something else than what was asked for
/// changes nothing.
pub open spec fn after(
    course: CourseView,
    event: ScanEventView,
    setting: ScanSettingView,
) -> CourseView {
    match (course, event) {
        (CourseView::Listing { scan, archived }, ScanEventView::Listed(answer)) => match answer {
            Err(error) => CourseView::Failed(error),
            Ok(threads) => {
                let next = with_listed(scan, as_listed(threads, archived));
                if archived {
                    CourseView::Catalog { scan: next }
                } else {
                    CourseView::Listing { scan: next, archived: true }
                }
            },
        },
        (CourseView::Catalog { scan }, ScanEventView::Catalog(read)) => match read {
            Err(problem) => to_parents(
                noting(
                    scan,
                    "authoritative Codex task catalog is unavailable; discovery is compatibility-only: "@
                        + problem,
                ),
                None,
                batches_of(without_parent(scan.raw)),
                setting,
            ),
            Ok((catalog, found)) => to_missing(
                catalogued(scan, catalog, found),
                catalog.threads,
                batches_of(catalog_only_ids(scan.raw, catalog.threads)),
                setting,
            ),
        },
        (CourseView::Missing { scan, threads, left }, ScanEventView::Read(answer)) => {
            match answer {
                Err(error) => CourseView::Failed(error),
                Ok(reads) => to_missing(
                    filled(scan, threads, reads, first_batch(left)),
                    threads,
                    later_batches(left),
                    setting,
                ),
            }
        },
        (CourseView::Parents { scan, threads, left }, ScanEventView::Read(answer)) => {
            match answer {
                Err(error) => to_trees(
                    doubting(
                        scan,
                        "thread/read could not hydrate "@ + decimal(first_batch(left).len() as int)
                            + " parent relationships: "@ + error_message(error),
                    ),
                    threads,
                    setting,
                ),
                Ok(reads) => to_parents(
                    with_parents(scan, reads, first_batch(left)),
                    threads,
                    later_batches(left),
                    setting,
                ),
            }
        },
        (
            CourseView::Below { scan, root_ids, included_ids, root, listings },
            ScanEventView::Below(answer),
        ) => {
            let all = listings.push(answer);
            if all.len() < 2 {
                CourseView::Below { scan, root_ids, included_ids, root, listings: all }
            } else {
                to_pins(probed(scan, root, all), root_ids, included_ids, setting)
            }
        },
        (
            CourseView::Files { scan, root_ids, included_ids, threads },
            ScanEventView::Files(files),
        ) => {
            let draft = drafted(
                scan,
                setting.capable,
                root_ids,
                threads,
                setting.home,
                files,
                ordered_texts(included_ids),
            );
            CourseView::Deletes {
                draft: DraftView { nodes: with_pins(draft.nodes, catalog_pins(threads)), ..draft },
                relation_complete: scan.relation_complete,
                catalogued: true,
            }
        },
        (
            CourseView::Pins { draft, relation_complete, ids, explicit, listings },
            ScanEventView::Pinned(answer, usable),
        ) => {
            let all = listings.push(
                PinListingView { pinned: listings.len() % 2 == 0, listing: answer },
            );
            if all.len() < 4 {
                CourseView::Pins { draft, relation_complete, ids, explicit, listings: all }
            } else if !usable {
                CourseView::Failed(pins_broken())
            } else {
                match pins_listed(ids, explicit, all) {
                    Ok(pins) => CourseView::Deletes {
                        draft: pinned_draft(draft, Ok(pins), Seq::empty()),
                        relation_complete,
                        catalogued: false,
                    },
                    Err(problem) => CourseView::PinTable {
                        draft,
                        relation_complete,
                        ids,
                        explicit,
                        notes: listing_notes(all).push(problem),
                    },
                }
            }
        },
        (
            CourseView::PinTable { draft, relation_complete, explicit, notes, .. },
            ScanEventView::Pins(read),
        ) => CourseView::Deletes {
            draft: pinned_draft(draft, agreed_pins(read, explicit), notes),
            relation_complete,
            catalogued: false,
        },
        (
            CourseView::Deletes { draft, relation_complete, catalogued },
            ScanEventView::Deletes(pending),
        ) => CourseView::Done(
            ScanOutcomeView {
                snapshot: snapshot_of(with_deletes(draft, pending), relation_complete),
                rollout_paths: if catalogued {
                    Some(draft.rollout_paths)
                } else {
                    None
                },
                gone: gone_ids(pending),
            },
        ),
        (_, _) => course,
    }
}

fn split(ids: &Vec<String>) -> (r: Vec<Vec<String>>)
    ensures
        r.deep_view() == batches_of(ids.deep_view()),
{
    let r = batches(ids);
    assert(ids.deep_view().len() == ids@.len());
    assert(r.deep_view().len() == r@.len());
    assert(r.deep_view() =~= batches_of(ids.deep_view())) by {
        assert forall|k: int| 0 <= k < r@.len() implies r.deep_view()[k] == batch(
            ids.deep_view(),
            k,
        ) by {
            assert(r@[k].deep_view() == batch(ids.deep_view(), k));
        }
    }
    r
}

/// Takes the next batch off.
fn take_first(left: &mut Vec<Vec<String>>) -> (r: Vec<String>)
    ensures
        r.deep_view() == first_batch(old(left).deep_view()),
        final(left).deep_view() == later_batches(old(left).deep_view()),
{
    let ghost before = left.deep_view();
    assert(before.len() == left@.len());
    if left.len() == 0 {
        let none: Vec<String> = Vec::new();
        assert(none.deep_view() =~= Seq::empty());
        return none;
    }
    let first = left.remove(0);
    assert(left.deep_view() =~= before.skip(1));
    first
}

fn enter_pins(scan: Scan, closure: Closure, setting: &ScanSetting) -> (r: Course)
    ensures
        r.deep_view() == to_pins(
            scan.deep_view(),
            closure.root_ids@,
            closure.included_ids@,
            setting.deep_view(),
        ),
{
    let relation_complete = scan.relation_complete;
    let explicit = explicit_pin_states(&scan.raw, &closure.included_ids);
    let files: TextMap<FileState> = TextMap::new();
    let draft = draft_nodes(scan, setting.capable, &closure, None, &setting.home, &files);
    let listings: Vec<PinListing> = Vec::new();
    assert(listings.deep_view() =~= Seq::empty());
    Course::Pins { draft, relation_complete, ids: closure.included_ids, explicit, listings }
}

fn enter_trees(
    scan: Scan,
    threads: Option<TextMap<CatalogThread>>,
    setting: &ScanSetting,
) -> (r: Course)
    ensures
        r.deep_view() == to_trees(scan.deep_view(), threads.deep_view(), setting.deep_view()),
{
    let mut scan = scan;
    let closure = scan.close();
    match threads {
        Some(threads) => Course::Files { scan, closure, threads },
        None => {
            let found = closure.root_ids.items();
            assert(found.deep_view().len() == found@.len());
            if found.len() == 0 {
                enter_pins(scan, closure, setting)
            } else {
                let root = found[0].clone();
                assert(found.deep_view()[0] == root@);
                let listings: Vec<Result<Vec<String>, VaultError>> = Vec::new();
                assert(listings_view(listings@) =~= Seq::empty());
                Course::Below { scan, closure, root, listings }
            }
        },
    }
}

fn enter_parents(
    scan: Scan,
    threads: Option<TextMap<CatalogThread>>,
    left: Vec<Vec<String>>,
    setting: &ScanSetting,
) -> (r: Course)
    ensures
        r.deep_view() == to_parents(
            scan.deep_view(),
            threads.deep_view(),
            left.deep_view(),
            setting.deep_view(),
        ),
{
    assert(left.deep_view().len() == left@.len());
    if left.len() == 0 {
        enter_trees(scan, threads, setting)
    } else {
        Course::Parents { scan, threads, left }
    }
}

fn enter_missing(
    scan: Scan,
    threads: TextMap<CatalogThread>,
    left: Vec<Vec<String>>,
    setting: &ScanSetting,
) -> (r: Course)
    ensures
        r.deep_view() == to_missing(
            scan.deep_view(),
            threads@,
            left.deep_view(),
            setting.deep_view(),
        ),
{
    assert(left.deep_view().len() == left@.len());
    if left.len() == 0 {
        let orphans = split(&scan.unparented());
        enter_parents(scan, Some(threads), orphans, setting)
    } else {
        Course::Missing { scan, threads, left }
    }
}

/// The rollout files of a catalog.
pub fn rollouts(threads: &TextMap<CatalogThread>) -> (r: Vec<String>)
    ensures
        r.deep_view() == rollouts_of(threads@),
{
    let ids = threads.keys();
    let ghost all = ids.deep_view();
    let ghost want = rollouts_of(threads@);
    let mut r: Vec<String> = Vec::new();
    let mut i: usize = 0;
    assert(r.deep_view() =~= want.take(0));
    while i < ids.len()
        invariant
            i <= ids@.len(),
            all == ids.deep_view(),
            all == ordered_texts(threads@.dom()),
            all.to_set() == threads@.dom(),
            want == rollouts_of(threads@),
            r.deep_view() == want.take(i as int),
        decreases ids.len() - i,
    {
        let ghost before = r.deep_view();
        proof {
            assert(all[i as int] == ids@[i as int]@);
            assert(all.to_set().contains(all[i as int]));
        }
        match threads.get(ids[i].as_str()) {
            Some(thread) => {
                r.push(thread.rollout_path.clone());
                assert(r.deep_view() =~= before.push(thread.rollout_path@));
                assert(r.deep_view() =~= want.take(i as int + 1));
            },
            None => {},
        }
        i += 1;
    }
    assert(want.take(i as int) =~= want);
    r
}

impl Course {
    /// The beginning of a scan.
    pub fn start(diagnostics: Vec<String>) -> (r: Self)
        ensures
            r.deep_view() == (CourseView::Listing {
                scan: started(diagnostics.deep_view()),
                archived: false,
            }),
    {
        Course::Listing { scan: Scan::start(diagnostics), archived: false }
    }

    /// What is asked for next.
    pub fn next(&self) -> (r: ScanStep)
        ensures
            r.deep_view() == asked(self.deep_view()),
    {
        match self {
            Course::Listing { archived, .. } => ScanStep::List(*archived),
            Course::Catalog { .. } => ScanStep::Catalog,
            Course::Missing { left, .. } => ScanStep::Read(first_of_batches(left)),
            Course::Parents { left, .. } => ScanStep::Read(first_of_batches(left)),
            Course::Below { root, listings, .. } => ScanStep::Below(
                root.clone(),
                listings.len() > 0,
            ),
            Course::Files { threads, .. } => ScanStep::Files(rollouts(threads)),
            Course::Pins { listings, .. } => ScanStep::Pinned(
                listings.len() % 2 == 0,
                listings.len() > 1,
            ),
            Course::PinTable { ids, .. } => ScanStep::Pins(ids.clone()),
            Course::Deletes { .. } => ScanStep::Deletes,
            Course::Done(_) => ScanStep::Nothing,
            Course::Failed(_) => ScanStep::Nothing,
        }
    }

    /// Takes an answer.
    pub fn take(self, event: ScanEvent, setting: &ScanSetting) -> (r: Self)
        ensures
            r.deep_view() == after(self.deep_view(), event.deep_view(), setting.deep_view()),
    {
        match (self, event) {
            (Course::Listing { scan, archived }, ScanEvent::Listed(answer)) => match answer {
                Err(error) => Course::Failed(error),
                Ok(threads) => {
                    let mut scan = scan;
                    scan.add_listing(&threads, archived);
                    if archived {
                        Course::Catalog { scan }
                    } else {
                        Course::Listing { scan, archived: true }
                    }
                },
            },
            (Course::Catalog { scan }, ScanEvent::Catalog(read)) => match read {
                Err(problem) => {
                    let mut scan = scan;
                    scan.without_catalog(problem.as_str());
                    let orphans = split(&scan.unparented());
                    enter_parents(scan, None, orphans, setting)
                },
                Ok((catalog, found)) => {
                    let (scan, missing) = scan.add_catalog(&catalog, &found);
                    let left = split(&missing);
                    enter_missing(scan, catalog.threads, left, setting)
                },
            },
            (Course::Missing { scan, threads, left }, ScanEvent::Read(answer)) => match answer {
                Err(error) => Course::Failed(error),
                Ok(reads) => {
                    let mut scan = scan;
                    let mut left = left;
                    let ids = take_first(&mut left);
                    scan.add_missing(&threads, &ids, &reads);
                    enter_missing(scan, threads, left, setting)
                },
            },
            (Course::Parents { scan, threads, left }, ScanEvent::Read(answer)) => {
                let mut scan = scan;
                let mut left = left;
                let ids = take_first(&mut left);
                match answer {
                    Err(error) => {
                        assert(ids.deep_view().len() == ids@.len());
                        scan.parents_failed(ids.len(), &error);
                        enter_trees(scan, threads, setting)
                    },
                    Ok(reads) => {
                        scan.add_parents(&ids, &reads);
                        enter_parents(scan, threads, left, setting)
                    },
                }
            },
            (Course::Below { scan, closure, root, listings }, ScanEvent::Below(answer)) => {
                let mut scan = scan;
                let mut listings = listings;
                let ghost before = listings_view(listings@);
                let ghost last = result_view(answer);
                listings.push(answer);
                assert(listings_view(listings@) =~= before.push(last));
                if listings.len() < 2 {
                    Course::Below { scan, closure, root, listings }
                } else {
                    scan.check_probe(root.as_str(), &listings);
                    enter_pins(scan, closure, setting)
                }
            },
            (Course::Files { scan, closure, threads }, ScanEvent::Files(files)) => {
                let relation_complete = scan.relation_complete;
                let mut draft = draft_nodes(
                    scan,
                    setting.capable,
                    &closure,
                    Some(&threads),
                    &setting.home,
                    &files,
                );
                draft.pin_by_catalog(&threads);
                Course::Deletes { draft, relation_complete, catalogued: true }
            },
            (
                Course::Pins { draft, relation_complete, ids, explicit, listings },
                ScanEvent::Pinned(answer, usable),
            ) => {
                let mut draft = draft;
                let mut listings = listings;
                let ghost before = listings.deep_view();
                assert(before.len() == listings@.len());
                let pinned: bool = listings.len() % 2 == 0;
                let one = PinListing { pinned, listing: answer };
                let ghost last = one.deep_view();
                listings.push(one);
                assert(listings.deep_view() =~= before.push(last));
                if listings.len() < 4 {
                    Course::Pins { draft, relation_complete, ids, explicit, listings }
                } else {
                    match resolve_listed_pins(usable, &ids, &explicit, &listings) {
                        Err(error) => Course::Failed(error),
                        Ok(PinStep::Proven(pins)) => {
                            let notes: Vec<String> = Vec::new();
                            assert(notes.deep_view() =~= Seq::empty());
                            draft.settle_pins(&Ok(pins), &notes);
                            Course::Deletes { draft, relation_complete, catalogued: false }
                        },
                        Ok(PinStep::Elsewhere(notes)) => Course::PinTable {
                            draft,
                            relation_complete,
                            ids,
                            explicit,
                            notes,
                        },
                    }
                }
            },
            (
                Course::PinTable { draft, relation_complete, ids, explicit, notes },
                ScanEvent::Pins(read),
            ) => {
                let mut draft = draft;
                let pins = accept_read_pins(read, &explicit);
                draft.settle_pins(&pins, &notes);
                Course::Deletes { draft, relation_complete, catalogued: false }
            },
            (
                Course::Deletes { draft, relation_complete, catalogued },
                ScanEvent::Deletes(pending),
            ) => {
                let mut draft = draft;
                let rollout_paths = if catalogued {
                    Some(copy_paths(&draft.rollout_paths))
                } else {
                    None
                };
                let gone = draft.settle_deletes(&pending);
                let snapshot = draft.finish(relation_complete);
                Course::Done(ScanOutcome { snapshot, rollout_paths, gone })
            },
            (course, _) => course,
        }
    }

    /// What the scan came to, where it is over.
    pub fn finish(self) -> (r: Option<Result<ScanOutcome, VaultError>>)
        ensures
            match self.deep_view() {
                CourseView::Done(outcome) => r matches Some(Ok(found)) && found.deep_view()
                    == outcome,
                CourseView::Failed(error) => r matches Some(Err(found)) && found.deep_view()
                    == error,
                _ => r is None,
            },
    {
        match self {
            Course::Done(outcome) => Some(Ok(outcome)),
            Course::Failed(error) => Some(Err(error)),
            _ => None,
        }
    }
}

fn first_of_batches(left: &Vec<Vec<String>>) -> (r: Vec<String>)
    ensures
        r.deep_view() == first_batch(left.deep_view()),
{
    assert(left.deep_view().len() == left@.len());
    if left.len() == 0 {
        let none: Vec<String> = Vec::new();
        assert(none.deep_view() =~= Seq::empty());
        none
    } else {
        copy_texts(&left[0])
    }
}

fn copy_paths(paths: &TextMap<String>) -> (r: TextMap<String>)
    ensures
        r@ == paths@,
{
    let ids = paths.keys();
    let ghost all = ids.deep_view();
    let mut r: TextMap<String> = TextMap::new();
    let mut i: usize = 0;
    while i < ids.len()
        invariant
            i <= ids@.len(),
            all == ids.deep_view(),
            all.to_set() == paths@.dom(),
            forall|id: Seq<char>| #[trigger]
                r@.contains_key(id) ==> paths@.contains_key(id) && r@[id] == paths@[id],
            forall|k: int| 0 <= k < i ==> r@.contains_key(#[trigger] all[k]),
        decreases ids.len() - i,
    {
        proof {
            assert(all[i as int] == ids@[i as int]@);
            assert(all.to_set().contains(all[i as int]));
        }
        match paths.get(ids[i].as_str()) {
            Some(path) => {
                r.insert(ids[i].clone(), path.clone());
            },
            None => {},
        }
        i += 1;
    }
    proof {
        assert forall|id: Seq<char>| paths@.contains_key(id) implies r@.contains_key(id) by {
            assert(all.to_set().contains(id));
            let k = all.index_of(id);
            assert(all[k] == id);
        }
        assert(r@ =~= paths@);
    }
    r
}

/// Where rollout files lie: those of sessions that a scan showed, and those of
/// deletions that no scan has confirmed.
pub struct Traces {
    pub known: TextMap<String>,
    pub pending: TextMap<String>,
}

#[verifier::ext_equal]
pub struct TracesView {
    pub known: Map<Seq<char>, Seq<char>>,
    pub pending: Map<Seq<char>, Seq<char>>,
}

impl DeepView for Traces {
    type V = TracesView;

    open spec fn deep_view(&self) -> TracesView {
        TracesView { known: self.known@, pending: self.pending@ }
    }
}

/// The traces after a session was deleted.
pub open spec fn after_delete(traces: TracesView, id: Seq<char>) -> TracesView {
    if traces.known.contains_key(id) {
        TracesView { pending: traces.pending.insert(id, traces.known[id]), ..traces }
    } else {
        traces
    }
}

/// The traces after a scan. A scan with a catalog knows all rollout files anew;
/// of deletions that are complete nothing is kept.
pub open spec fn after_outcome(traces: TracesView, outcome: ScanOutcomeView) -> TracesView {
    let gone = outcome.gone.to_set();
    TracesView {
        known: match outcome.rollout_paths {
            Some(paths) => paths,
            None => traces.known,
        }.remove_keys(gone),
        pending: traces.pending.remove_keys(gone),
    }
}

fn forget(paths: &mut TextMap<String>, ids: &Vec<String>)
    ensures
        final(paths)@ == old(paths)@.remove_keys(ids.deep_view().to_set()),
{
    let ghost start = paths@;
    let ghost all = ids.deep_view();
    let mut i: usize = 0;
    assert(paths@ =~= start.remove_keys(all.take(0).to_set()));
    while i < ids.len()
        invariant
            i <= ids@.len(),
            all == ids.deep_view(),
            paths@ == start.remove_keys(all.take(i as int).to_set()),
        decreases ids.len() - i,
    {
        let ghost before = all.take(i as int);
        let ghost now = all.take(i as int + 1);
        paths.remove(ids[i].as_str());
        proof {
            assert(now =~= before.push(ids@[i as int]@));
            assert forall|id: Seq<char>| now.to_set().contains(id) <==> before.to_set().contains(id)
                || id == ids@[i as int]@ by {
                if before.contains(id) {
                    assert(now[before.index_of(id)] == id);
                }
                assert(now[i as int] == ids@[i as int]@);
            }
            assert(paths@ =~= start.remove_keys(now.to_set()));
        }
        i += 1;
    }
    assert(all.take(i as int) =~= all);
}

impl Traces {
    /// No traces.
    pub fn new() -> (r: Self)
        ensures
            r.deep_view() == (TracesView { known: Map::empty(), pending: Map::empty() }),
    {
        Traces { known: TextMap::new(), pending: TextMap::new() }
    }

    /// A session was deleted: its rollout file must be seen to be gone.
    pub fn deleted(&mut self, id: &str)
        ensures
            final(self).deep_view() == after_delete(old(self).deep_view(), id@),
    {
        let path = match self.known.get(id) {
            Some(path) => Some(path.clone()),
            None => None,
        };
        match path {
            Some(path) => {
                self.pending.insert(id.to_owned(), path);
            },
            None => {},
        }
    }

    /// Takes what a scan came to. Gives its snapshot.
    pub fn scanned(&mut self, outcome: ScanOutcome) -> (r: ScanSnapshot)
        ensures
            final(self).deep_view() == after_outcome(old(self).deep_view(), outcome.deep_view()),
            r.deep_view() == outcome.deep_view().snapshot,
    {
        match outcome.rollout_paths {
            Some(paths) => {
                self.known = paths;
            },
            None => {},
        }
        forget(&mut self.known, &outcome.gone);
        forget(&mut self.pending, &outcome.gone);
        outcome.snapshot
    }
}

/// How far a scan is after some answers.
pub open spec fn ran(
    diagnostics: Seq<Seq<char>>,
    setting: ScanSettingView,
    events: Seq<ScanEventView>,
) -> CourseView
    decreases events.len(),
{
    if events.len() == 0 {
        CourseView::Listing { scan: started(diagnostics), archived: false }
    } else {
        after(ran(diagnostics, setting, events.drop_last()), events.last(), setting)
    }
}

spec fn guarded(course: CourseView, setting: ScanSettingView) -> bool {
    match course {
        CourseView::Pins { draft, relation_complete, .. } => draft.write_capable
            ==> setting.capable && relation_complete,
        CourseView::PinTable { draft, relation_complete, .. } => draft.write_capable
            ==> setting.capable && relation_complete,
        CourseView::Deletes { draft, relation_complete, .. } => draft.write_capable
            ==> setting.capable && relation_complete,
        CourseView::Done(outcome) => outcome.snapshot.write_capable ==> setting.capable
            && outcome.snapshot.relation_complete,
        _ => true,
    }
}

proof fn lemma_guarded_draft(
    scan: ScanView,
    setting: ScanSettingView,
    root_ids: Set<Seq<char>>,
    threads: Map<Seq<char>, CatalogThreadView>,
    files: Map<Seq<char>, FileStateView>,
    ids: Seq<Seq<char>>,
)
    ensures
        drafted(scan, setting.capable, root_ids, threads, setting.home, files, ids).write_capable
            ==> setting.capable && scan.relation_complete,
{
    law_draft_writes_only_when_complete(
        scan,
        setting.capable,
        root_ids,
        threads,
        setting.home,
        files,
        ids,
    );
}

/// A scan whose snapshot allows writing found every relation complete, and ran
/// where the server and the command line can do what is needed, whatever was
/// answered.
pub proof fn law_scan_fails_closed(
    diagnostics: Seq<Seq<char>>,
    setting: ScanSettingView,
    events: Seq<ScanEventView>,
)
    ensures
        ran(diagnostics, setting, events) matches CourseView::Done(outcome)
            ==> outcome.snapshot.write_capable ==> setting.capable
            && outcome.snapshot.relation_complete,
{
    lemma_guarded(diagnostics, setting, events);
}

proof fn lemma_guarded(
    diagnostics: Seq<Seq<char>>,
    setting: ScanSettingView,
    events: Seq<ScanEventView>,
)
    ensures
        guarded(ran(diagnostics, setting, events), setting),
    decreases events.len(),
{
    if events.len() > 0 {
        lemma_guarded(diagnostics, setting, events.drop_last());
        let before = ran(diagnostics, setting, events.drop_last());
        let none = Map::<Seq<char>, CatalogThreadView>::empty();
        let nothing = Map::<Seq<char>, FileStateView>::empty();
        assert forall|scan: ScanView, root_ids: Set<Seq<char>>, ids: Set<Seq<char>>| guarded(
            #[trigger] to_pins(scan, root_ids, ids, setting),
            setting,
        ) by {
            lemma_guarded_draft(scan, setting, root_ids, none, nothing, ordered_texts(ids));
        }
        match (before, events.last()) {
            (
                CourseView::Files { scan, root_ids, included_ids, threads },
                ScanEventView::Files(files),
            ) => {
                lemma_guarded_draft(
                    scan,
                    setting,
                    root_ids,
                    threads,
                    files,
                    ordered_texts(included_ids),
                );
            },
            (CourseView::Deletes { draft, .. }, ScanEventView::Deletes(pending)) => {
                lemma_deletes_keep_capability(draft, pending);
            },
            _ => {},
        }
    }
}

/// The catalog holds exactly the threads of the scan, but for those that are
/// still to be read.
spec fn held(course: CourseView) -> bool {
    match course {
        CourseView::Missing { scan, threads, left } => held_or_waiting(scan.raw, threads, left),
        CourseView::Parents { scan, threads, .. } => threads matches Some(threads)
            ==> scan.raw.dom() == threads.dom(),
        CourseView::Files { scan, threads, .. } => scan.raw.dom() == threads.dom(),
        _ => true,
    }
}

spec fn held_or_waiting(
    raw: Map<Seq<char>, ListedView>,
    threads: Map<Seq<char>, CatalogThreadView>,
    left: Seq<Seq<Seq<char>>>,
) -> bool {
    &&& forall|id: Seq<char>| #[trigger] raw.contains_key(id) ==> threads.contains_key(id)
    &&& forall|id: Seq<char>| #[trigger]
        threads.contains_key(id) ==> raw.contains_key(id) || waits(left, id)
}

spec fn waits(left: Seq<Seq<Seq<char>>>, id: Seq<char>) -> bool {
    exists|k: int| 0 <= k < left.len() && (#[trigger] left[k]).contains(id)
}

proof fn lemma_batched(ids: Seq<Seq<char>>, id: Seq<char>)
    requires
        ids.contains(id),
    ensures
        waits(batches_of(ids), id),
{
    let i = ids.index_of(id);
    let k = i / THREAD_READ_BATCH_SIZE as int;
    let all = batches_of(ids);
    assert(0 <= k < all.len());
    assert(all[k] == batch(ids, k));
    assert(batch(ids, k)[i - THREAD_READ_BATCH_SIZE * k] == id);
}

proof fn lemma_all_held(
    scan: ScanView,
    threads: Map<Seq<char>, CatalogThreadView>,
    left: Seq<Seq<Seq<char>>>,
    setting: ScanSettingView,
)
    requires
        held_or_waiting(scan.raw, threads, left),
    ensures
        held(to_missing(scan, threads, left, setting)),
{
    if left.len() == 0 {
        assert forall|id: Seq<char>| scan.raw.dom().contains(id) <==> threads.dom().contains(id) by {
            assert(scan.raw.contains_key(id) ==> threads.contains_key(id));
            assert(threads.contains_key(id) ==> scan.raw.contains_key(id) || waits(left, id));
        }
        assert(scan.raw.dom() =~= threads.dom());
        let orphans = batches_of(without_parent(scan.raw));
        assert(held(to_parents(scan, Some(threads), orphans, setting)));
    }
}

proof fn lemma_catalog_held(
    scan: ScanView,
    catalog: CatalogSnapshotView,
    found: Result<(nat, nat, Seq<MaintenanceCandidateView>), Seq<char>>,
    setting: ScanSettingView,
)
    requires
        catalog.threads.dom().finite(),
    ensures
        held(
            to_missing(
                catalogued(scan, catalog, found),
                catalog.threads,
                batches_of(catalog_only_ids(scan.raw, catalog.threads)),
                setting,
            ),
        ),
{
    let threads = catalog.threads;
    let missing = catalog_only_ids(scan.raw, threads);
    let next = catalogued(scan, catalog, found);
    lemma_ordered_members(threads.dom());
    assert forall|id: Seq<char>| #[trigger] threads.contains_key(id) implies
        next.raw.contains_key(id) || waits(batches_of(missing), id) by {
        if !scan.raw.contains_key(id) {
            let all = ordered_texts(threads.dom());
            assert(all.to_set().contains(id));
            lemma_filter_member(all, |id: Seq<char>| !scan.raw.contains_key(id), id);
            lemma_batched(missing, id);
        }
    }
    lemma_all_held(next, threads, batches_of(missing), setting);
}

proof fn lemma_reads_held(
    scan: ScanView,
    threads: Map<Seq<char>, CatalogThreadView>,
    left: Seq<Seq<Seq<char>>>,
    reads: Map<Seq<char>, ReadView>,
    setting: ScanSettingView,
)
    requires
        held_or_waiting(scan.raw, threads, left),
    ensures
        held(
            to_missing(
                filled(scan, threads, reads, first_batch(left)),
                threads,
                later_batches(left),
                setting,
            ),
        ),
{
    let first = first_batch(left);
    let later = later_batches(left);
    let next = filled(scan, threads, reads, first);
    assert forall|id: Seq<char>| #[trigger] next.raw.contains_key(id) implies
        threads.contains_key(id) by {
        lemma_filled_threads(scan, threads, reads, first, id);
    }
    assert forall|id: Seq<char>| #[trigger] threads.contains_key(id) implies
        next.raw.contains_key(id) || waits(later, id) by {
        lemma_filled_threads(scan, threads, reads, first, id);
        if !scan.raw.contains_key(id) && !first.contains(id) {
            let k = choose|k: int| 0 <= k < left.len() && (#[trigger] left[k]).contains(id);
            assert(later[k - 1] == left[k]);
        }
    }
    lemma_all_held(next, threads, later, setting);
}

/// The catalog decides which threads there are. Where a scan with a catalog has
/// come to its trees, it holds each task of the catalog, whatever the server
/// answered, and nothing else.
pub proof fn law_catalog_decides(
    diagnostics: Seq<Seq<char>>,
    setting: ScanSettingView,
    events: Seq<ScanEventView>,
)
    requires
        forall|i: int|
            0 <= i < events.len() ==> (#[trigger] events[i] matches ScanEventView::Catalog(
                Ok((catalog, _)),
            ) ==> catalog.threads.dom().finite()),
    ensures
        ran(diagnostics, setting, events) matches CourseView::Files { scan, threads, .. }
            ==> scan.raw.dom() == threads.dom(),
{
    lemma_held(diagnostics, setting, events);
}

proof fn lemma_held(
    diagnostics: Seq<Seq<char>>,
    setting: ScanSettingView,
    events: Seq<ScanEventView>,
)
    requires
        forall|i: int|
            0 <= i < events.len() ==> (#[trigger] events[i] matches ScanEventView::Catalog(
                Ok((catalog, _)),
            ) ==> catalog.threads.dom().finite()),
    ensures
        held(ran(diagnostics, setting, events)),
    decreases events.len(),
{
    if events.len() > 0 {
        let sooner = events.drop_last();
        assert forall|i: int| 0 <= i < sooner.len() implies (
        #[trigger] sooner[i] matches ScanEventView::Catalog(Ok((catalog, _)))
            ==> catalog.threads.dom().finite()) by {
            assert(sooner[i] == events[i]);
        }
        lemma_held(diagnostics, setting, sooner);
        assert(events[events.len() - 1] == events.last());
        lemma_held_on(ran(diagnostics, setting, sooner), events.last(), setting);
    }
}

proof fn lemma_held_on(course: CourseView, event: ScanEventView, setting: ScanSettingView)
    requires
        held(course),
        event matches ScanEventView::Catalog(Ok((catalog, _))) ==> catalog.threads.dom().finite(),
    ensures
        held(after(course, event, setting)),
{
    match (course, event) {
        (CourseView::Catalog { scan }, ScanEventView::Catalog(Ok((catalog, found)))) => {
            lemma_catalog_held(scan, catalog, found, setting);
        },
        (CourseView::Missing { scan, threads, left }, ScanEventView::Read(Ok(reads))) => {
            lemma_reads_held(scan, threads, left, reads, setting);
        },
        (CourseView::Parents { scan, left, .. }, ScanEventView::Read(Ok(reads))) => {
            law_parents_keep_threads(scan, reads, first_batch(left));
        },
        _ => {},
    }
}

/// An event answers what was asked for.
pub open spec fn answers(step: ScanStepView, event: ScanEventView) -> bool {
    match step {
        ScanStepView::List(_) => event is Listed,
        ScanStepView::Catalog => event is Catalog,
        ScanStepView::Read(_) => event is Read,
        ScanStepView::Below(_, _) => event is Below,
        ScanStepView::Files(_) => event is Files,
        ScanStepView::Pinned(_, _) => event is Pinned,
        ScanStepView::Pins(_) => event is Pins,
        ScanStepView::Deletes => event is Deletes,
        ScanStepView::Nothing => false,
    }
}

/// How many kinds of questions may still come.
pub open spec fn stages_left(course: CourseView) -> int {
    match course {
        CourseView::Listing { archived, .. } => if archived {
            9
        } else {
            10
        },
        CourseView::Catalog { .. } => 8,
        CourseView::Missing { .. } => 7,
        CourseView::Parents { .. } => 6,
        CourseView::Below { .. } => 5,
        CourseView::Files { .. } => 4,
        CourseView::Pins { .. } => 3,
        CourseView::PinTable { .. } => 2,
        CourseView::Deletes { .. } => 1,
        CourseView::Done(_) => 0,
        CourseView::Failed(_) => 0,
    }
}

/// How many questions of the present kind may still come.
pub open spec fn questions_left(course: CourseView) -> int {
    match course {
        CourseView::Missing { left, .. } => left.len() as int,
        CourseView::Parents { left, .. } => left.len() as int,
        CourseView::Below { listings, .. } => 2 - listings.len(),
        CourseView::Pins { listings, .. } => 4 - listings.len(),
        _ => 0,
    }
}

/// A scan comes to an end: each answer to what was asked for leaves fewer kinds
/// of questions, or fewer questions of the same kind.
pub proof fn law_every_answer_leads_on(
    course: CourseView,
    event: ScanEventView,
    setting: ScanSettingView,
)
    requires
        answers(asked(course), event),
    ensures
        ({
            let next = after(course, event, setting);
            stages_left(next) < stages_left(course) || (stages_left(next) == stages_left(course)
                && 0 <= questions_left(next) < questions_left(course))
        }),
        asked(course) !is Nothing,
{
}

} // verus!
