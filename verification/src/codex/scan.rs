//! A scan: the listings of the server, put together with the catalog.
//!
//! The work with the server stands between these steps: each takes what the
//! server answered and says what the scan knows after it.

use crate::codex::catalog::{
    catalog_only, with_catalog, CatalogSnapshot, CatalogSnapshotView, CatalogThread,
    CatalogThreadView,
};
use crate::codex::maintenance::MaintenanceDiscovery;
use crate::codex::thread::{parent_of, parse_source, source_of, ThreadDto, ThreadView};
use crate::domain::{
    error_message, MaintenanceCandidate, MaintenanceCandidateView, MaintenanceKind, SessionSource,
    SessionSourceView, VaultError, VaultErrorView,
};
use crate::ordered::{ordered_texts, TextMap};
use crate::text::{decimal, decimal_text, same};
use vstd::prelude::*;
use vstd::string::*;

verus! {

broadcast use vstd::group_vstd_default;

/// How many threads are read at once.
pub const THREAD_READ_BATCH_SIZE: usize = 64;

/// A thread, and whether it is archived.
#[derive(Debug, PartialEq, Eq)]
pub struct Listed {
    pub dto: ThreadDto,
    pub archived: bool,
}

#[verifier::ext_equal]
pub struct ListedView {
    pub dto: ThreadView,
    pub archived: bool,
}

impl DeepView for Listed {
    type V = ListedView;

    open spec fn deep_view(&self) -> ListedView {
        ListedView { dto: self.dto.deep_view(), archived: self.archived }
    }
}

/// What a scan knows so far.
pub struct Scan {
    /// The threads by their ids.
    pub raw: TextMap<Listed>,
    pub diagnostics: Vec<String>,
    pub relation_complete: bool,
    pub storage_complete: bool,
}

#[verifier::ext_equal]
pub struct ScanView {
    pub raw: Map<Seq<char>, ListedView>,
    pub diagnostics: Seq<Seq<char>>,
    pub relation_complete: bool,
    pub storage_complete: bool,
}

impl DeepView for Scan {
    type V = ScanView;

    open spec fn deep_view(&self) -> ScanView {
        ScanView {
            raw: self.raw@,
            diagnostics: self.diagnostics.deep_view(),
            relation_complete: self.relation_complete,
            storage_complete: self.storage_complete,
        }
    }
}

/// A scan before the first listing.
pub open spec fn started(diagnostics: Seq<Seq<char>>) -> ScanView {
    ScanView {
        raw: Map::empty(),
        diagnostics,
        relation_complete: true,
        storage_complete: true,
    }
}

/// The scan with a diagnostic.
pub open spec fn noting(scan: ScanView, note: Seq<char>) -> ScanView {
    ScanView { diagnostics: scan.diagnostics.push(note), ..scan }
}

/// The scan with a diagnostic that leaves its relations open.
pub open spec fn doubting(scan: ScanView, note: Seq<char>) -> ScanView {
    ScanView { relation_complete: false, ..noting(scan, note) }
}

/// The scan with listed threads. A later listing of an id takes the place of an
/// earlier one.
pub open spec fn with_listed(scan: ScanView, listed: Seq<ListedView>) -> ScanView
    decreases listed.len(),
{
    if listed.len() == 0 {
        scan
    } else {
        let before = with_listed(scan, listed.drop_last());
        let id = listed.last().dto.id;
        let after = ScanView { raw: before.raw.insert(id, listed.last()), ..before };
        if before.raw.contains_key(id) {
            doubting(after, "thread "@ + id + " appeared in active and archived listings"@)
        } else {
            after
        }
    }
}

/// A listing of threads.
pub open spec fn as_listed(threads: Seq<ThreadView>, archived: bool) -> Seq<ListedView> {
    threads.map_values(|dto: ThreadView| ListedView { dto, archived })
}

impl Scan {
    /// A scan before the first listing.
    pub fn start(diagnostics: Vec<String>) -> (r: Self)
        ensures
            r.deep_view() == started(diagnostics.deep_view()),
    {
        Scan {
            raw: TextMap::new(),
            diagnostics,
            relation_complete: true,
            storage_complete: true,
        }
    }

    /// Adds a diagnostic.
    pub fn note(&mut self, note: String)
        ensures
            final(self).deep_view() == noting(old(self).deep_view(), note@),
    {
        let ghost before = self.diagnostics.deep_view();
        self.diagnostics.push(note);
        assert(self.diagnostics.deep_view() =~= before.push(note@));
    }

    /// Adds a diagnostic that leaves the relations open.
    pub fn doubt(&mut self, note: String)
        ensures
            final(self).deep_view() == doubting(old(self).deep_view(), note@),
    {
        self.note(note);
        self.relation_complete = false;
    }

    /// Takes a listing in.
    pub fn add_listing(&mut self, threads: &Vec<ThreadDto>, archived: bool)
        ensures
            final(self).deep_view() == with_listed(
                old(self).deep_view(),
                as_listed(threads.deep_view(), archived),
            ),
    {
        let ghost start = self.deep_view();
        let ghost all = as_listed(threads.deep_view(), archived);
        let mut i: usize = 0;
        assert(all.take(0) =~= Seq::empty());
        while i < threads.len()
            invariant
                i <= threads@.len(),
                all == as_listed(threads.deep_view(), archived),
                self.deep_view() == with_listed(start, all.take(i as int)),
            decreases threads.len() - i,
        {
            proof {
                assert(all.take(i as int + 1).drop_last() =~= all.take(i as int));
                assert(all.take(i as int + 1).last() == all[i as int]);
                assert(threads.deep_view()[i as int] == threads@[i as int].deep_view());
            }
            let dto = threads[i].clone();
            let id = dto.id.clone();
            let note = "thread ".to_owned().concat(id.as_str()).concat(
                " appeared in active and archived listings",
            );
            let replaced = self.raw.insert(id, Listed { dto, archived });
            if replaced.is_some() {
                self.doubt(note);
            }
            i += 1;
        }
        assert(all.take(i as int) =~= all);
    }
}

/// What the leftovers that were found say.
pub open spec fn discovery_notes(
    found: Result<(nat, nat, Seq<MaintenanceCandidateView>), Seq<char>>,
) -> Seq<Seq<char>> {
    match found {
        Ok((active, archived, candidates)) => {
            let orphaned = unreferenced_among(candidates).len();
            if orphaned > 0 {
                seq![
                    "recursive rollout scan found "@ + decimal(active as int) + " active and "@
                        + decimal(archived as int) + " archived JSONL files; "@ + decimal(
                        orphaned as int,
                    ) + " are not referenced by the task catalog"@,
                ]
            } else {
                Seq::empty()
            }
        },
        Err(problem) => seq!["rollout root scan is incomplete: "@ + problem],
    }
}

/// The rollout files that no thread references, among the candidates.
pub open spec fn unreferenced_among(candidates: Seq<MaintenanceCandidateView>) -> Seq<
    MaintenanceCandidateView,
> {
    candidates.filter(
        |c: MaintenanceCandidateView| c.kind == MaintenanceKind::UnreferencedRollout,
    )
}

/// What was found, as values.
pub open spec fn discovery_view(found: Result<MaintenanceDiscovery, String>) -> Result<
    (nat, nat, Seq<MaintenanceCandidateView>),
    Seq<char>,
> {
    match found {
        Ok(found) => Ok(
            (
                found.active_rollouts as nat,
                found.archived_rollouts as nat,
                found.candidates.deep_view(),
            ),
        ),
        Err(problem) => Err(problem@),
    }
}

/// The threads that the catalog does not hold.
pub open spec fn server_only(
    raw: Map<Seq<char>, ListedView>,
    threads: Map<Seq<char>, CatalogThreadView>,
) -> Seq<Seq<char>> {
    ordered_texts(raw.dom()).filter(|id: Seq<char>| !threads.contains_key(id))
}

/// The threads that the server did not list.
pub open spec fn catalog_only_ids(
    raw: Map<Seq<char>, ListedView>,
    threads: Map<Seq<char>, CatalogThreadView>,
) -> Seq<Seq<char>> {
    ordered_texts(threads.dom()).filter(|id: Seq<char>| !raw.contains_key(id))
}

/// The listed threads that the catalog holds, with what it knows of them.
pub open spec fn known_to_catalog(
    raw: Map<Seq<char>, ListedView>,
    threads: Map<Seq<char>, CatalogThreadView>,
) -> Map<Seq<char>, ListedView> {
    Map::new(
        |id: Seq<char>| raw.contains_key(id) && threads.contains_key(id),
        |id: Seq<char>|
            ListedView {
                dto: with_catalog(raw[id].dto, threads[id]),
                archived: threads[id].archived,
            },
    )
}

/// What the catalog itself says.
pub open spec fn catalog_notes(
    raw: Map<Seq<char>, ListedView>,
    catalog: CatalogSnapshotView,
) -> Seq<Seq<char>> {
    let stale = if catalog.ignored_orphan_edges > 0 {
        seq![
            "ignored "@ + decimal(catalog.ignored_orphan_edges as int)
                + " stale spawn edges whose child is absent from the task catalog"@,
        ]
    } else {
        Seq::empty()
    };
    let unresolved = if catalog.unresolved_child_edges > 0 {
        seq![
            decimal(catalog.unresolved_child_edges as int)
                + " catalog tasks reference missing parent rows"@,
        ]
    } else {
        Seq::empty()
    };
    let extra = server_only(raw, catalog.threads).len();
    let ignored = if extra > 0 {
        seq![
            "ignored "@ + decimal(extra as int)
                + " app-server rows absent from the authoritative task catalog"@,
        ]
    } else {
        Seq::empty()
    };
    stale + unresolved + ignored
}

/// The scan with the catalog, which decides which threads there are.
pub open spec fn catalogued(
    scan: ScanView,
    catalog: CatalogSnapshotView,
    found: Result<(nat, nat, Seq<MaintenanceCandidateView>), Seq<char>>,
) -> ScanView {
    ScanView {
        raw: known_to_catalog(scan.raw, catalog.threads),
        diagnostics: scan.diagnostics + discovery_notes(found) + catalog_notes(
            scan.raw,
            catalog,
        ),
        relation_complete: scan.relation_complete && catalog.unresolved_child_edges == 0,
        storage_complete: scan.storage_complete && found is Ok,
    }
}

fn count_unreferenced(candidates: &Vec<MaintenanceCandidate>) -> (r: usize)
    ensures
        r == unreferenced_among(candidates.deep_view()).len(),
{
    let ghost all = candidates.deep_view();
    let ghost keep = |c: MaintenanceCandidateView|
        c.kind == MaintenanceKind::UnreferencedRollout;
    let mut n: usize = 0;
    let mut i: usize = 0;
    proof {
        reveal(Seq::filter);
        assert(all.take(0).filter(keep) =~= Seq::empty());
    }
    while i < candidates.len()
        invariant
            i <= candidates@.len(),
            n <= i,
            all == candidates.deep_view(),
            keep == (|c: MaintenanceCandidateView| c.kind == MaintenanceKind::UnreferencedRollout),
            n == all.take(i as int).filter(keep).len(),
        decreases candidates.len() - i,
    {
        proof {
            reveal(Seq::filter);
            assert(all.take(i as int + 1).drop_last() =~= all.take(i as int));
            assert(all.take(i as int + 1).last() == candidates@[i as int].deep_view());
        }
        if candidates[i].kind == MaintenanceKind::UnreferencedRollout {
            n += 1;
        }
        i += 1;
    }
    assert(all.take(i as int) =~= all);
    n
}

/// The ids of the first map that the second does not hold, in string order.
pub fn ids_missing_from<A: DeepView, B: DeepView>(a: &TextMap<A>, b: &TextMap<B>) -> (r: Vec<
    String,
>)
    ensures
        r.deep_view() == ordered_texts(a@.dom()).filter(|id: Seq<char>| !b@.contains_key(id)),
{
    let ids = a.keys();
    let ghost all = ids.deep_view();
    let ghost keep = |id: Seq<char>| !b@.contains_key(id);
    let mut r: Vec<String> = Vec::new();
    let mut i: usize = 0;
    proof {
        reveal(Seq::filter);
        assert(r.deep_view() =~= all.take(0).filter(keep));
    }
    while i < ids.len()
        invariant
            i <= ids@.len(),
            all == ids.deep_view(),
            keep == (|id: Seq<char>| !b@.contains_key(id)),
            r.deep_view() == all.take(i as int).filter(keep),
        decreases ids.len() - i,
    {
        let ghost before = r.deep_view();
        proof {
            reveal(Seq::filter);
            assert(all.take(i as int + 1).drop_last() =~= all.take(i as int));
            assert(all.take(i as int + 1).last() == ids@[i as int]@);
        }
        if b.get(ids[i].as_str()).is_none() {
            r.push(ids[i].clone());
            assert(r.deep_view() =~= before.push(ids@[i as int]@));
        }
        i += 1;
    }
    assert(all.take(i as int) =~= all);
    r
}

fn keep_catalogued(raw: &TextMap<Listed>, threads: &TextMap<CatalogThread>) -> (r: TextMap<Listed>)
    ensures
        r@ == known_to_catalog(raw@, threads@),
{
    let ids = raw.keys();
    let ghost all = ids.deep_view();
    let ghost want = known_to_catalog(raw@, threads@);
    let mut r: TextMap<Listed> = TextMap::new();
    let mut i: usize = 0;
    while i < ids.len()
        invariant
            i <= ids@.len(),
            all == ids.deep_view(),
            all.to_set() == raw@.dom(),
            want == known_to_catalog(raw@, threads@),
            forall|id: Seq<char>| #[trigger]
                r@.contains_key(id) ==> want.contains_key(id) && r@[id] == want[id],
            forall|k: int|
                0 <= k < i && want.contains_key(#[trigger] all[k]) ==> r@.contains_key(all[k]),
        decreases ids.len() - i,
    {
        proof {
            assert(all[i as int] == ids@[i as int]@);
            assert(all.to_set().contains(all[i as int]));
        }
        let id = ids[i].as_str();
        match (raw.get(id), threads.get(id)) {
            (Some(listed), Some(thread)) => {
                let dto = thread.apply_to_dto(listed.dto.clone());
                r.insert(ids[i].clone(), Listed { dto, archived: thread.archived });
            },
            _ => {},
        }
        i += 1;
    }
    proof {
        assert forall|id: Seq<char>| want.contains_key(id) implies r@.contains_key(id) by {
            assert(all.to_set().contains(id));
            let k = all.index_of(id);
            assert(all[k] == id);
        }
        assert(r@ =~= want);
    }
    r
}

impl Scan {
    /// Takes the catalog in, and what leftovers were found by it. Gives the ids
    /// that the catalog holds and the server did not list.
    pub fn add_catalog(
        self,
        catalog: &CatalogSnapshot,
        found: &Result<MaintenanceDiscovery, String>,
    ) -> (r: (Self, Vec<String>))
        ensures
            r.0.deep_view() == catalogued(
                self.deep_view(),
                catalog.deep_view(),
                discovery_view(*found),
            ),
            r.1.deep_view() == catalog_only_ids(self.deep_view().raw, catalog.threads@),
    {
        let ghost begun = self.deep_view();
        let ghost start = self.diagnostics.deep_view();
        let extra = ids_missing_from(&self.raw, &catalog.threads);
        let missing = ids_missing_from(&catalog.threads, &self.raw);
        let raw = keep_catalogued(&self.raw, &catalog.threads);
        let mut scan = Scan { raw, ..self };
        match found {
            Ok(found) => {
                let orphaned: usize = count_unreferenced(&found.candidates);
                if orphaned > 0 {
                    scan.note(
                        "recursive rollout scan found ".to_owned().concat(
                            decimal_text(found.active_rollouts as u64).as_str(),
                        ).concat(" active and ").concat(
                            decimal_text(found.archived_rollouts as u64).as_str(),
                        ).concat(" archived JSONL files; ").concat(
                            decimal_text(orphaned as u64).as_str(),
                        ).concat(" are not referenced by the task catalog"),
                    );
                }
            },
            Err(problem) => {
                scan.storage_complete = false;
                scan.note("rollout root scan is incomplete: ".to_owned().concat(problem.as_str()));
            },
        }
        let ghost first = start + discovery_notes(discovery_view(*found));
        assert(scan.diagnostics.deep_view() =~= first);
        if catalog.ignored_orphan_edges > 0 {
            scan.note(
                "ignored ".to_owned().concat(
                    decimal_text(catalog.ignored_orphan_edges as u64).as_str(),
                ).concat(" stale spawn edges whose child is absent from the task catalog"),
            );
        }
        if catalog.unresolved_child_edges > 0 {
            scan.doubt(
                decimal_text(catalog.unresolved_child_edges as u64).concat(
                    " catalog tasks reference missing parent rows",
                ),
            );
        }
        if extra.len() > 0 {
            scan.note(
                "ignored ".to_owned().concat(decimal_text(extra.len() as u64).as_str()).concat(
                    " app-server rows absent from the authoritative task catalog",
                ),
            );
        }
        proof {
            assert(extra@.len() == extra.deep_view().len());
            assert(scan.diagnostics.deep_view() =~= first + catalog_notes(
                begun.raw,
                catalog.deep_view(),
            ));
            assert(scan.deep_view() =~= catalogued(
                begun,
                catalog.deep_view(),
                discovery_view(*found),
            ));
        }
        (scan, missing)
    }

    /// Goes on without the catalog.
    pub fn without_catalog(&mut self, problem: &str)
        ensures
            final(self).deep_view() == noting(
                old(self).deep_view(),
                "authoritative Codex task catalog is unavailable; discovery is compatibility-only: "@
                    + problem@,
            ),
    {
        self.note(
            "authoritative Codex task catalog is unavailable; discovery is compatibility-only: ".to_owned().concat(
            problem),
        );
    }
}

/// What a read of a thread gave.
pub enum Read {
    Found(ThreadDto),
    Failed(VaultError),
}

#[verifier::ext_equal]
pub enum ReadView {
    Found(ThreadView),
    Failed(VaultErrorView),
}

impl DeepView for Read {
    type V = ReadView;

    open spec fn deep_view(&self) -> ReadView {
        match self {
            Read::Found(dto) => ReadView::Found(dto.deep_view()),
            Read::Failed(error) => ReadView::Failed(error.deep_view()),
        }
    }
}

/// The scan with threads of the catalog that the server did not list: what a
/// read gave, else what the catalog alone knows.
pub open spec fn filled(
    scan: ScanView,
    threads: Map<Seq<char>, CatalogThreadView>,
    reads: Map<Seq<char>, ReadView>,
    ids: Seq<Seq<char>>,
) -> ScanView
    decreases ids.len(),
{
    if ids.len() == 0 {
        scan
    } else {
        let before = filled(scan, threads, reads, ids.drop_last());
        let id = ids.last();
        if !threads.contains_key(id) {
            before
        } else {
            let thread = threads[id];
            if !reads.contains_key(id) {
                noting(
                    holding(
                        before,
                        id,
                        catalog_only(thread, "app-server metadata missing"@),
                        thread.archived,
                    ),
                    "thread/read returned no result for catalogued thread "@ + id,
                )
            } else {
                match reads[id] {
                    ReadView::Found(dto) => holding(
                        before,
                        id,
                        with_catalog(dto, thread),
                        thread.archived,
                    ),
                    ReadView::Failed(error) => noting(
                        holding(
                            before,
                            id,
                            catalog_only(thread, "app-server metadata unavailable"@),
                            thread.archived,
                        ),
                        "thread "@ + id
                            + " is catalogued but app-server metadata is unavailable: "@
                            + error_message(error),
                    ),
                }
            }
        }
    }
}

/// The scan with a thread.
pub open spec fn holding(
    scan: ScanView,
    id: Seq<char>,
    dto: ThreadView,
    archived: bool,
) -> ScanView {
    ScanView { raw: scan.raw.insert(id, ListedView { dto, archived }), ..scan }
}

impl Scan {
    /// Takes in the reads of threads that the server did not list.
    pub fn add_missing(
        &mut self,
        threads: &TextMap<CatalogThread>,
        ids: &Vec<String>,
        reads: &TextMap<Read>,
    )
        ensures
            final(self).deep_view() == filled(
                old(self).deep_view(),
                threads@,
                reads@,
                ids.deep_view(),
            ),
    {
        let ghost start = self.deep_view();
        let ghost all = ids.deep_view();
        let mut i: usize = 0;
        assert(all.take(0) =~= Seq::empty());
        while i < ids.len()
            invariant
                i <= ids@.len(),
                all == ids.deep_view(),
                self.deep_view() == filled(start, threads@, reads@, all.take(i as int)),
            decreases ids.len() - i,
        {
            let id = ids[i].as_str();
            proof {
                assert(all.take(i as int + 1).drop_last() =~= all.take(i as int));
                assert(all.take(i as int + 1).last() == id@);
            }
            match threads.get(id) {
                Some(thread) => {
                    match reads.get(id) {
                        Some(Read::Found(dto)) => {
                            let dto = thread.apply_to_dto(dto.clone());
                            self.raw.insert(
                                ids[i].clone(),
                                Listed { dto, archived: thread.archived },
                            );
                        },
                        Some(Read::Failed(error)) => {
                            let dto = thread.fallback_dto("app-server metadata unavailable");
                            self.raw.insert(
                                ids[i].clone(),
                                Listed { dto, archived: thread.archived },
                            );
                            self.note(
                                "thread ".to_owned().concat(id).concat(
                                    " is catalogued but app-server metadata is unavailable: ",
                                ).concat(error.message().as_str()),
                            );
                        },
                        None => {
                            let dto = thread.fallback_dto("app-server metadata missing");
                            self.raw.insert(
                                ids[i].clone(),
                                Listed { dto, archived: thread.archived },
                            );
                            self.note(
                                "thread/read returned no result for catalogued thread ".to_owned().concat(
                                id),
                            );
                        },
                    }
                },
                None => {},
            }
            i += 1;
        }
        assert(all.take(i as int) =~= all);
    }
}

/// The source of a thread says that it has a parent, and none is named.
pub open spec fn lacks_parent(dto: ThreadView) -> bool {
    source_of(dto.source) == SessionSourceView::Descendant && parent_of(dto) is None
}

/// The threads whose parent must still be read.
pub open spec fn without_parent(raw: Map<Seq<char>, ListedView>) -> Seq<Seq<char>> {
    ordered_texts(raw.dom()).filter(|id: Seq<char>| lacks_parent(raw[id].dto))
}

/// A read thread takes the place of what was listed as far as its source and
/// its parent go.
pub open spec fn adopted(listed: ListedView, read: ThreadView) -> ListedView {
    ListedView {
        dto: ThreadView {
            source: read.source,
            parent_thread_id: parent_of(read),
            ..listed.dto
        },
        ..listed
    }
}

/// The scan with what a read of one thread gave of its parent.
pub open spec fn with_parent(
    scan: ScanView,
    id: Seq<char>,
    reads: Map<Seq<char>, ReadView>,
) -> ScanView {
    let read = if reads.contains_key(id) {
        reads[id]
    } else {
        ReadView::Failed(
            VaultErrorView::Protocol("thread/read did not return metadata for "@ + id),
        )
    };
    match read {
        ReadView::Failed(error) => doubting(
            scan,
            "thread/read could not hydrate the parent of "@ + id + ": "@ + error_message(error),
        ),
        ReadView::Found(read) => if !scan.raw.contains_key(id) {
            doubting(
                scan,
                "thread "@ + id + " disappeared while hydrating its parent relationship"@,
            )
        } else {
            let listed = scan.raw[id];
            let after = adopted(listed, read);
            let held = ScanView { raw: scan.raw.insert(id, after), ..scan };
            let compared = if source_of(listed.dto.source) != source_of(read.source) {
                doubting(
                    held,
                    "thread "@ + id + " source changed between thread/list and thread/read"@,
                )
            } else {
                held
            };
            if parent_of(after.dto) is None {
                doubting(
                    compared,
                    "thread "@ + id + " remains an unparented sub-agent after thread/read"@,
                )
            } else {
                compared
            }
        },
    }
}

/// The scan with what the reads gave of parents.
pub open spec fn with_parents(
    scan: ScanView,
    reads: Map<Seq<char>, ReadView>,
    ids: Seq<Seq<char>>,
) -> ScanView
    decreases ids.len(),
{
    if ids.len() == 0 {
        scan
    } else {
        with_parent(with_parents(scan, reads, ids.drop_last()), ids.last(), reads)
    }
}

fn same_source(a: &SessionSource, b: &SessionSource) -> (r: bool)
    ensures
        r == (a.deep_view() == b.deep_view()),
{
    match (a, b) {
        (SessionSource::Cli, SessionSource::Cli) => true,
        (SessionSource::Vscode, SessionSource::Vscode) => true,
        (SessionSource::Exec, SessionSource::Exec) => true,
        (SessionSource::AppServer, SessionSource::AppServer) => true,
        (SessionSource::Descendant, SessionSource::Descendant) => true,
        (SessionSource::Unknown, SessionSource::Unknown) => true,
        (SessionSource::Other(x), SessionSource::Other(y)) => same(x.as_str(), y.as_str()),
        _ => false,
    }
}

impl Scan {
    /// The threads whose parent must still be read.
    pub fn unparented(&self) -> (r: Vec<String>)
        ensures
            r.deep_view() == without_parent(self.deep_view().raw),
    {
        let ids = self.raw.keys();
        let ghost all = ids.deep_view();
        let ghost raw = self.raw@;
        let ghost keep = |id: Seq<char>| lacks_parent(raw[id].dto);
        let mut r: Vec<String> = Vec::new();
        let mut i: usize = 0;
        proof {
            reveal(Seq::filter);
            assert(r.deep_view() =~= all.take(0).filter(keep));
        }
        while i < ids.len()
            invariant
                i <= ids@.len(),
                raw == self.raw@,
                all == ids.deep_view(),
                all.to_set() == raw.dom(),
                keep == (|id: Seq<char>| lacks_parent(raw[id].dto)),
                r.deep_view() == all.take(i as int).filter(keep),
            decreases ids.len() - i,
        {
            let ghost before = r.deep_view();
            proof {
                reveal(Seq::filter);
                assert(all[i as int] == ids@[i as int]@);
                assert(all.to_set().contains(all[i as int]));
                assert(all.take(i as int + 1).drop_last() =~= all.take(i as int));
                assert(all.take(i as int + 1).last() == all[i as int]);
            }
            match self.raw.get(ids[i].as_str()) {
                Some(listed) => {
                    let source = parse_source(&listed.dto.source);
                    if same_source(&source, &SessionSource::Descendant)
                        && listed.dto.parent_thread_id().is_none() {
                        r.push(ids[i].clone());
                        assert(r.deep_view() =~= before.push(ids@[i as int]@));
                    }
                },
                None => {},
            }
            i += 1;
        }
        assert(all.take(i as int) =~= all);
        r
    }

    fn add_parent(&mut self, id: &String, reads: &TextMap<Read>)
        ensures
            final(self).deep_view() == with_parent(old(self).deep_view(), id@, reads@),
    {
        let key = id.as_str();
        match reads.get(key) {
            None => {
                let error = VaultError::Protocol(
                    "thread/read did not return metadata for ".to_owned().concat(key),
                );
                self.doubt(
                    "thread/read could not hydrate the parent of ".to_owned().concat(key).concat(
                        ": ",
                    ).concat(error.message().as_str()),
                );
            },
            Some(Read::Failed(error)) => {
                self.doubt(
                    "thread/read could not hydrate the parent of ".to_owned().concat(key).concat(
                        ": ",
                    ).concat(error.message().as_str()),
                );
            },
            Some(Read::Found(read)) => {
                let listed = match self.raw.get(key) {
                    Some(listed) => Listed {
                        dto: listed.dto.clone(),
                        archived: listed.archived,
                    },
                    None => {
                        self.doubt(
                            "thread ".to_owned().concat(key).concat(
                                " disappeared while hydrating its parent relationship",
                            ),
                        );
                        return;
                    },
                };
                let changed = !same_source(
                    &parse_source(&listed.dto.source),
                    &parse_source(&read.source),
                );
                let dto = ThreadDto {
                    source: read.source.clone(),
                    parent_thread_id: read.parent_thread_id(),
                    ..listed.dto
                };
                let orphan = dto.parent_thread_id().is_none();
                self.raw.insert(id.clone(), Listed { dto, archived: listed.archived });
                if changed {
                    self.doubt(
                        "thread ".to_owned().concat(key).concat(
                            " source changed between thread/list and thread/read",
                        ),
                    );
                }
                if orphan {
                    self.doubt(
                        "thread ".to_owned().concat(key).concat(
                            " remains an unparented sub-agent after thread/read",
                        ),
                    );
                }
            },
        }
    }

    /// Takes in the reads of threads whose parent was not listed.
    pub fn add_parents(&mut self, ids: &Vec<String>, reads: &TextMap<Read>)
        ensures
            final(self).deep_view() == with_parents(
                old(self).deep_view(),
                reads@,
                ids.deep_view(),
            ),
    {
        let ghost start = self.deep_view();
        let ghost all = ids.deep_view();
        let mut i: usize = 0;
        assert(all.take(0) =~= Seq::empty());
        while i < ids.len()
            invariant
                i <= ids@.len(),
                all == ids.deep_view(),
                self.deep_view() == with_parents(start, reads@, all.take(i as int)),
            decreases ids.len() - i,
        {
            proof {
                assert(all.take(i as int + 1).drop_last() =~= all.take(i as int));
                assert(all.take(i as int + 1).last() == ids@[i as int]@);
            }
            self.add_parent(&ids[i], reads);
            i += 1;
        }
        assert(all.take(i as int) =~= all);
    }

    /// Goes on after a batch of parents could not be read.
    pub fn parents_failed(&mut self, count: usize, error: &VaultError)
        ensures
            final(self).deep_view() == doubting(
                old(self).deep_view(),
                "thread/read could not hydrate "@ + decimal(count as int)
                    + " parent relationships: "@ + error_message(error.deep_view()),
            ),
    {
        self.doubt(
            "thread/read could not hydrate ".to_owned().concat(
                decimal_text(count as u64).as_str(),
            ).concat(" parent relationships: ").concat(error.message().as_str()),
        );
    }
}

/// The ids of a batch.
pub open spec fn batch(ids: Seq<Seq<char>>, k: int) -> Seq<Seq<char>> {
    let end = THREAD_READ_BATCH_SIZE * (k + 1);
    ids.subrange(
        THREAD_READ_BATCH_SIZE * k,
        if end < ids.len() {
            end
        } else {
            ids.len() as int
        },
    )
}

/// The ids in batches: each is full but for the last, and none is empty.
pub fn batches(ids: &Vec<String>) -> (r: Vec<Vec<String>>)
    ensures
        (r@.len() - 1) * THREAD_READ_BATCH_SIZE < ids@.len() <= r@.len() * THREAD_READ_BATCH_SIZE,
        forall|k: int| 0 <= k < r@.len() ==> (#[trigger] r@[k]).deep_view() == batch(
            ids.deep_view(),
            k,
        ),
{
    let ghost all = ids.deep_view();
    let mut r: Vec<Vec<String>> = Vec::new();
    let mut current: Vec<String> = Vec::new();
    let mut i: usize = 0;
    assert(current.deep_view() =~= all.subrange(0, 0));
    while i < ids.len()
        invariant
            i <= ids@.len(),
            all == ids.deep_view(),
            current@.len() < THREAD_READ_BATCH_SIZE,
            i == r@.len() * THREAD_READ_BATCH_SIZE + current@.len(),
            current.deep_view() == all.subrange(
                THREAD_READ_BATCH_SIZE * r@.len() as int,
                i as int,
            ),
            forall|k: int| 0 <= k < r@.len() ==> (#[trigger] r@[k]).deep_view() == batch(all, k),
        decreases ids.len() - i,
    {
        let ghost before = current.deep_view();
        current.push(ids[i].clone());
        i += 1;
        proof {
            assert(current.deep_view() =~= before.push(ids@[i as int - 1]@));
            assert(current.deep_view() =~= all.subrange(
                THREAD_READ_BATCH_SIZE * r@.len() as int,
                i as int,
            ));
        }
        if current.len() == THREAD_READ_BATCH_SIZE {
            let mut full: Vec<String> = Vec::new();
            std::mem::swap(&mut full, &mut current);
            assert(full.deep_view() =~= batch(all, r@.len() as int));
            r.push(full);
            assert(current.deep_view() =~= all.subrange(
                THREAD_READ_BATCH_SIZE * r@.len() as int,
                i as int,
            ));
        }
    }
    if current.len() > 0 {
        assert(current.deep_view() =~= batch(all, r@.len() as int));
        r.push(current);
    }
    r
}

/// The threads that a scan holds after reads of threads of the catalog.
pub proof fn lemma_filled_threads(
    scan: ScanView,
    threads: Map<Seq<char>, CatalogThreadView>,
    reads: Map<Seq<char>, ReadView>,
    ids: Seq<Seq<char>>,
    id: Seq<char>,
)
    ensures
        filled(scan, threads, reads, ids).raw.contains_key(id) <==> scan.raw.contains_key(id) || (
        ids.contains(id) && threads.contains_key(id)),
    decreases ids.len(),
{
    if ids.len() > 0 {
        let before = ids.drop_last();
        lemma_filled_threads(scan, threads, reads, before, id);
        assert(ids.contains(id) <==> before.contains(id) || ids.last() == id) by {
            if before.contains(id) {
                assert(ids[before.index_of(id)] == id);
            }
            if ids.contains(id) {
                let k = ids.index_of(id);
                if k < before.len() {
                    assert(before[k] == id);
                }
            }
            assert(ids[ids.len() - 1] == ids.last());
        }
    }
}

/// Reading parents neither adds a thread nor drops one.
pub proof fn law_parents_keep_threads(
    scan: ScanView,
    reads: Map<Seq<char>, ReadView>,
    ids: Seq<Seq<char>>,
)
    ensures
        with_parents(scan, reads, ids).raw.dom() == scan.raw.dom(),
    decreases ids.len(),
{
    if ids.len() > 0 {
        law_parents_keep_threads(scan, reads, ids.drop_last());
        let before = with_parents(scan, reads, ids.drop_last());
        let after = with_parent(before, ids.last(), reads);
        assert(after.raw.dom() =~= before.raw.dom());
    }
}

} // verus!
