//! The sessions of a scan: from the closed listing to the snapshot.

use crate::codex::catalog::{CatalogThread, CatalogThreadView};
use crate::codex::closure::{belongs_to_tree, included, raw_belongs_to_root, reaches, Closure};
use crate::codex::maintenance::{
    rollout_size, state_at, validate_rollout_path, FileState, FileStateView,
};
use crate::codex::pins::all_in;
use crate::codex::scan::{doubting, Listed, ListedView, Scan, ScanView};
use crate::codex::thread::{map_thread, mapped, parse_source, source_of};
use crate::domain::{
    copy_option, error_message, known_source, result_view, RuntimeStatus, RuntimeStatusView,
    SessionNode, SessionNodeView, SessionSource, SessionSourceView, VaultError, VaultErrorView,
};
use crate::ordered::{ordered_texts, TextMap, TextSet};
use crate::text::same;
use vstd::prelude::*;
use vstd::string::*;

verus! {

broadcast use vstd::group_vstd_default;

/// Listings of ids, as values.
pub open spec fn listings_view(listings: Seq<Result<Vec<String>, VaultError>>) -> Seq<
    Result<Seq<Seq<char>>, VaultErrorView>,
> {
    listings.map_values(|listing: Result<Vec<String>, VaultError>| result_view(listing))
}

/// Every id that a listing holds.
pub open spec fn listed_ids(listings: Seq<Result<Seq<Seq<char>>, VaultErrorView>>) -> Set<
    Seq<char>,
>
    decreases listings.len(),
{
    if listings.len() == 0 {
        Set::empty()
    } else {
        match listings.last() {
            Ok(ids) => listed_ids(listings.drop_last()).union(ids.to_set()),
            Err(_) => listed_ids(listings.drop_last()),
        }
    }
}

/// The threads below a root.
pub open spec fn below_root(raw: Map<Seq<char>, ListedView>, root: Seq<char>) -> Set<Seq<char>> {
    included(raw).filter(|id: Seq<char>| id != root && reaches(raw, id, root))
}

/// The scan with listings that failed.
pub open spec fn with_failures(
    scan: ScanView,
    root: Seq<char>,
    listings: Seq<Result<Seq<Seq<char>>, VaultErrorView>>,
) -> ScanView
    decreases listings.len(),
{
    if listings.len() == 0 {
        scan
    } else {
        let before = with_failures(scan, root, listings.drop_last());
        match listings.last() {
            Ok(_) => before,
            Err(error) => doubting(
                before,
                "ancestorThreadId unavailable for "@ + root + ": "@ + error_message(error),
            ),
        }
    }
}

/// The scan after the server was asked what stands below a root. The answer
/// must be what the parents say.
pub open spec fn probed(
    scan: ScanView,
    root: Seq<char>,
    listings: Seq<Result<Seq<Seq<char>>, VaultErrorView>>,
) -> ScanView {
    let after = with_failures(scan, root, listings);
    if listed_ids(listings) != below_root(scan.raw, root) {
        doubting(
            after,
            "ancestorThreadId result for "@ + root
                + " does not match the complete parent closure"@,
        )
    } else {
        after
    }
}

pub fn add_all(set: &mut TextSet, ids: &Vec<String>)
    ensures
        final(set)@ == old(set)@.union(ids.deep_view().to_set()),
{
    let ghost start = set@;
    let ghost all = ids.deep_view();
    let mut i: usize = 0;
    assert(set@ =~= start.union(all.take(0).to_set()));
    while i < ids.len()
        invariant
            i <= ids@.len(),
            all == ids.deep_view(),
            set@ == start.union(all.take(i as int).to_set()),
        decreases ids.len() - i,
    {
        set.insert(ids[i].clone());
        proof {
            let longer = all.take(i as int + 1);
            let shorter = all.take(i as int);
            assert(longer =~= shorter.push(all[i as int]));
            assert forall|id: Seq<char>|
                longer.to_set().contains(id) <==> shorter.to_set().contains(id) || id
                    == all[i as int] by {
                if shorter.contains(id) {
                    let k = shorter.index_of(id);
                    assert(longer[k] == id);
                }
                assert(longer[i as int] == all[i as int]);
                if longer.contains(id) {
                    let k = longer.index_of(id);
                    if k < i {
                        assert(shorter[k] == id);
                    }
                }
            }
            assert(set@ =~= start.union(longer.to_set()));
        }
        i += 1;
    }
    assert(all.take(i as int) =~= all);
}

fn gather(listings: &Vec<Result<Vec<String>, VaultError>>) -> (r: TextSet)
    ensures
        r@ == listed_ids(listings_view(listings@)),
{
    let ghost all = listings_view(listings@);
    let mut r = TextSet::new();
    let mut i: usize = 0;
    assert(all.take(0) =~= Seq::empty());
    while i < listings.len()
        invariant
            i <= listings@.len(),
            all == listings_view(listings@),
            r@ == listed_ids(all.take(i as int)),
        decreases listings.len() - i,
    {
        proof {
            assert(all.take(i as int + 1).drop_last() =~= all.take(i as int));
            assert(all.take(i as int + 1).last() == result_view(listings@[i as int]));
        }
        match &listings[i] {
            Ok(ids) => {
                add_all(&mut r, ids);
            },
            Err(_) => {},
        }
        i += 1;
    }
    assert(all.take(i as int) =~= all);
    r
}

fn find_below(raw: &TextMap<Listed>, root: &str) -> (r: TextSet)
    ensures
        r@ == below_root(raw@, root@),
{
    let ids = raw.keys();
    let ghost all = ids.deep_view();
    let ghost want = below_root(raw@, root@);
    let mut r = TextSet::new();
    let mut i: usize = 0;
    while i < ids.len()
        invariant
            i <= ids@.len(),
            all == ids.deep_view(),
            all.to_set() == raw@.dom(),
            want == below_root(raw@, root@),
            forall|id: Seq<char>| #[trigger] r@.contains(id) ==> want.contains(id),
            forall|k: int|
                0 <= k < i && want.contains(#[trigger] all[k]) ==> r@.contains(all[k]),
        decreases ids.len() - i,
    {
        proof {
            assert(all[i as int] == ids@[i as int]@);
            assert(all.to_set().contains(all[i as int]));
        }
        let id = ids[i].as_str();
        if !same(id, root) && belongs_to_tree(raw, id) && raw_belongs_to_root(id, root, raw) {
            r.insert(ids[i].clone());
        }
        i += 1;
    }
    proof {
        assert forall|id: Seq<char>| want.contains(id) implies r@.contains(id) by {
            assert(all.to_set().contains(id));
            let k = all.index_of(id);
            assert(all[k] == id);
        }
        assert(r@ =~= want);
    }
    r
}

impl Scan {
    /// Holds what the server says of the threads below a root against what the
    /// parents say.
    pub fn check_probe(
        &mut self,
        root: &str,
        listings: &Vec<Result<Vec<String>, VaultError>>,
    )
        ensures
            final(self).deep_view() == probed(
                old(self).deep_view(),
                root@,
                listings_view(listings@),
            ),
    {
        let ghost start = self.deep_view();
        let ghost all = listings_view(listings@);
        let expected = find_below(&self.raw, root);
        let observed = gather(listings);
        let mut i: usize = 0;
        assert(all.take(0) =~= Seq::empty());
        while i < listings.len()
            invariant
                i <= listings@.len(),
                all == listings_view(listings@),
                self.deep_view() == with_failures(start, root@, all.take(i as int)),
            decreases listings.len() - i,
        {
            proof {
                assert(all.take(i as int + 1).drop_last() =~= all.take(i as int));
                assert(all.take(i as int + 1).last() == result_view(listings@[i as int]));
            }
            match &listings[i] {
                Ok(_) => {},
                Err(error) => {
                    self.doubt(
                        "ancestorThreadId unavailable for ".to_owned().concat(root).concat(
                            ": ",
                        ).concat(error.message().as_str()),
                    );
                },
            }
            i += 1;
        }
        assert(all.take(i as int) =~= all);
        let agree = all_in(&expected, &observed) && all_in(&observed, &expected);
        proof {
            if agree {
                assert(expected@ =~= observed@);
            }
        }
        if !agree {
            self.doubt(
                "ancestorThreadId result for ".to_owned().concat(root).concat(
                    " does not match the complete parent closure",
                ),
            );
        }
    }
}

/// The source of a session: that of a thread which is no root and whose source
/// is known is left at "below another".
pub open spec fn shown_source(
    dto_source: SessionSourceView,
    root: bool,
) -> SessionSourceView {
    if root || !known_source(dto_source) {
        dto_source
    } else {
        SessionSourceView::Descendant
    }
}

/// The size of a thread's rollout file, where there is a home.
pub open spec fn size_below(
    home: Result<Seq<char>, Seq<char>>,
    thread: CatalogThreadView,
    files: Map<Seq<char>, FileStateView>,
) -> Result<u64, Seq<char>> {
    match home {
        Err(problem) => Err(problem),
        Ok(home) => rollout_size(home, thread, state_at(files, thread.rollout_path)),
    }
}

/// A session with what the catalog knows of it.
pub open spec fn enriched(
    node: SessionNodeView,
    thread: CatalogThreadView,
    size: Result<u64, Seq<char>>,
) -> SessionNodeView {
    let named = SessionNodeView {
        provider: thread.provider,
        model: thread.model,
        ..node
    };
    match size {
        Ok(bytes) => SessionNodeView { rollout_bytes: Some(bytes), ..named },
        Err(problem) => SessionNodeView {
            status: RuntimeStatusView::Unknown(problem),
            ..named
        },
    }
}

/// The sessions so far.
pub struct Draft {
    pub nodes: TextMap<SessionNode>,
    pub write_capable: bool,
    pub diagnostics: Vec<String>,
    /// Where the catalog says that the rollout files lie.
    pub rollout_paths: TextMap<String>,
}

#[verifier::ext_equal]
pub struct DraftView {
    pub nodes: Map<Seq<char>, SessionNodeView>,
    pub write_capable: bool,
    pub diagnostics: Seq<Seq<char>>,
    pub rollout_paths: Map<Seq<char>, Seq<char>>,
}

impl DeepView for Draft {
    type V = DraftView;

    open spec fn deep_view(&self) -> DraftView {
        DraftView {
            nodes: self.nodes@,
            write_capable: self.write_capable,
            diagnostics: self.diagnostics.deep_view(),
            rollout_paths: self.rollout_paths@,
        }
    }
}

/// The draft with one more thread.
pub open spec fn with_thread(
    draft: DraftView,
    id: Seq<char>,
    listed: ListedView,
    root: bool,
    threads: Map<Seq<char>, CatalogThreadView>,
    home: Result<Seq<char>, Seq<char>>,
    files: Map<Seq<char>, FileStateView>,
) -> DraftView {
    match mapped(
        listed.dto,
        listed.archived,
        shown_source(source_of(listed.dto.source), root),
    ) {
        Err(error) => DraftView {
            write_capable: false,
            diagnostics: draft.diagnostics.push(error_message(error)),
            ..draft
        },
        Ok((node, warnings)) => if threads.contains_key(id) {
            let thread = threads[id];
            let size = size_below(home, thread, files);
            let warned = draft.diagnostics + warnings;
            DraftView {
                nodes: draft.nodes.insert(id, enriched(node, thread, size)),
                diagnostics: match size {
                    Ok(_) => warned,
                    Err(problem) => warned.push(problem),
                },
                rollout_paths: draft.rollout_paths.insert(id, thread.rollout_path),
                ..draft
            }
        } else {
            DraftView {
                nodes: draft.nodes.insert(id, node),
                diagnostics: draft.diagnostics + warnings,
                ..draft
            }
        },
    }
}

/// The draft of the threads with the given ids. A thread that cannot be mapped
/// leaves writing disabled.
pub open spec fn drafted(
    scan: ScanView,
    capable: bool,
    root_ids: Set<Seq<char>>,
    threads: Map<Seq<char>, CatalogThreadView>,
    home: Result<Seq<char>, Seq<char>>,
    files: Map<Seq<char>, FileStateView>,
    ids: Seq<Seq<char>>,
) -> DraftView
    decreases ids.len(),
{
    if ids.len() == 0 {
        DraftView {
            nodes: Map::empty(),
            write_capable: scan.relation_complete && scan.storage_complete && capable,
            diagnostics: scan.diagnostics,
            rollout_paths: Map::empty(),
        }
    } else {
        let before = drafted(scan, capable, root_ids, threads, home, files, ids.drop_last());
        let id = ids.last();
        if scan.raw.contains_key(id) {
            with_thread(
                before,
                id,
                scan.raw[id],
                root_ids.contains(id),
                threads,
                home,
                files,
            )
        } else {
            before
        }
    }
}

pub fn append_texts(target: &mut Vec<String>, more: &Vec<String>)
    ensures
        final(target).deep_view() == old(target).deep_view() + more.deep_view(),
{
    let ghost start = target.deep_view();
    let ghost all = more.deep_view();
    let mut i: usize = 0;
    assert(target.deep_view() =~= start + all.take(0));
    while i < more.len()
        invariant
            i <= more@.len(),
            all == more.deep_view(),
            target.deep_view() == start + all.take(i as int),
        decreases more.len() - i,
    {
        let ghost before = target.deep_view();
        target.push(more[i].clone());
        proof {
            assert(target.deep_view() =~= before.push(all[i as int]));
            assert(target.deep_view() =~= start + all.take(i as int + 1));
        }
        i += 1;
    }
    assert(all.take(i as int) =~= all);
}

impl Draft {
    fn add_thread(
        &mut self,
        id: &String,
        listed: &Listed,
        root: bool,
        threads: Option<&TextMap<CatalogThread>>,
        home: &Result<String, String>,
        files: &TextMap<FileState>,
    )
        ensures
            final(self).deep_view() == with_thread(
                old(self).deep_view(),
                id@,
                listed.deep_view(),
                root,
                match threads {
                    Some(threads) => threads@,
                    None => Map::empty(),
                },
                result_view(*home),
                files@,
            ),
    {
        let ghost before = self.diagnostics.deep_view();
        let parsed = parse_source(&listed.dto.source);
        let source = if root || !parsed.is_known() {
            parsed
        } else {
            SessionSource::Descendant
        };
        match map_thread(listed.dto.clone(), listed.archived, source) {
            Err(error) => {
                let note = error.message();
                self.write_capable = false;
                self.diagnostics.push(note);
                assert(self.diagnostics.deep_view() =~= before.push(note@));
            },
            Ok((node, warnings)) => {
                append_texts(&mut self.diagnostics, &warnings);
                let known = match threads {
                    Some(threads) => threads.get(id.as_str()),
                    None => None,
                };
                match known {
                    None => {
                        self.nodes.insert(id.clone(), node);
                    },
                    Some(thread) => {
                        let special = FileState::Special;
                        let state = match files.get(thread.rollout_path.as_str()) {
                            Some(state) => state,
                            None => &special,
                        };
                        let size = match home {
                            Err(problem) => Err(problem.clone()),
                            Ok(home) => validate_rollout_path(home.as_str(), thread, state),
                        };
                        let named = SessionNode {
                            provider: copy_option(&thread.provider),
                            model: copy_option(&thread.model),
                            ..node
                        };
                        self.rollout_paths.insert(id.clone(), thread.rollout_path.clone());
                        let ghost warned = self.diagnostics.deep_view();
                        let whole = match size {
                            Ok(bytes) => SessionNode { rollout_bytes: Some(bytes), ..named },
                            Err(problem) => {
                                self.diagnostics.push(problem.clone());
                                assert(self.diagnostics.deep_view() =~= warned.push(problem@));
                                SessionNode { status: RuntimeStatus::Unknown(problem), ..named }
                            },
                        };
                        self.nodes.insert(id.clone(), whole);
                    },
                }
            },
        }
    }
}

/// Maps the threads of the trees to sessions.
pub fn draft_nodes(
    scan: Scan,
    capabilities_complete: bool,
    closure: &Closure,
    threads: Option<&TextMap<CatalogThread>>,
    home: &Result<String, String>,
    files: &TextMap<FileState>,
) -> (r: Draft)
    ensures
        r.deep_view() == drafted(
            scan.deep_view(),
            capabilities_complete,
            closure.root_ids@,
            match threads {
                Some(threads) => threads@,
                None => Map::empty(),
            },
            result_view(*home),
            files@,
            ordered_texts(closure.included_ids@),
        ),
{
    let ghost view = scan.deep_view();
    let ghost known = match threads {
        Some(threads) => threads@,
        None => Map::empty(),
    };
    let ids = closure.included_ids.items();
    let ghost all = ids.deep_view();
    let mut draft = Draft {
        nodes: TextMap::new(),
        write_capable: scan.relation_complete && scan.storage_complete && capabilities_complete,
        diagnostics: scan.diagnostics,
        rollout_paths: TextMap::new(),
    };
    let raw = scan.raw;
    let mut i: usize = 0;
    assert(all.take(0) =~= Seq::empty());
    while i < ids.len()
        invariant
            i <= ids@.len(),
            all == ids.deep_view(),
            raw@ == view.raw,
            known == match threads {
                Some(threads) => threads@,
                None => Map::empty(),
            },
            draft.deep_view() == drafted(
                view,
                capabilities_complete,
                closure.root_ids@,
                known,
                result_view(*home),
                files@,
                all.take(i as int),
            ),
        decreases ids.len() - i,
    {
        proof {
            assert(all.take(i as int + 1).drop_last() =~= all.take(i as int));
            assert(all.take(i as int + 1).last() == ids@[i as int]@);
        }
        match raw.get(ids[i].as_str()) {
            Some(listed) => {
                let root = closure.root_ids.contains(ids[i].as_str());
                draft.add_thread(&ids[i], listed, root, threads, home, files);
            },
            None => {},
        }
        i += 1;
    }
    assert(all.take(i as int) =~= all);
    draft
}

/// Writing is enabled only where the relations, the storage and the
/// capabilities are complete.
pub proof fn law_draft_writes_only_when_complete(
    scan: ScanView,
    capable: bool,
    root_ids: Set<Seq<char>>,
    threads: Map<Seq<char>, CatalogThreadView>,
    home: Result<Seq<char>, Seq<char>>,
    files: Map<Seq<char>, FileStateView>,
    ids: Seq<Seq<char>>,
)
    ensures
        drafted(scan, capable, root_ids, threads, home, files, ids).write_capable
            ==> scan.relation_complete && scan.storage_complete && capable,
    decreases ids.len(),
{
    if ids.len() > 0 {
        law_draft_writes_only_when_complete(
            scan,
            capable,
            root_ids,
            threads,
            home,
            files,
            ids.drop_last(),
        );
    }
}

/// Only threads of a tree become sessions, and none of them is dropped in
/// silence: one that cannot be mapped leaves writing disabled. A session whose
/// rollout file is not where it may be has an unknown status.
pub proof fn law_no_thread_is_dropped_silently(
    scan: ScanView,
    capable: bool,
    root_ids: Set<Seq<char>>,
    threads: Map<Seq<char>, CatalogThreadView>,
    home: Result<Seq<char>, Seq<char>>,
    files: Map<Seq<char>, FileStateView>,
    ids: Seq<Seq<char>>,
    id: Seq<char>,
)
    ensures
        ({
            let draft = drafted(scan, capable, root_ids, threads, home, files, ids);
            &&& draft.nodes.contains_key(id) ==> ids.contains(id) && scan.raw.contains_key(id)
            &&& ids.contains(id) && scan.raw.contains_key(id) ==> draft.nodes.contains_key(id)
                || !draft.write_capable
            &&& draft.nodes.contains_key(id) && threads.contains_key(id) && size_below(
                home,
                threads[id],
                files,
            ) is Err ==> draft.nodes[id].status is Unknown
        }),
    decreases ids.len(),
{
    if ids.len() > 0 {
        let before = ids.drop_last();
        law_no_thread_is_dropped_silently(
            scan,
            capable,
            root_ids,
            threads,
            home,
            files,
            before,
            id,
        );
        assert(ids.contains(id) <==> before.contains(id) || ids.last() == id) by {
            if before.contains(id) {
                assert(ids[before.index_of(id)] == id);
            }
            if ids.contains(id) {
                let k = ids.index_of(id);
                if k < before.len() {
                    assert(before[k] == id);
                }
            }
            assert(ids[ids.len() - 1] == ids.last());
        }
    }
}

} // verus!
