//! Which threads belong to the tree of an interactive root.

use crate::codex::scan::{Listed, ListedView, Scan, ScanView};
use crate::codex::thread::{parent_of, parse_source, source_of};
use crate::domain::{interactive, known_source};
use crate::ordered::{ordered_texts, TextMap, TextSet};
use crate::outside::rendered;
use crate::text::same;
use vstd::prelude::*;
use vstd::string::*;

verus! {

broadcast use vstd::group_vstd_default;

/// The thread that stands so many steps above `start`, if the chain of parents
/// goes that far. The last one of a chain need not be listed.
pub open spec fn above(raw: Map<Seq<char>, ListedView>, start: Seq<char>, n: nat) -> Option<
    Seq<char>,
>
    decreases n,
{
    if n == 0 {
        Some(start)
    } else {
        match above(raw, start, (n - 1) as nat) {
            Some(id) => if raw.contains_key(id) {
                parent_of(raw[id].dto)
            } else {
                None
            },
            None => None,
        }
    }
}

/// The chain of parents ends after so many steps.
pub open spec fn ends_after(raw: Map<Seq<char>, ListedView>, start: Seq<char>, n: nat) -> bool {
    above(raw, start, n) is Some && above(raw, start, n + 1) is None
}

/// How the chain of parents above a thread ends.
#[verifier::ext_equal]
pub enum ClimbView {
    /// At a listed thread without a parent.
    Top(Seq<char>),
    /// At a thread that is not listed.
    Missing(Seq<char>),
    /// Not at all.
    Cycle,
}

/// How the chain of parents above a thread ends.
pub open spec fn climb(raw: Map<Seq<char>, ListedView>, start: Seq<char>) -> ClimbView {
    if exists|n: nat| #[trigger] ends_after(raw, start, n) {
        let n = choose|n: nat| #[trigger] ends_after(raw, start, n);
        let id = above(raw, start, n)->0;
        if raw.contains_key(id) {
            ClimbView::Top(id)
        } else {
            ClimbView::Missing(id)
        }
    } else {
        ClimbView::Cycle
    }
}

proof fn lemma_ended(raw: Map<Seq<char>, ListedView>, start: Seq<char>, m: nat, n: nat)
    requires
        m <= n,
        above(raw, start, m) is None,
    ensures
        above(raw, start, n) is None,
    decreases n - m,
{
    if m < n {
        lemma_ended(raw, start, m, (n - 1) as nat);
    }
}

pub proof fn lemma_climb_ends(raw: Map<Seq<char>, ListedView>, start: Seq<char>, n: nat)
    requires
        ends_after(raw, start, n),
    ensures
        climb(raw, start) == if raw.contains_key(above(raw, start, n)->0) {
            ClimbView::Top(above(raw, start, n)->0)
        } else {
            ClimbView::Missing(above(raw, start, n)->0)
        },
{
    let m = choose|m: nat| #[trigger] ends_after(raw, start, m);
    if m < n {
        lemma_ended(raw, start, m + 1, n);
    }
    if n < m {
        lemma_ended(raw, start, n + 1, m);
    }
}

/// A chain that comes back to where it was stays among what it has seen.
proof fn lemma_round(
    raw: Map<Seq<char>, ListedView>,
    start: Seq<char>,
    n: nat,
    j: nat,
    m: nat,
)
    requires
        j < n,
        above(raw, start, n) is Some,
        above(raw, start, j) == above(raw, start, n),
    ensures
        exists|k: nat| k < n && #[trigger] above(raw, start, k) == above(raw, start, m),
        above(raw, start, m) is Some,
    decreases m,
{
    if m >= n {
        if m == n {
            assert(above(raw, start, j) == above(raw, start, m));
        } else {
            lemma_round(raw, start, n, j, (m - 1) as nat);
            let k = choose|k: nat|
                k < n && #[trigger] above(raw, start, k) == above(raw, start, (m - 1) as nat);
            assert(above(raw, start, k + 1) == above(raw, start, m));
            if k + 1 == n {
                assert(above(raw, start, j) == above(raw, start, m));
            }
            if above(raw, start, m) is None {
                lemma_ended(raw, start, k + 1, n);
            }
        }
    } else if above(raw, start, m) is None {
        lemma_ended(raw, start, m, n);
    }
}

/// How the chain of parents above a thread ends.
pub enum Climb {
    Top(String),
    Missing(String),
    Cycle,
}

impl DeepView for Climb {
    type V = ClimbView;

    open spec fn deep_view(&self) -> ClimbView {
        match self {
            Climb::Top(id) => ClimbView::Top(id@),
            Climb::Missing(id) => ClimbView::Missing(id@),
            Climb::Cycle => ClimbView::Cycle,
        }
    }
}

/// The ids of the first so many steps of a chain.
spec fn passed(raw: Map<Seq<char>, ListedView>, start: Seq<char>, n: nat) -> Set<Seq<char>>
    decreases n,
{
    if n == 0 {
        Set::empty()
    } else {
        passed(raw, start, (n - 1) as nat).insert(above(raw, start, (n - 1) as nat)->0)
    }
}

proof fn lemma_passed(raw: Map<Seq<char>, ListedView>, start: Seq<char>, n: nat, id: Seq<char>)
    requires
        above(raw, start, n) is Some,
    ensures
        passed(raw, start, n).contains(id) <==> exists|k: nat|
            k < n && #[trigger] above(raw, start, k) == Some(id),
    decreases n,
{
    if n > 0 {
        if above(raw, start, (n - 1) as nat) is None {
            lemma_ended(raw, start, (n - 1) as nat, n);
        }
        lemma_passed(raw, start, (n - 1) as nat, id);
        if above(raw, start, (n - 1) as nat) == Some(id) {
            assert(passed(raw, start, n).contains(id));
        }
        if exists|k: nat| k < n && #[trigger] above(raw, start, k) == Some(id) {
            let k = choose|k: nat| k < n && #[trigger] above(raw, start, k) == Some(id);
            if k < n - 1 {
                assert(passed(raw, start, (n - 1) as nat).contains(id));
            }
        }
    }
}

/// Follows the parents of a thread.
pub fn climb_from(raw: &TextMap<Listed>, start: &str) -> (r: Climb)
    ensures
        r.deep_view() == climb(raw@, start@),
{
    let mut current = start.to_owned();
    let mut seen = TextSet::new();
    let size: usize = raw.len();
    let ghost map = raw@;
    let ghost mut n: nat = 0;
    let ids = raw.keys();
    proof {
        vstd::seq_lib::seq_to_set_is_finite(ids.deep_view());
    }
    loop
        invariant
            map == raw@,
            map.dom().finite(),
            size == map.dom().len(),
            above(map, start@, n) == Some(current@),
            seen@ == passed(map, start@, n),
            seen@.subset_of(map.dom()),
            forall|k: nat| k < n ==> above(map, start@, k) is Some,
        decreases size - seen@.len(),
    {
        proof {
            lemma_passed(map, start@, n, current@);
            vstd::set_lib::lemma_len_subset(seen@, map.dom());
        }
        if seen.contains(current.as_str()) {
            proof {
                let j = choose|k: nat| k < n && #[trigger] above(map, start@, k) == Some(current@);
                if exists|m: nat| #[trigger] ends_after(map, start@, m) {
                    let m = choose|m: nat| #[trigger] ends_after(map, start@, m);
                    lemma_round(map, start@, n, j, m + 1);
                }
            }
            return Climb::Cycle;
        }
        let parent = match raw.get(current.as_str()) {
            None => {
                proof {
                    assert(ends_after(map, start@, n));
                    lemma_climb_ends(map, start@, n);
                }
                return Climb::Missing(current);
            },
            Some(listed) => listed.dto.parent_thread_id(),
        };
        match parent {
            None => {
                proof {
                    assert(ends_after(map, start@, n));
                    lemma_climb_ends(map, start@, n);
                }
                return Climb::Top(current);
            },
            Some(parent) => {
                proof {
                    let next = seen@.insert(current@);
                    assert(next.subset_of(map.dom()));
                    vstd::set_lib::lemma_len_subset(next, map.dom());
                }
                seen.insert(current);
                current = parent;
                proof {
                    n = n + 1;
                    assert(seen@ =~= passed(map, start@, n));
                }
            },
        }
    }
}

/// A listed thread without a parent that a person works in.
pub open spec fn is_root(raw: Map<Seq<char>, ListedView>, id: Seq<char>) -> bool {
    raw.contains_key(id) && parent_of(raw[id].dto) is None && interactive(
        source_of(raw[id].dto.source),
    )
}

/// The roots.
pub open spec fn roots(raw: Map<Seq<char>, ListedView>) -> Set<Seq<char>> {
    raw.dom().filter(|id: Seq<char>| is_root(raw, id))
}

/// A listed thread whose chain of parents ends at a root.
pub open spec fn in_tree(raw: Map<Seq<char>, ListedView>, id: Seq<char>) -> bool {
    raw.contains_key(id) && (climb(raw, id) matches ClimbView::Top(top) && is_root(raw, top))
}

/// The threads of the trees.
pub open spec fn included(raw: Map<Seq<char>, ListedView>) -> Set<Seq<char>> {
    raw.dom().filter(|id: Seq<char>| in_tree(raw, id))
}

/// What a chain that ends at no listed thread says.
pub open spec fn climb_note(raw: Map<Seq<char>, ListedView>, id: Seq<char>) -> Seq<Seq<char>> {
    match climb(raw, id) {
        ClimbView::Top(_) => Seq::empty(),
        ClimbView::Missing(last) => seq!["thread "@ + id + " has missing ancestor "@ + last],
        ClimbView::Cycle => seq!["cycle detected at thread "@ + id],
    }
}

/// What the chains of the threads say.
pub open spec fn climb_notes(raw: Map<Seq<char>, ListedView>, ids: Seq<Seq<char>>) -> Seq<
    Seq<char>,
>
    decreases ids.len(),
{
    if ids.len() == 0 {
        Seq::empty()
    } else {
        climb_notes(raw, ids.drop_last()) + climb_note(raw, ids.last())
    }
}

/// What an unknown source says.
pub open spec fn source_note(raw: Map<Seq<char>, ListedView>, id: Seq<char>) -> Seq<Seq<char>> {
    if raw.contains_key(id) && !known_source(source_of(raw[id].dto.source)) {
        seq![
            "thread "@ + id
                + " has an unknown source; only its interactive tree is protected: "@ + rendered(
                raw[id].dto.source,
            ),
        ]
    } else {
        Seq::empty()
    }
}

/// What the sources of the threads say.
pub open spec fn source_notes(raw: Map<Seq<char>, ListedView>, ids: Seq<Seq<char>>) -> Seq<
    Seq<char>,
>
    decreases ids.len(),
{
    if ids.len() == 0 {
        Seq::empty()
    } else {
        source_notes(raw, ids.drop_last()) + source_note(raw, ids.last())
    }
}

/// Every chain ends at a listed thread.
pub open spec fn all_end(raw: Map<Seq<char>, ListedView>, ids: Seq<Seq<char>>) -> bool {
    forall|k: int| 0 <= k < ids.len() ==> climb(raw, #[trigger] ids[k]) is Top
}

/// The scan with what its chains and sources say.
pub open spec fn closed_over(scan: ScanView) -> ScanView {
    let raw = scan.raw;
    let ids = ordered_texts(raw.dom());
    ScanView {
        diagnostics: scan.diagnostics + climb_notes(raw, ids) + source_notes(
            raw,
            ordered_texts(included(raw)),
        ),
        relation_complete: scan.relation_complete && all_end(raw, ids),
        ..scan
    }
}

/// The roots, and the threads of their trees.
pub struct Closure {
    pub root_ids: TextSet,
    pub included_ids: TextSet,
}

fn find_roots(raw: &TextMap<Listed>) -> (r: TextSet)
    ensures
        r@ == roots(raw@),
{
    let ids = raw.keys();
    let ghost all = ids.deep_view();
    let mut r = TextSet::new();
    let mut i: usize = 0;
    while i < ids.len()
        invariant
            i <= ids@.len(),
            all == ids.deep_view(),
            all.to_set() == raw@.dom(),
            forall|id: Seq<char>| #[trigger] r@.contains(id) ==> is_root(raw@, id),
            forall|k: int| 0 <= k < i && is_root(raw@, #[trigger] all[k]) ==> r@.contains(all[k]),
        decreases ids.len() - i,
    {
        proof {
            assert(all[i as int] == ids@[i as int]@);
            assert(all.to_set().contains(all[i as int]));
        }
        if is_root_thread(raw, ids[i].as_str()) {
            r.insert(ids[i].clone());
        }
        i += 1;
    }
    proof {
        assert forall|id: Seq<char>| is_root(raw@, id) implies r@.contains(id) by {
            assert(all.to_set().contains(id));
            let k = all.index_of(id);
            assert(all[k] == id);
        }
        assert(r@ =~= roots(raw@));
    }
    r
}

impl Scan {
    fn climb_all(&mut self, root_ids: &TextSet) -> (r: TextSet)
        requires
            root_ids@ == roots(old(self).deep_view().raw),
        ensures
            r@ == included(old(self).deep_view().raw),
            final(self).deep_view() == (ScanView {
                diagnostics: old(self).deep_view().diagnostics + climb_notes(
                    old(self).deep_view().raw,
                    ordered_texts(old(self).deep_view().raw.dom()),
                ),
                relation_complete: old(self).deep_view().relation_complete && all_end(
                    old(self).deep_view().raw,
                    ordered_texts(old(self).deep_view().raw.dom()),
                ),
                ..old(self).deep_view()
            }),
    {
        let ghost start = self.deep_view();
        let ghost raw = self.raw@;
        let ids = crate::text::copy_texts(self.raw.keys());
        let ghost all = ids.deep_view();
        let mut r = TextSet::new();
        let mut i: usize = 0;
        proof {
            assert(all == ordered_texts(raw.dom()));
            assert(all.to_set() == raw.dom());
            assert(all.take(0) =~= Seq::empty());
            assert(self.diagnostics.deep_view() =~= start.diagnostics + climb_notes(
                raw,
                all.take(0),
            ));
        }
        while i < ids.len()
            invariant
                i <= ids@.len(),
                raw == start.raw,
                raw == self.raw@,
                root_ids@ == roots(raw),
                all == ids.deep_view(),
                all.to_set() == raw.dom(),
                self.storage_complete == start.storage_complete,
                self.diagnostics.deep_view() == start.diagnostics + climb_notes(
                    raw,
                    all.take(i as int),
                ),
                self.relation_complete == (start.relation_complete && all_end(
                    raw,
                    all.take(i as int),
                )),
                forall|id: Seq<char>| #[trigger] r@.contains(id) ==> in_tree(raw, id),
                forall|k: int|
                    0 <= k < i && in_tree(raw, #[trigger] all[k]) ==> r@.contains(all[k]),
            decreases ids.len() - i,
        {
            let id = ids[i].as_str();
            proof {
                assert(all[i as int] == id@);
                assert(all.to_set().contains(all[i as int]));
                assert(all.take(i as int + 1).drop_last() =~= all.take(i as int));
                assert(all.take(i as int + 1).last() == all[i as int]);
                lemma_all_end_step(raw, all, i as int);
            }
            let ghost before = self.diagnostics.deep_view();
            match climb_from(&self.raw, id) {
                Climb::Top(top) => {
                    if root_ids.contains(top.as_str()) {
                        r.insert(ids[i].clone());
                    }
                    assert(before + climb_note(raw, id@) =~= before);
                },
                Climb::Missing(last) => {
                    let note = "thread ".to_owned().concat(id).concat(
                        " has missing ancestor ",
                    ).concat(last.as_str());
                    self.doubt(note);
                    assert(before + climb_note(raw, id@) =~= before.push(note@));
                },
                Climb::Cycle => {
                    let note = "cycle detected at thread ".to_owned().concat(id);
                    self.doubt(note);
                    assert(before + climb_note(raw, id@) =~= before.push(note@));
                },
            }
            assert(self.diagnostics.deep_view() =~= start.diagnostics + climb_notes(
                raw,
                all.take(i as int + 1),
            ));
            i += 1;
        }
        proof {
            assert(all.take(i as int) =~= all);
            assert forall|id: Seq<char>| in_tree(raw, id) implies r@.contains(id) by {
                assert(all.to_set().contains(id));
                let k = all.index_of(id);
                assert(all[k] == id);
            }
            assert(r@ =~= included(raw));
        }
        r
    }

    fn check_sources(&mut self, included_ids: &TextSet)
        ensures
            final(self).deep_view() == (ScanView {
                diagnostics: old(self).deep_view().diagnostics + source_notes(
                    old(self).deep_view().raw,
                    ordered_texts(included_ids@),
                ),
                ..old(self).deep_view()
            }),
    {
        let ghost start = self.deep_view();
        let ghost raw = self.raw@;
        let ids = included_ids.items();
        let ghost all = ids.deep_view();
        let mut i: usize = 0;
        proof {
            assert(all.take(0) =~= Seq::empty());
            assert(self.diagnostics.deep_view() =~= start.diagnostics + source_notes(
                raw,
                all.take(0),
            ));
        }
        while i < ids.len()
            invariant
                i <= ids@.len(),
                raw == start.raw,
                raw == self.raw@,
                all == ids.deep_view(),
                self.storage_complete == start.storage_complete,
                self.relation_complete == start.relation_complete,
                self.diagnostics.deep_view() == start.diagnostics + source_notes(
                    raw,
                    all.take(i as int),
                ),
            decreases ids.len() - i,
        {
            let id = ids[i].as_str();
            proof {
                assert(all.take(i as int + 1).drop_last() =~= all.take(i as int));
                assert(all.take(i as int + 1).last() == id@);
            }
            let ghost before = self.diagnostics.deep_view();
            let unknown = match self.raw.get(id) {
                Some(listed) => if parse_source(&listed.dto.source).is_known() {
                    None
                } else {
                    Some(listed.dto.source.render())
                },
                None => None,
            };
            match unknown {
                Some(source) => {
                    let note = "thread ".to_owned().concat(id).concat(
                        " has an unknown source; only its interactive tree is protected: ",
                    ).concat(source.as_str());
                    self.note(note);
                    assert(before + source_note(raw, id@) =~= before.push(note@));
                },
                None => {
                    assert(before + source_note(raw, id@) =~= before);
                },
            }
            assert(self.diagnostics.deep_view() =~= start.diagnostics + source_notes(
                raw,
                all.take(i as int + 1),
            ));
            i += 1;
        }
        assert(all.take(i as int) =~= all);
    }

    /// Finds the trees, and says what their chains and sources leave open.
    pub fn close(&mut self) -> (r: Closure)
        ensures
            r.root_ids@ == roots(old(self).deep_view().raw),
            r.included_ids@ == included(old(self).deep_view().raw),
            final(self).deep_view() == closed_over(old(self).deep_view()),
    {
        let root_ids = find_roots(&self.raw);
        let included_ids = self.climb_all(&root_ids);
        self.check_sources(&included_ids);
        Closure { root_ids, included_ids }
    }
}

proof fn lemma_all_end_step(raw: Map<Seq<char>, ListedView>, ids: Seq<Seq<char>>, i: int)
    requires
        0 <= i < ids.len(),
    ensures
        all_end(raw, ids.take(i + 1)) == (all_end(raw, ids.take(i)) && climb(raw, ids[i]) is Top),
{
    let longer = ids.take(i + 1);
    let shorter = ids.take(i);
    if all_end(raw, longer) {
        assert(longer[i] == ids[i]);
        assert forall|k: int| 0 <= k < shorter.len() implies climb(
            raw,
            #[trigger] shorter[k],
        ) is Top by {
            assert(longer[k] == shorter[k]);
        }
    }
    if all_end(raw, shorter) && climb(raw, ids[i]) is Top {
        assert forall|k: int| 0 <= k < longer.len() implies climb(
            raw,
            #[trigger] longer[k],
        ) is Top by {
            if k < i {
                assert(longer[k] == shorter[k]);
            }
        }
    }
}

/// A listed thread belongs to a tree exactly where its chain of parents leads
/// to a root.
pub proof fn law_tree_members_reach_a_root(raw: Map<Seq<char>, ListedView>, id: Seq<char>)
    ensures
        in_tree(raw, id) <==> raw.contains_key(id) && exists|n: nat|
            (#[trigger] above(raw, id, n) matches Some(root) && is_root(raw, root)),
{
    if in_tree(raw, id) {
        let n = choose|n: nat| #[trigger] ends_after(raw, id, n);
        assert(above(raw, id, n) is Some);
    }
    if exists|n: nat| (#[trigger] above(raw, id, n) matches Some(root) && is_root(raw, root)) {
        let n = choose|n: nat|
            (#[trigger] above(raw, id, n) matches Some(root) && is_root(raw, root));
        assert(ends_after(raw, id, n));
        lemma_climb_ends(raw, id, n);
    }
}

proof fn lemma_one_below(raw: Map<Seq<char>, ListedView>, id: Seq<char>, n: nat)
    requires
        raw.contains_key(id),
        parent_of(raw[id].dto) is Some,
    ensures
        above(raw, id, n + 1) == above(raw, parent_of(raw[id].dto)->0, n),
    decreases n,
{
    if n > 0 {
        lemma_one_below(raw, id, (n - 1) as nat);
    } else {
        assert(above(raw, id, 0) == Some(id));
    }
}

/// With a thread, its parent belongs to a tree too.
pub proof fn law_trees_hold_parents(raw: Map<Seq<char>, ListedView>, id: Seq<char>)
    requires
        in_tree(raw, id),
        parent_of(raw[id].dto) is Some,
    ensures
        in_tree(raw, parent_of(raw[id].dto)->0),
{
    let parent = parent_of(raw[id].dto)->0;
    let n = choose|n: nat| #[trigger] ends_after(raw, id, n);
    assert(above(raw, id, 0) == Some(id));
    if n == 0 {
        assert(above(raw, id, 1) is None);
    }
    lemma_one_below(raw, id, (n - 1) as nat);
    lemma_one_below(raw, id, n);
    assert(ends_after(raw, parent, (n - 1) as nat));
    lemma_climb_ends(raw, parent, (n - 1) as nat);
    if !raw.contains_key(parent) {
        assert(above(raw, parent, 1) is None) by {
            assert(above(raw, parent, 0) == Some(parent));
        }
        if n > 1 {
            lemma_ended(raw, parent, 1, (n - 1) as nat);
        }
    }
}

fn is_root_thread(raw: &TextMap<Listed>, id: &str) -> (r: bool)
    ensures
        r == is_root(raw@, id@),
{
    match raw.get(id) {
        Some(listed) => listed.dto.parent_thread_id().is_none() && parse_source(
            &listed.dto.source,
        ).is_interactive_root(),
        None => false,
    }
}

/// Says whether a thread belongs to a tree.
pub fn belongs_to_tree(raw: &TextMap<Listed>, id: &str) -> (r: bool)
    ensures
        r == in_tree(raw@, id@),
{
    match climb_from(raw, id) {
        Climb::Top(top) => raw.get(id).is_some() && is_root_thread(raw, top.as_str()),
        _ => false,
    }
}

/// The chain of parents of a thread leads to the root.
pub open spec fn reaches(
    raw: Map<Seq<char>, ListedView>,
    start: Seq<char>,
    root: Seq<char>,
) -> bool {
    exists|n: nat| #[trigger] above(raw, start, n) == Some(root)
}

/// Says whether the chain of parents of a thread leads to the root.
pub fn raw_belongs_to_root(start: &str, root: &str, raw: &TextMap<Listed>) -> (r: bool)
    ensures
        r == reaches(raw@, start@, root@),
{
    let mut current = start.to_owned();
    let mut seen = TextSet::new();
    let size: usize = raw.len();
    let ghost map = raw@;
    let ghost mut n: nat = 0;
    let ids = raw.keys();
    proof {
        vstd::seq_lib::seq_to_set_is_finite(ids.deep_view());
    }
    loop
        invariant
            map == raw@,
            map.dom().finite(),
            size == map.dom().len(),
            above(map, start@, n) == Some(current@),
            seen@ == passed(map, start@, n),
            seen@.subset_of(map.dom()),
            forall|k: nat| k < n ==> #[trigger] above(map, start@, k) != Some(root@),
        decreases size - seen@.len(),
    {
        if same(current.as_str(), root) {
            assert(above(map, start@, n) == Some(root@));
            return true;
        }
        proof {
            lemma_passed(map, start@, n, current@);
            vstd::set_lib::lemma_len_subset(seen@, map.dom());
        }
        if seen.contains(current.as_str()) {
            proof {
                let j = choose|k: nat| k < n && #[trigger] above(map, start@, k) == Some(current@);
                assert forall|m: nat| #[trigger] above(map, start@, m) != Some(root@) by {
                    lemma_round(map, start@, n, j, m);
                }
            }
            return false;
        }
        let parent = match raw.get(current.as_str()) {
            None => None,
            Some(listed) => listed.dto.parent_thread_id(),
        };
        match parent {
            None => {
                proof {
                    assert(above(map, start@, n + 1) is None);
                    assert forall|m: nat| #[trigger] above(map, start@, m) != Some(root@) by {
                        if m > n {
                            lemma_ended(map, start@, n + 1, m);
                        }
                    }
                }
                return false;
            },
            Some(parent) => {
                proof {
                    let next = seen@.insert(current@);
                    assert(next.subset_of(map.dom()));
                    vstd::set_lib::lemma_len_subset(next, map.dom());
                }
                seen.insert(current);
                current = parent;
                proof {
                    n = n + 1;
                    assert(seen@ =~= passed(map, start@, n));
                }
            },
        }
    }
}

} // verus!
