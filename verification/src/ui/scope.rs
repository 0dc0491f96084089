//! What a filter and an action leave to choose from.

use crate::codex::thread::{blank, is_blank};
use crate::domain::{
    copy_option, Action, Filter, FilterView, MaintenanceCandidate, MaintenanceCandidateView,
    MaintenanceKind, OperationPreview, OperationPreviewView, PlannedTreeView, ProtectionReason,
    ProtectionReasonView, SessionNode, SessionNodeView, SessionTree, SessionTreeView,
};
use crate::filter::{filter_matches, fully_archived};
use crate::ordered::{ordered_texts, TextMap, TextSet};
use crate::service::{
    chosen, filter_trees, plan_of_tree, planned_count, plans, preview_trees, reasons_against,
    refusals, shown,
};
use crate::text::same;
use crate::tree::{affects, total_size};
use crate::tree_laws::law_impacted_members;
use crate::ui::measure::smaller;
use vstd::prelude::*;
use vstd::string::*;

verus! {

broadcast use vstd::group_vstd_default;

/// What the interface reads: the trees and leftovers of the last scan, the
/// present second, and whether the record can be written.
pub struct Facts<'a> {
    pub trees: &'a Vec<SessionTree>,
    pub candidates: &'a Vec<MaintenanceCandidate>,
    pub now: i64,
    pub storage_ready: bool,
}

#[verifier::ext_equal]
pub struct FactsView {
    pub trees: Seq<SessionTreeView>,
    pub candidates: Seq<MaintenanceCandidateView>,
    pub now: i64,
    pub storage_ready: bool,
}

impl<'a> DeepView for Facts<'a> {
    type V = FactsView;

    open spec fn deep_view(&self) -> FactsView {
        FactsView {
            trees: self.trees.deep_view(),
            candidates: self.candidates.deep_view(),
            now: self.now,
            storage_ready: self.storage_ready,
        }
    }
}

/// The trees that a filter shows.
pub open spec fn visible(facts: FactsView, filter: FilterView) -> Seq<SessionTreeView> {
    shown(facts.trees, filter, facts.now as int)
}

/// The preview of an action on the trees with the given roots.
pub open spec fn preview_of(
    facts: FactsView,
    roots: Set<Seq<char>>,
    action: Action,
) -> OperationPreviewView {
    let picked = chosen(facts.trees, roots);
    let planned = plans(picked, action, facts.storage_ready);
    OperationPreviewView {
        action,
        trees: planned,
        impacted_count: planned_count(planned) as usize,
        blocked: refusals(picked, action, facts.storage_ready),
    }
}

impl<'a> Facts<'a> {
    /// The trees that a filter shows.
    pub fn filtered(&self, filter: &Filter) -> (r: Vec<&'a SessionTree>)
        ensures
            r.deep_view() == visible(self.deep_view(), filter.deep_view()),
    {
        filter_trees(self.trees, filter, self.now)
    }

    /// The preview of an action on the trees with the given roots.
    pub fn preview(&self, roots: &TextSet, action: Action) -> (r: OperationPreview)
        ensures
            r.deep_view() == preview_of(self.deep_view(), roots@, action),
    {
        let r = preview_trees(self.trees, roots, action, self.storage_ready);
        assert(r.deep_view() =~= preview_of(self.deep_view(), roots@, action));
        r
    }
}

/// A tree that an action is for: what is not yet archived can be archived, and
/// what is archived as a whole can be restored or deleted.
pub open spec fn candidate_for(tree: SessionTreeView, action: Action) -> bool {
    match action {
        Action::Archive => !fully_archived(tree.nodes),
        Action::Restore => fully_archived(tree.nodes),
        Action::Delete => fully_archived(tree.nodes),
        Action::Cleanup => false,
    }
}

pub fn action_candidate(tree: &SessionTree, action: Action) -> (r: bool)
    ensures
        r == candidate_for(tree.deep_view(), action),
{
    match action {
        Action::Archive => !tree.is_fully_archived(),
        Action::Restore => tree.is_fully_archived(),
        Action::Delete => tree.is_fully_archived(),
        Action::Cleanup => false,
    }
}

/// The roots of trees.
pub open spec fn roots_of(trees: Seq<SessionTreeView>) -> Set<Seq<char>> {
    Set::new(
        |id: Seq<char>| exists|i: int| 0 <= i < trees.len() && (#[trigger] trees[i]).root_id == id,
    )
}

/// The roots of the trees that an action is for.
pub open spec fn candidate_roots(trees: Seq<SessionTreeView>, action: Action) -> Set<Seq<char>> {
    Set::new(
        |id: Seq<char>|
            exists|i: int|
                0 <= i < trees.len() && (#[trigger] trees[i]).root_id == id && candidate_for(
                    trees[i],
                    action,
                ),
    )
}

/// The roots of the planned trees that hold sessions and are among the given
/// roots.
pub open spec fn eligible_among(planned: Seq<PlannedTreeView>, roots: Set<Seq<char>>) -> Set<
    Seq<char>,
> {
    Set::new(
        |id: Seq<char>|
            roots.contains(id) && exists|i: int|
                0 <= i < planned.len() && (#[trigger] planned[i]).root_id == id
                    && planned[i].node_ids.len() > 0,
    )
}

/// How many sessions those trees hold, as far as a machine can count.
pub open spec fn impact_among(planned: Seq<PlannedTreeView>, roots: Set<Seq<char>>) -> int
    decreases planned.len(),
{
    if planned.len() == 0 {
        0
    } else {
        let before = impact_among(planned.drop_last(), roots);
        if roots.contains(planned.last().root_id) {
            smaller(before + planned.last().node_ids.len(), usize::MAX as int)
        } else {
            before
        }
    }
}

/// The reasons by the roots that they are against.
pub open spec fn reasons_by_root(
    blocked: Seq<(Seq<char>, Seq<ProtectionReasonView>)>,
) -> Map<Seq<char>, Seq<ProtectionReasonView>>
    decreases blocked.len(),
{
    if blocked.len() == 0 {
        Map::empty()
    } else {
        reasons_by_root(blocked.drop_last()).insert(blocked.last().0, blocked.last().1)
    }
}

/// What a filter and an action leave to choose from.
pub struct ScopeSummary {
    pub matched: usize,
    pub eligible: TextSet,
    pub impacted: usize,
    pub blocked: TextMap<Vec<ProtectionReason>>,
}

#[verifier::ext_equal]
pub struct ScopeView {
    pub matched: nat,
    pub eligible: Set<Seq<char>>,
    pub impacted: int,
    pub blocked: Map<Seq<char>, Seq<ProtectionReasonView>>,
}

impl DeepView for ScopeSummary {
    type V = ScopeView;

    open spec fn deep_view(&self) -> ScopeView {
        ScopeView {
            matched: self.matched as nat,
            eligible: self.eligible@,
            impacted: self.impacted as int,
            blocked: self.blocked@,
        }
    }
}

/// What of a preview can be chosen among trees.
pub open spec fn summarized(
    trees: Seq<SessionTreeView>,
    preview: OperationPreviewView,
    action: Action,
) -> ScopeView {
    let roots = candidate_roots(trees, action);
    ScopeView {
        matched: trees.len(),
        eligible: eligible_among(preview.trees, roots),
        impacted: impact_among(preview.trees, roots),
        blocked: reasons_by_root(preview.blocked),
    }
}

/// What a filter and an action leave to choose from.
pub open spec fn scope_of(facts: FactsView, filter: FilterView, action: Action) -> ScopeView {
    let trees = visible(facts, filter);
    summarized(trees, preview_of(facts, roots_of(trees), action), action)
}

fn collect_roots(trees: &Vec<&SessionTree>) -> (r: TextSet)
    ensures
        r@ == roots_of(trees.deep_view()),
{
    let ghost all = trees.deep_view();
    let mut r = TextSet::new();
    let mut i: usize = 0;
    while i < trees.len()
        invariant
            i <= trees@.len(),
            all == trees.deep_view(),
            forall|id: Seq<char>| #[trigger]
                r@.contains(id) <==> exists|k: int|
                    0 <= k < i && (#[trigger] all[k]).root_id == id,
        decreases trees.len() - i,
    {
        let ghost before = r@;
        let tree: &SessionTree = trees[i];
        assert(all[i as int] == tree.deep_view());
        r.insert(tree.root_id.clone());
        proof {
            assert forall|id: Seq<char>| #[trigger]
                r@.contains(id) <==> exists|k: int|
                    0 <= k < i + 1 && (#[trigger] all[k]).root_id == id by {
                if before.contains(id) {
                    let k = choose|k: int| 0 <= k < i && (#[trigger] all[k]).root_id == id;
                    assert(all[k].root_id == id);
                }
                if id == tree.root_id@ {
                    assert(all[i as int].root_id == id);
                }
            }
        }
        i += 1;
    }
    assert(r@ =~= roots_of(all));
    r
}

fn collect_candidates(trees: &Vec<&SessionTree>, action: Action) -> (r: TextSet)
    ensures
        r@ == candidate_roots(trees.deep_view(), action),
{
    let ghost all = trees.deep_view();
    let mut r = TextSet::new();
    let mut i: usize = 0;
    while i < trees.len()
        invariant
            i <= trees@.len(),
            all == trees.deep_view(),
            forall|id: Seq<char>| #[trigger]
                r@.contains(id) <==> exists|k: int|
                    0 <= k < i && (#[trigger] all[k]).root_id == id && candidate_for(
                        all[k],
                        action,
                    ),
        decreases trees.len() - i,
    {
        let ghost before = r@;
        let tree: &SessionTree = trees[i];
        assert(all[i as int] == tree.deep_view());
        if action_candidate(tree, action) {
            r.insert(tree.root_id.clone());
        }
        proof {
            assert forall|id: Seq<char>| #[trigger]
                r@.contains(id) <==> exists|k: int|
                    0 <= k < i + 1 && (#[trigger] all[k]).root_id == id && candidate_for(
                        all[k],
                        action,
                    ) by {
                if before.contains(id) {
                    let k = choose|k: int|
                        0 <= k < i && (#[trigger] all[k]).root_id == id && candidate_for(
                            all[k],
                            action,
                        );
                    assert(all[k].root_id == id);
                }
                if id == tree.root_id@ {
                    assert(all[i as int].root_id == id);
                }
            }
        }
        i += 1;
    }
    assert(r@ =~= candidate_roots(all, action));
    r
}

fn collect_reasons(blocked: &Vec<(String, Vec<ProtectionReason>)>) -> (r: TextMap<
    Vec<ProtectionReason>,
>)
    ensures
        r@ == reasons_by_root(blocked.deep_view()),
{
    let ghost all = blocked.deep_view();
    let mut r: TextMap<Vec<ProtectionReason>> = TextMap::new();
    let mut i: usize = 0;
    assert(all.take(0) =~= Seq::empty());
    while i < blocked.len()
        invariant
            i <= blocked@.len(),
            all == blocked.deep_view(),
            r@ == reasons_by_root(all.take(i as int)),
        decreases blocked.len() - i,
    {
        proof {
            assert(all.take(i as int + 1).drop_last() =~= all.take(i as int));
            assert(all.take(i as int + 1).last() == blocked@[i as int].deep_view());
        }
        let reasons = crate::domain::copy_list(&blocked[i].1);
        r.insert(blocked[i].0.clone(), reasons);
        i += 1;
    }
    assert(all.take(i as int) =~= all);
    r
}

/// What of a preview can be chosen among trees.
pub fn summarize_scope(
    trees: &Vec<&SessionTree>,
    preview: &OperationPreview,
    action: Action,
) -> (r: ScopeSummary)
    ensures
        r.deep_view() == summarized(trees.deep_view(), preview.deep_view(), action),
{
    let roots = collect_candidates(trees, action);
    let ghost all = preview.trees.deep_view();
    let mut eligible = TextSet::new();
    let mut impacted: usize = 0;
    let mut i: usize = 0;
    proof {
        assert(all.take(0) =~= Seq::empty());
        assert(eligible@ =~= eligible_among(all.take(0), roots@));
    }
    while i < preview.trees.len()
        invariant
            i <= preview.trees@.len(),
            all == preview.trees.deep_view(),
            eligible@ == eligible_among(all.take(i as int), roots@),
            impacted == impact_among(all.take(i as int), roots@),
        decreases preview.trees.len() - i,
    {
        let planned = &preview.trees[i];
        let ghost before = all.take(i as int);
        let ghost after = all.take(i as int + 1);
        let ghost held = eligible@;
        proof {
            assert(all[i as int] == planned.deep_view());
            assert(after.drop_last() =~= before);
            assert(after.last() == all[i as int]);
            assert(planned.node_ids.deep_view().len() == planned.node_ids@.len());
        }
        let n: usize = planned.node_ids.len();
        if n > 0 && roots.contains(planned.root_id.as_str()) {
            if impacted <= usize::MAX - n {
                impacted = impacted + n;
            } else {
                impacted = usize::MAX;
            }
            eligible.insert(planned.root_id.clone());
        }
        proof {
            assert forall|id: Seq<char>| #[trigger]
                eligible@.contains(id) <==> eligible_among(after, roots@).contains(id) by {
                if held.contains(id) {
                    let k = choose|k: int|
                        0 <= k < before.len() && (#[trigger] before[k]).root_id == id
                            && before[k].node_ids.len() > 0;
                    assert(after[k].root_id == id);
                }
                if id == planned.root_id@ && n > 0 {
                    assert(after[i as int].root_id == id);
                }
                if eligible_among(after, roots@).contains(id) {
                    let k = choose|k: int|
                        0 <= k < after.len() && (#[trigger] after[k]).root_id == id
                            && after[k].node_ids.len() > 0;
                    if k < i {
                        assert(before[k].root_id == id);
                    }
                }
            }
            assert(eligible@ =~= eligible_among(after, roots@));
        }
        i += 1;
    }
    assert(all.take(i as int) =~= all);
    ScopeSummary {
        matched: trees.len(),
        eligible,
        impacted,
        blocked: collect_reasons(&preview.blocked),
    }
}

/// What a filter and an action leave to choose from.
pub fn scope_summary(facts: &Facts, filter: &Filter, action: Action) -> (r: ScopeSummary)
    ensures
        r.deep_view() == scope_of(facts.deep_view(), filter.deep_view(), action),
{
    let trees = facts.filtered(filter);
    let roots = collect_roots(&trees);
    let preview = facts.preview(&roots, action);
    summarize_scope(&trees, &preview, action)
}

/// What can be chosen belongs to a tree that the filter shows, that the action
/// is for, and that nothing speaks against.
pub proof fn law_eligible_trees_are_free(
    facts: FactsView,
    filter: FilterView,
    action: Action,
    id: Seq<char>,
)
    requires
        scope_of(facts, filter, action).eligible.contains(id),
    ensures
        exists|tree: SessionTreeView| #[trigger]
            visible(facts, filter).contains(tree) && tree.root_id == id && candidate_for(
                tree,
                action,
            ),
        exists|tree: SessionTreeView| #[trigger]
            facts.trees.contains(tree) && tree.root_id == id && reasons_against(
                tree,
                action,
                facts.storage_ready,
            ).len() == 0,
{
    let trees = visible(facts, filter);
    let i = choose|i: int|
        0 <= i < trees.len() && (#[trigger] trees[i]).root_id == id && candidate_for(
            trees[i],
            action,
        );
    assert(trees.contains(trees[i]));
    let roots = roots_of(trees);
    let planned = preview_of(facts, roots, action).trees;
    let k = choose|k: int|
        0 <= k < planned.len() && (#[trigger] planned[k]).root_id == id
            && planned[k].node_ids.len() > 0;
    let free = |t: SessionTreeView| reasons_against(t, action, facts.storage_ready).len() == 0;
    let picked = chosen(facts.trees, roots);
    let kept = picked.filter(free);
    assert(planned[k] == plan_of_tree(kept[k], action));
    let tree = kept[k];
    assert(kept.contains(tree));
    crate::ordered::lemma_filter_member(picked, free, tree);
    assert(free(tree));
    assert(facts.trees.contains(tree)) by {
        crate::ordered::lemma_filter_member(
            facts.trees,
            |t: SessionTreeView| roots.contains(t.root_id),
            tree,
        );
    }
}

/// Every tree that the filter shows, that the action is for and that nothing
/// speaks against can be chosen.
pub proof fn law_free_trees_can_be_chosen(
    facts: FactsView,
    filter: FilterView,
    action: Action,
    tree: SessionTreeView,
)
    requires
        visible(facts, filter).contains(tree),
        tree.nodes.len() > 0,
        candidate_for(tree, action),
        reasons_against(tree, action, facts.storage_ready).len() == 0,
    ensures
        scope_of(facts, filter, action).eligible.contains(tree.root_id),
{
    let trees = visible(facts, filter);
    let i = trees.index_of(tree);
    assert(trees[i].root_id == tree.root_id);
    let roots = roots_of(trees);
    crate::ordered::lemma_filter_member(
        facts.trees,
        |t: SessionTreeView| filter_matches(filter, t, facts.now as int),
        tree,
    );
    let within = |t: SessionTreeView| roots.contains(t.root_id);
    crate::ordered::lemma_filter_member(facts.trees, within, tree);
    let picked = chosen(facts.trees, roots);
    assert(picked.contains(tree));
    let free = |t: SessionTreeView| reasons_against(t, action, facts.storage_ready).len() == 0;
    crate::ordered::lemma_filter_member(picked, free, tree);
    let kept = picked.filter(free);
    let k = kept.index_of(tree);
    let planned = preview_of(facts, roots, action).trees;
    assert(planned[k] == plan_of_tree(tree, action));
    let affected = choose|n: int|
        0 <= n < tree.nodes.len() && affects(action, (#[trigger] tree.nodes[n]).archived);
    assert(affects(action, tree.nodes[0].archived) || action is Archive);
    law_impacted_members(tree.nodes, action, tree.nodes[affected].id);
    assert(planned[k].node_ids.len() > 0);
    assert(planned[k].root_id == tree.root_id);
}

/// A selection with one entry turned over, where it may be.
pub open spec fn toggled(
    selected: Set<Seq<char>>,
    root: Seq<char>,
    eligible: bool,
) -> Set<Seq<char>> {
    if !eligible {
        selected
    } else if selected.contains(root) {
        selected.remove(root)
    } else {
        selected.insert(root)
    }
}

/// Turns an entry over, and says whether it is now selected by that.
pub fn toggle_selection(selected: &mut TextSet, root: &str, eligible: bool) -> (r: bool)
    ensures
        final(selected)@ == toggled(old(selected)@, root@, eligible),
        r == (eligible && !old(selected)@.contains(root@)),
{
    if !eligible {
        return false;
    }
    if selected.remove(root) {
        false
    } else {
        let ghost before = selected@;
        assert(before =~= old(selected)@);
        selected.insert(root.to_owned());
        true
    }
}

/// Turning an entry over twice changes nothing.
pub proof fn law_toggle_twice(selected: Set<Seq<char>>, root: Seq<char>, eligible: bool)
    ensures
        toggled(toggled(selected, root, eligible), root, eligible) == selected,
{
    assert(toggled(toggled(selected, root, eligible), root, eligible) =~= selected);
}

/// Selects exactly what can be chosen.
pub fn select_all_eligible(selected: &mut TextSet, scope: &ScopeSummary)
    ensures
        final(selected)@ == scope.eligible@,
{
    *selected = scope.eligible.clone();
}

/// The keys of the candidates of a kind.
pub open spec fn keys_of_kind(
    candidates: Seq<MaintenanceCandidateView>,
    kind: MaintenanceKind,
) -> Set<Seq<char>> {
    Set::new(
        |key: Seq<char>|
            exists|i: int|
                0 <= i < candidates.len() && (#[trigger] candidates[i]).key == key
                    && candidates[i].kind == kind,
    )
}

/// A selection with a kind turned over: where all of it is selected it goes,
/// else all of it comes.
pub open spec fn kind_toggled(
    selected: Set<Seq<char>>,
    candidates: Seq<MaintenanceCandidateView>,
    kind: MaintenanceKind,
) -> Set<Seq<char>> {
    let keys = keys_of_kind(candidates, kind);
    if keys.subset_of(selected) {
        selected.difference(keys)
    } else {
        selected.union(keys)
    }
}

fn collect_kind(candidates: &Vec<MaintenanceCandidate>, kind: MaintenanceKind) -> (r: TextSet)
    ensures
        r@ == keys_of_kind(candidates.deep_view(), kind),
{
    let ghost all = candidates.deep_view();
    let mut r = TextSet::new();
    let mut i: usize = 0;
    while i < candidates.len()
        invariant
            i <= candidates@.len(),
            all == candidates.deep_view(),
            forall|key: Seq<char>| #[trigger]
                r@.contains(key) <==> exists|k: int|
                    0 <= k < i && (#[trigger] all[k]).key == key && all[k].kind == kind,
        decreases candidates.len() - i,
    {
        let ghost before = r@;
        let candidate = &candidates[i];
        assert(all[i as int] == candidate.deep_view());
        if candidate.kind == kind {
            r.insert(candidate.key.clone());
        }
        proof {
            assert forall|key: Seq<char>| #[trigger]
                r@.contains(key) <==> exists|k: int|
                    0 <= k < i + 1 && (#[trigger] all[k]).key == key && all[k].kind == kind by {
                if before.contains(key) {
                    let k = choose|k: int|
                        0 <= k < i && (#[trigger] all[k]).key == key && all[k].kind == kind;
                    assert(all[k].key == key);
                }
                if key == candidate.key@ {
                    assert(all[i as int].key == key);
                }
            }
        }
        i += 1;
    }
    assert(r@ =~= keys_of_kind(all, kind));
    r
}

/// Turns a kind of leftovers over.
pub fn toggle_maintenance_kind(
    selected: &mut TextSet,
    candidates: &Vec<MaintenanceCandidate>,
    kind: MaintenanceKind,
)
    ensures
        final(selected)@ == kind_toggled(old(selected)@, candidates.deep_view(), kind),
{
    let keys = collect_kind(candidates, kind);
    let all_selected = crate::codex::pins::all_in(&keys, selected);
    let items = keys.items();
    let ghost all = items.deep_view();
    let ghost start = selected@;
    let mut i: usize = 0;
    while i < items.len()
        invariant
            i <= items@.len(),
            all == items.deep_view(),
            all.to_set() == keys@,
            forall|key: Seq<char>| #[trigger]
                selected@.contains(key) <==> if exists|k: int| 0 <= k < i && #[trigger] all[k] == key {
                    !all_selected
                } else {
                    start.contains(key)
                },
        decreases items.len() - i,
    {
        let ghost before = selected@;
        assert(all[i as int] == items@[i as int]@);
        if all_selected {
            selected.remove(items[i].as_str());
        } else {
            selected.insert(items[i].clone());
        }
        proof {
            assert forall|key: Seq<char>| #[trigger]
                selected@.contains(key) <==> if exists|k: int|
                    0 <= k < i + 1 && #[trigger] all[k] == key {
                    !all_selected
                } else {
                    start.contains(key)
                } by {
                if key == all[i as int] {
                } else if exists|k: int| 0 <= k < i + 1 && #[trigger] all[k] == key {
                    let k = choose|k: int| 0 <= k < i + 1 && #[trigger] all[k] == key;
                    assert(k < i);
                }
            }
        }
        i += 1;
    }
    proof {
        assert forall|key: Seq<char>|
            keys@.contains(key) <==> exists|k: int|
                0 <= k < all.len() && #[trigger] all[k] == key by {
            if keys@.contains(key) {
                assert(all.to_set().contains(key));
                let k = all.index_of(key);
                assert(all[k] == key);
            }
            if exists|k: int| 0 <= k < all.len() && #[trigger] all[k] == key {
                let k = choose|k: int| 0 <= k < all.len() && #[trigger] all[k] == key;
                assert(all.to_set().contains(all[k]));
            }
        }
        assert(selected@ =~= kind_toggled(start, candidates.deep_view(), kind));
    }
}

/// Turning a kind over twice leaves all of it selected or none of it.
pub proof fn law_kind_toggle_settles(
    selected: Set<Seq<char>>,
    candidates: Seq<MaintenanceCandidateView>,
    kind: MaintenanceKind,
)
    ensures
        ({
            let keys = keys_of_kind(candidates, kind);
            let once = kind_toggled(selected, candidates, kind);
            let twice = kind_toggled(once, candidates, kind);
            if keys.subset_of(selected) {
                keys.disjoint(once) && keys.subset_of(twice)
            } else {
                keys.subset_of(once) && keys.disjoint(twice)
            }
        }),
{
    let keys = keys_of_kind(candidates, kind);
    let once = kind_toggled(selected, candidates, kind);
    if keys.subset_of(selected) && keys.subset_of(once) {
        assert forall|key: Seq<char>| keys.contains(key) implies false by {
            assert(once.contains(key));
        }
    }
}

/// Where a session is: its project, else its directory.
pub open spec fn place_of(node: SessionNodeView) -> Seq<char> {
    match node.project {
        Some(project) => project,
        None => node.cwd,
    }
}

/// The places of the sessions of trees that are not blank.
pub open spec fn places(trees: Seq<SessionTreeView>) -> Set<Seq<char>> {
    Set::new(
        |place: Seq<char>|
            !blank(place) && exists|i: int, k: int|
                0 <= i < trees.len() && 0 <= k < trees[i].nodes.len() && place_of(
                    #[trigger] trees[i].nodes[k],
                ) == place,
    )
}

/// What the project can be set to: all of them, or one of the places.
pub open spec fn project_choices(trees: Seq<SessionTreeView>) -> Seq<Option<Seq<char>>> {
    seq![None::<Seq<char>>] + ordered_texts(places(trees)).map_values(
        |place: Seq<char>| Some(place),
    )
}

fn node_place(node: &SessionNode) -> (r: String)
    ensures
        r@ == place_of(node.deep_view()),
{
    match &node.project {
        Some(project) => project.clone(),
        None => node.cwd.clone(),
    }
}

/// Some session of the first trees is at a place.
spec fn seen_at(trees: Seq<SessionTreeView>, n: int, m: int, place: Seq<char>) -> bool {
    exists|i: int, k: int|
        0 <= i < trees.len() && 0 <= k < trees[i].nodes.len() && (i < n || (i == n && k < m))
            && place_of(#[trigger] trees[i].nodes[k]) == place
}

fn collect_places(trees: &Vec<SessionTree>) -> (r: TextSet)
    ensures
        r@ == places(trees.deep_view()),
{
    let ghost all = trees.deep_view();
    let mut r = TextSet::new();
    let mut i: usize = 0;
    while i < trees.len()
        invariant
            i <= trees@.len(),
            all == trees.deep_view(),
            forall|place: Seq<char>| #[trigger]
                r@.contains(place) <==> !blank(place) && seen_at(all, i as int, 0, place),
        decreases trees.len() - i,
    {
        let nodes = &trees[i].nodes;
        let ghost here = all[i as int].nodes;
        assert(here == nodes.deep_view());
        let mut k: usize = 0;
        while k < nodes.len()
            invariant
                i < trees@.len(),
                k <= nodes@.len(),
                all == trees.deep_view(),
                here == all[i as int].nodes,
                here == nodes.deep_view(),
                forall|place: Seq<char>| #[trigger]
                    r@.contains(place) <==> !blank(place) && seen_at(
                        all,
                        i as int,
                        k as int,
                        place,
                    ),
            decreases nodes.len() - k,
        {
            let ghost before = r@;
            let place = node_place(&nodes[k]);
            let ghost here_place = place@;
            assert(here[k as int] == nodes@[k as int].deep_view());
            if !is_blank(place.as_str()) {
                r.insert(place);
            }
            proof {
                assert forall|p: Seq<char>| #[trigger]
                    r@.contains(p) <==> !blank(p) && seen_at(
                        all,
                        i as int,
                        k as int + 1,
                        p,
                    ) by {
                    lemma_seen_step(all, i as int, k as int, p);
                }
            }
            k += 1;
        }
        proof {
            assert forall|p: Seq<char>| #[trigger]
                r@.contains(p) <==> !blank(p) && seen_at(all, i as int + 1, 0, p) by {
                lemma_seen_tree(all, i as int, p);
            }
        }
        i += 1;
    }
    proof {
        assert forall|p: Seq<char>| #[trigger] r@.contains(p) <==> places(all).contains(p) by {
            if seen_at(all, all.len() as int, 0, p) {
                let (a, b) = choose|a: int, b: int|
                    0 <= a < all.len() && 0 <= b < all[a].nodes.len() && (a < all.len() || (a
                        == all.len() && b < 0)) && place_of(#[trigger] all[a].nodes[b]) == p;
                assert(place_of(all[a].nodes[b]) == p);
            }
            if places(all).contains(p) {
                let (a, b) = choose|a: int, b: int|
                    0 <= a < all.len() && 0 <= b < all[a].nodes.len() && place_of(
                        #[trigger] all[a].nodes[b],
                    ) == p;
                assert(place_of(all[a].nodes[b]) == p);
                assert(seen_at(all, all.len() as int, 0, p));
            }
        }
        assert(r@ =~= places(all));
    }
    r
}

proof fn lemma_seen_step(trees: Seq<SessionTreeView>, n: int, m: int, place: Seq<char>)
    requires
        0 <= n < trees.len(),
        0 <= m < trees[n].nodes.len(),
    ensures
        seen_at(trees, n, m + 1, place) <==> seen_at(trees, n, m, place) || place_of(
            trees[n].nodes[m],
        ) == place,
{
    if seen_at(trees, n, m, place) {
        let (a, b) = choose|a: int, b: int|
            0 <= a < trees.len() && 0 <= b < trees[a].nodes.len() && (a < n || (a == n && b < m))
                && place_of(#[trigger] trees[a].nodes[b]) == place;
        assert(place_of(trees[a].nodes[b]) == place);
    }
    if place_of(trees[n].nodes[m]) == place {
        assert(seen_at(trees, n, m + 1, place));
    }
    if seen_at(trees, n, m + 1, place) {
        let (a, b) = choose|a: int, b: int|
            0 <= a < trees.len() && 0 <= b < trees[a].nodes.len() && (a < n || (a == n && b < m
                + 1)) && place_of(#[trigger] trees[a].nodes[b]) == place;
        assert(place_of(trees[a].nodes[b]) == place);
    }
}

proof fn lemma_seen_tree(trees: Seq<SessionTreeView>, n: int, place: Seq<char>)
    requires
        0 <= n < trees.len(),
    ensures
        seen_at(trees, n + 1, 0, place) <==> seen_at(
            trees,
            n,
            trees[n].nodes.len() as int,
            place,
        ),
{
    if seen_at(trees, n + 1, 0, place) {
        let (a, b) = choose|a: int, b: int|
            0 <= a < trees.len() && 0 <= b < trees[a].nodes.len() && (a < n + 1 || (a == n + 1
                && b < 0)) && place_of(#[trigger] trees[a].nodes[b]) == place;
        assert(place_of(trees[a].nodes[b]) == place);
    }
    if seen_at(trees, n, trees[n].nodes.len() as int, place) {
        let (a, b) = choose|a: int, b: int|
            0 <= a < trees.len() && 0 <= b < trees[a].nodes.len() && (a < n || (a == n && b
                < trees[n].nodes.len())) && place_of(#[trigger] trees[a].nodes[b]) == place;
        assert(place_of(trees[a].nodes[b]) == place);
    }
}

/// What the project can be set to.
pub fn project_options(trees: &Vec<SessionTree>) -> (r: Vec<Option<String>>)
    ensures
        r.deep_view() == project_choices(trees.deep_view()),
        r@.len() > 0,
{
    let places = collect_places(trees);
    let items = places.items();
    let ghost all = items.deep_view();
    let ghost want = project_choices(trees.deep_view());
    let mut r: Vec<Option<String>> = Vec::new();
    r.push(None);
    let mut i: usize = 0;
    assert(r.deep_view() =~= want.take(1));
    while i < items.len()
        invariant
            i <= items@.len(),
            all == items.deep_view(),
            want == seq![None::<Seq<char>>] + all.map_values(|place: Seq<char>| Some(place)),
            r.deep_view() == want.take(i as int + 1),
            r@.len() == i + 1,
        decreases items.len() - i,
    {
        let ghost before = r.deep_view();
        r.push(Some(items[i].clone()));
        proof {
            assert(r.deep_view() =~= before.push(Some(all[i as int])));
            assert(r.deep_view() =~= want.take(i as int + 2));
        }
        i += 1;
    }
    assert(want.take(i as int + 1) =~= want);
    r
}

/// The first place of a value among choices.
pub open spec fn found_among(choices: Seq<Option<Seq<char>>>, value: Option<Seq<char>>) -> Option<
    int,
>
    decreases choices.len(),
{
    if choices.len() == 0 {
        None
    } else {
        match found_among(choices.drop_last(), value) {
            Some(at) => Some(at),
            None => if choices.last() == value {
                Some(choices.len() - 1)
            } else {
                None
            },
        }
    }
}

/// The place of a value among choices; the first place where it is not among
/// them.
pub open spec fn place_among(choices: Seq<Option<Seq<char>>>, value: Option<Seq<char>>) -> int {
    match found_among(choices, value) {
        Some(at) => at,
        None => 0,
    }
}

pub proof fn lemma_found_first(
    choices: Seq<Option<Seq<char>>>,
    value: Option<Seq<char>>,
    i: int,
)
    requires
        0 <= i <= choices.len(),
        forall|k: int| 0 <= k < i ==> #[trigger] choices[k] != value,
        i < choices.len() ==> choices[i] == value,
    ensures
        found_among(choices, value) == if i < choices.len() {
            Some(i)
        } else {
            None
        },
    decreases choices.len(),
{
    if choices.len() > 0 {
        let head = choices.drop_last();
        let j = if i < choices.len() {
            i
        } else {
            i - 1
        };
        assert forall|k: int| 0 <= k < j implies #[trigger] head[k] != value by {
            assert(head[k] == choices[k]);
        }
        if i < choices.len() {
            if i < head.len() {
                assert(head[i] == choices[i]);
            }
            lemma_found_first(head, value, i);
        } else {
            lemma_found_first(head, value, i - 1);
            assert(choices[choices.len() - 1] != value);
        }
    }
}

fn same_choice(a: &Option<String>, b: &Option<String>) -> (r: bool)
    ensures
        r == (a.deep_view() == b.deep_view()),
{
    match (a, b) {
        (Some(x), Some(y)) => same(x.as_str(), y.as_str()),
        (None, None) => true,
        _ => false,
    }
}

/// The place of a value among choices.
pub fn choice_index(choices: &Vec<Option<String>>, value: &Option<String>) -> (r: usize)
    ensures
        r == place_among(choices.deep_view(), value.deep_view()),
        choices@.len() > 0 ==> r < choices@.len(),
        choices@.len() == 0 ==> r == 0,
{
    let ghost all = choices.deep_view();
    let mut i: usize = 0;
    while i < choices.len()
        invariant
            i <= choices@.len(),
            all == choices.deep_view(),
            forall|k: int| 0 <= k < i ==> #[trigger] all[k] != value.deep_view(),
        decreases choices.len() - i,
    {
        assert(all[i as int] == choices@[i as int].deep_view());
        if same_choice(&choices[i], value) {
            proof {
                lemma_found_first(all, value.deep_view(), i as int);
            }
            return i;
        }
        i += 1;
    }
    proof {
        lemma_found_first(all, value.deep_view(), i as int);
    }
    0
}

/// A project, with what of it the filter shows.
#[derive(Debug, PartialEq, Eq)]
pub struct ProjectTab {
    pub value: Option<String>,
    pub count: usize,
    pub storage_bytes: Option<u64>,
}

#[verifier::ext_equal]
pub struct ProjectTabView {
    pub value: Option<Seq<char>>,
    pub count: usize,
    pub storage_bytes: Option<u64>,
}

impl DeepView for ProjectTab {
    type V = ProjectTabView;

    open spec fn deep_view(&self) -> ProjectTabView {
        ProjectTabView {
            value: self.value.deep_view(),
            count: self.count,
            storage_bytes: self.storage_bytes,
        }
    }
}

/// The sum of the sizes of trees, where all are known and the sum fits.
pub open spec fn trees_size(trees: Seq<SessionTreeView>) -> Option<int>
    decreases trees.len(),
{
    if trees.len() == 0 {
        Some(0)
    } else {
        match (trees_size(trees.drop_last()), total_size(trees.last().nodes)) {
            (Some(sum), Some(size)) => if sum + size <= u64::MAX {
                Some(sum + size)
            } else {
                None
            },
            _ => None,
        }
    }
}

/// The tab of a project.
pub open spec fn tab_of(
    facts: FactsView,
    filter: FilterView,
    value: Option<Seq<char>>,
) -> ProjectTabView {
    let trees = visible(facts, FilterView { project: value, ..filter });
    ProjectTabView {
        value,
        count: trees.len() as usize,
        storage_bytes: match trees_size(trees) {
            Some(size) => Some(size as u64),
            None => None,
        },
    }
}

/// The tabs of the projects.
pub open spec fn tabs_of(facts: FactsView, filter: FilterView) -> Seq<ProjectTabView> {
    project_choices(facts.trees).map_values(
        |value: Option<Seq<char>>| tab_of(facts, filter, value),
    )
}

proof fn lemma_size_unknown(trees: Seq<SessionTreeView>, i: int)
    requires
        0 <= i <= trees.len(),
        trees_size(trees.take(i)) is None,
    ensures
        trees_size(trees) is None,
    decreases trees.len() - i,
{
    if i < trees.len() {
        assert(trees.take(i + 1).drop_last() =~= trees.take(i));
        lemma_size_unknown(trees, i + 1);
    } else {
        assert(trees.take(i) =~= trees);
    }
}

fn sum_sizes(trees: &Vec<&SessionTree>) -> (r: Option<u64>)
    ensures
        match trees_size(trees.deep_view()) {
            Some(size) => r matches Some(n) && n == size,
            None => r is None,
        },
{
    let ghost all = trees.deep_view();
    let mut sum: u64 = 0;
    let mut i: usize = 0;
    assert(all.take(0) =~= Seq::empty());
    while i < trees.len()
        invariant
            i <= trees@.len(),
            all == trees.deep_view(),
            trees_size(all.take(i as int)) == Some(sum as int),
        decreases trees.len() - i,
    {
        let tree: &SessionTree = trees[i];
        proof {
            assert(all.take(i as int + 1).drop_last() =~= all.take(i as int));
            assert(all.take(i as int + 1).last() == tree.deep_view());
            if trees_size(all.take(i as int + 1)) is None {
                lemma_size_unknown(all, i as int + 1);
            }
        }
        match tree.storage_bytes() {
            Some(size) => {
                if size > u64::MAX - sum {
                    return None;
                }
                sum = sum + size;
            },
            None => {
                return None;
            },
        }
        i += 1;
    }
    assert(all.take(i as int) =~= all);
    Some(sum)
}

/// The tabs of the projects.
pub fn project_tabs(facts: &Facts, filter: &Filter) -> (r: Vec<ProjectTab>)
    ensures
        r.deep_view() == tabs_of(facts.deep_view(), filter.deep_view()),
{
    let options = project_options(facts.trees);
    let ghost fv = facts.deep_view();
    let ghost want = tabs_of(fv, filter.deep_view());
    let mut r: Vec<ProjectTab> = Vec::new();
    let mut i: usize = 0;
    assert(r.deep_view() =~= want.take(0));
    while i < options.len()
        invariant
            i <= options@.len(),
            fv == facts.deep_view(),
            options.deep_view() == project_choices(fv.trees),
            want == tabs_of(fv, filter.deep_view()),
            r.deep_view() == want.take(i as int),
        decreases options.len() - i,
    {
        let ghost before = r.deep_view();
        let narrowed = Filter {
            cutoff: filter.cutoff,
            project: copy_option(&options[i]),
            query: copy_option(&filter.query),
            archived: filter.archived,
        };
        let trees = facts.filtered(&narrowed);
        let tab = ProjectTab {
            value: copy_option(&options[i]),
            count: trees.len(),
            storage_bytes: sum_sizes(&trees),
        };
        proof {
            assert(options.deep_view()[i as int] == options@[i as int].deep_view());
            assert(trees.deep_view().len() == trees@.len());
            assert(tab.deep_view() =~= want[i as int]);
        }
        r.push(tab);
        assert(r.deep_view() =~= before.push(tab.deep_view()));
        assert(r.deep_view() =~= want.take(i as int + 1));
        i += 1;
    }
    assert(want.take(i as int) =~= want);
    r
}

} // verus!
