//! What a preview offers and what of it may run, in terms of the trees of the
//! scan.

use crate::domain::{
    action_name, Action, MaintenanceCandidateView, OperationPreviewView, OperationResultView,
    PlannedTreeView, ProtectionReasonView, SessionTreeView, VaultErrorView,
};
use crate::filter::fully_archived;
use crate::ordered::{lemma_filter_member, sorted_by};
use crate::service::{
    by_root, calls_of, candidate_keys, candidate_marks, checked_plan, chosen, find_tree,
    fresh_tree, key_of_plan, lemma_calls_of, nodes_key, plan_of_tree, planned_count, planned_ids,
    previews, reasons_against, run_of, runnable, runnable_cleanup, trees_key, ExecutionPlanView,
    Run,
};
use crate::service_laws::law_nodes_key_injective;
use crate::tree::{impacted, tree_signature};
use vstd::prelude::*;

verus! {

broadcast use vstd::group_vstd_default;

/// Nothing speaks against an action on a tree exactly where the tree is not
/// protected, the record can be written and, for a deletion, every session of
/// the tree is archived. Each reason that protects the tree is given, and one
/// more for each of the other two.
pub proof fn law_what_speaks_against_a_tree(
    tree: SessionTreeView,
    action: Action,
    storage_ready: bool,
)
    ensures
        ({
            let reasons = reasons_against(tree, action, storage_ready);
            let live = exists|i: int|
                0 <= i < tree.nodes.len() && !(#[trigger] tree.nodes[i]).archived;
            let refused = action == Action::Delete && live;
            &&& reasons.len() == 0 <==> tree.protection.len() == 0 && storage_ready && !refused
            &&& reasons.len() >= tree.protection.len()
            &&& reasons.take(tree.protection.len() as int) == tree.protection
            &&& !storage_ready ==> reasons.contains(ProtectionReasonView::StorageUnavailable)
            &&& storage_ready && !refused ==> reasons == tree.protection
            &&& refused ==> reasons.len() > tree.protection.len() && reasons.last()
                is UnsafeStatus
        }),
{
    let reasons = reasons_against(tree, action, storage_ready);
    assert(fully_archived(tree.nodes) == !exists|i: int|
        0 <= i < tree.nodes.len() && !(#[trigger] tree.nodes[i]).archived);
    assert(reasons.take(tree.protection.len() as int) =~= tree.protection);
    if !storage_ready {
        assert(reasons[tree.protection.len() as int] == ProtectionReasonView::StorageUnavailable);
    }
    if storage_ready && (action != Action::Delete || fully_archived(tree.nodes)) {
        assert(reasons =~= tree.protection);
    }
}

/// The ids that a plan changes are those of its trees, and no others.
pub proof fn law_a_plan_changes_its_trees(trees: Seq<PlannedTreeView>, id: Seq<char>)
    ensures
        planned_ids(trees).contains(id) <==> exists|i: int|
            0 <= i < trees.len() && (#[trigger] trees[i]).node_ids.contains(id),
    decreases trees.len(),
{
    if trees.len() > 0 {
        let head = trees.drop_last();
        let last = trees.len() - 1;
        law_a_plan_changes_its_trees(head, id);
        let (before, now) = (planned_ids(head), planned_ids(trees));
        if now.contains(id) {
            let k = now.index_of(id);
            if k < before.len() {
                assert(before[k] == id);
                let i = choose|i: int|
                    0 <= i < head.len() && (#[trigger] head[i]).node_ids.contains(id);
                assert(trees[i].node_ids.contains(id));
            } else {
                assert(trees[last].node_ids[k - before.len()] == id);
            }
        }
        if exists|i: int| 0 <= i < trees.len() && (#[trigger] trees[i]).node_ids.contains(id) {
            let i = choose|i: int|
                0 <= i < trees.len() && (#[trigger] trees[i]).node_ids.contains(id);
            if i < last {
                assert(head[i].node_ids.contains(id));
                assert(now[before.index_of(id)] == id);
            } else {
                assert(now[before.len() + trees[last].node_ids.index_of(id)] == id);
            }
        }
    }
}

proof fn lemma_found_tree(trees: Seq<SessionTreeView>, i: int)
    requires
        0 <= i < trees.len(),
        forall|j: int, k: int|
            0 <= j < k < trees.len() ==> (#[trigger] trees[j]).root_id != (
            #[trigger] trees[k]).root_id,
    ensures
        find_tree(trees, trees[i].root_id) == Some(trees[i]),
    decreases trees.len(),
{
    let last = trees.len() - 1;
    if i < last {
        let head = trees.drop_last();
        assert(trees[i].root_id != trees[last].root_id);
        assert forall|j: int, k: int| 0 <= j < k < head.len() implies (#[trigger] head[j]).root_id
            != (#[trigger] head[k]).root_id by {
            assert(trees[j].root_id != trees[k].root_id);
        }
        lemma_found_tree(head, i);
    }
}

proof fn lemma_count(trees: Seq<PlannedTreeView>)
    ensures
        planned_ids(trees).len() <= usize::MAX ==> planned_count(trees) == planned_ids(
            trees,
        ).len(),
        planned_ids(trees).len() > usize::MAX ==> planned_count(trees) == usize::MAX,
    decreases trees.len(),
{
    if trees.len() > 0 {
        lemma_count(trees.drop_last());
    }
}

/// What was previewed runs on an unchanged scan, but for a deletion whose
/// count was not typed exactly: then it is refused for that reason. What runs
/// are the ids of the preview, for its action.
pub proof fn law_an_unchanged_preview_runs(
    trees: Seq<SessionTreeView>,
    roots: Set<Seq<char>>,
    preview: OperationPreviewView,
    confirmation: Option<usize>,
)
    requires
        previews(preview, trees, roots, preview.action, true),
        forall|i: int, j: int|
            0 <= i < j < trees.len() ==> (#[trigger] trees[i]).root_id != (
            #[trigger] trees[j]).root_id,
        forall|i: int, j: int|
            0 <= i < j < preview.trees.len() ==> (#[trigger] preview.trees[i]).root_id != (
            #[trigger] preview.trees[j]).root_id,
        forall|i: int|
            0 <= i < preview.trees.len() ==> (#[trigger] preview.trees[i]).node_ids.len() > 0,
        planned_ids(preview.trees).no_duplicates(),
        planned_ids(preview.trees).len() <= usize::MAX,
    ensures
        ({
            let typed = preview.action != Action::Delete || confirmation == Some(
                preview.impacted_count,
            );
            &&& preview.impacted_count == planned_ids(preview.trees).len()
            &&& runnable(trees, preview, confirmation) is Ok <==> typed
            &&& !typed ==> runnable(trees, preview, confirmation) == Err::<
                ExecutionPlanView,
                VaultErrorView,
            >(VaultErrorView::ConfirmationMismatch)
            &&& runnable(trees, preview, confirmation) matches Ok(plan) ==> plan.action
                == preview.action && plan.node_ids == planned_ids(preview.trees)
        }),
{
    lemma_count(preview.trees);
    let picked = chosen(trees, roots);
    let free = |t: SessionTreeView| reasons_against(t, preview.action, true).len() == 0;
    let kept = picked.filter(free);
    assert forall|i: int| 0 <= i < preview.trees.len() implies fresh_tree(
        trees,
        preview.action,
        #[trigger] preview.trees[i],
    ) by {
        let tree = kept[i];
        assert(preview.trees[i] == plan_of_tree(tree, preview.action));
        assert(kept.contains(tree));
        lemma_filter_member(picked, free, tree);
        lemma_filter_member(trees, |t: SessionTreeView| roots.contains(t.root_id), tree);
        law_what_speaks_against_a_tree(tree, preview.action, true);
        let k = trees.index_of(tree);
        assert(trees[k] == tree);
        lemma_found_tree(trees, k);
        assert(fully_archived(tree.nodes) == !exists|i: int|
            0 <= i < tree.nodes.len() && !(#[trigger] tree.nodes[i]).archived);
    }
}

/// A deletion runs only where the number of its sessions was typed, and the
/// number is asked of no other action.
pub proof fn law_only_deletions_ask_for_a_number(
    trees: Seq<SessionTreeView>,
    preview: OperationPreviewView,
    confirmation: Option<usize>,
    other: Option<usize>,
)
    ensures
        preview.action == Action::Delete && confirmation != Some(preview.impacted_count)
            ==> runnable(trees, preview, confirmation) is Err,
        preview.action != Action::Delete ==> runnable(trees, preview, confirmation) == runnable(
            trees,
            preview,
            other,
        ),
{
}

/// What a plan is made of, one behind the other: of each tree its root, its
/// state and the ids that change.
pub open spec fn spelled(trees: Seq<PlannedTreeView>) -> Seq<Seq<char>>
    decreases trees.len(),
{
    if trees.len() == 0 {
        Seq::empty()
    } else {
        spelled(trees.drop_last()) + seq![trees.last().root_id, trees.last().signature]
            + trees.last().node_ids
    }
}

proof fn lemma_nodes_key_parts(a: Seq<Seq<char>>, b: Seq<Seq<char>>)
    ensures
        nodes_key(a + b) == nodes_key(a) + nodes_key(b),
    decreases b.len(),
{
    if b.len() == 0 {
        assert(a + b =~= a);
        assert(nodes_key(a) + nodes_key(b) =~= nodes_key(a));
    } else {
        lemma_nodes_key_parts(a, b.drop_last());
        assert((a + b).drop_last() =~= a + b.drop_last());
        assert((a + b).last() == b.last());
        assert(nodes_key(a + b) =~= nodes_key(a) + nodes_key(b));
    }
}

proof fn lemma_spelled(trees: Seq<PlannedTreeView>)
    ensures
        trees_key(trees) == nodes_key(spelled(trees)),
    decreases trees.len(),
{
    if trees.len() > 0 {
        let head = trees.drop_last();
        let tree = trees.last();
        let pair = seq![tree.root_id, tree.signature];
        lemma_spelled(head);
        lemma_nodes_key_parts(spelled(head), pair);
        lemma_nodes_key_parts(spelled(head) + pair, tree.node_ids);
        reveal_with_fuel(nodes_key, 3);
        assert(pair.drop_last() =~= seq![tree.root_id]);
        assert(pair.drop_last().drop_last() =~= Seq::empty());
        assert(trees_key(trees) =~= nodes_key(spelled(trees)));
    }
}

proof fn lemma_action_names(a: Action, b: Action, x: Seq<char>, y: Seq<char>)
    requires
        action_name(a) + "|"@ + x == action_name(b) + "|"@ + y,
    ensures
        a == b,
        x == y,
{
    reveal_strlit("|");
    reveal_strlit("archive");
    reveal_strlit("restore");
    reveal_strlit("delete");
    reveal_strlit("cleanup");
    let (s, t) = (action_name(a) + "|"@ + x, action_name(b) + "|"@ + y);
    assert(s[0] == action_name(a)[0] && t[0] == action_name(b)[0]);
    assert("archive"@[0] == 'a' && "restore"@[0] == 'r' && "delete"@[0] == 'd' && "cleanup"@[0]
        == 'c');
    assert(a == b);
    let n = action_name(a).len() as int + 1;
    assert(x =~= s.skip(n));
    assert(y =~= t.skip(n));
}

/// Two plans have the same key only where they are for the same action and, in
/// the order of their roots, have the same roots, states and ids one behind
/// the other.
pub proof fn law_plan_key_tells_plans(
    action: Action,
    a: Seq<PlannedTreeView>,
    other: Action,
    b: Seq<PlannedTreeView>,
)
    requires
        key_of_plan(action, a) == key_of_plan(other, b),
    ensures
        action == other,
        spelled(sorted_by(a, by_root())) == spelled(sorted_by(b, by_root())),
{
    let (x, y) = (sorted_by(a, by_root()), sorted_by(b, by_root()));
    lemma_action_names(action, other, trees_key(x), trees_key(y));
    lemma_spelled(x);
    lemma_spelled(y);
    law_nodes_key_injective(spelled(x), spelled(y));
}

/// The signature of a planned tree tells the action, and with it the state of
/// the tree where the same ids change: a tree that changed in between is not
/// taken for the one that was planned.
pub proof fn law_plan_signature_tells_trees(
    a: SessionTreeView,
    action: Action,
    b: SessionTreeView,
    other: Action,
)
    requires
        plan_of_tree(a, action).signature == plan_of_tree(b, other).signature,
    ensures
        action == other,
        plan_of_tree(a, action).node_ids == plan_of_tree(b, other).node_ids ==> tree_signature(
            a.nodes,
        ) == tree_signature(b.nodes),
{
    let (p, q) = (tree_signature(a.nodes), tree_signature(b.nodes));
    let (m, n) = (nodes_key(impacted(a.nodes, action)), nodes_key(impacted(b.nodes, other)));
    let (x, y) = (p + "|"@ + m, q + "|"@ + n);
    assert(plan_of_tree(a, action).signature =~= action_name(action) + "|"@ + x);
    assert(plan_of_tree(b, other).signature =~= action_name(other) + "|"@ + y);
    lemma_action_names(action, other, x, y);
    if plan_of_tree(a, action).node_ids == plan_of_tree(b, other).node_ids {
        assert(p.len() == q.len());
        assert(p =~= x.take(p.len() as int));
        assert(q =~= y.take(q.len() as int));
    }
}

/// A cleanup may run exactly where each of its leftovers is found now with
/// everything that was shown of it, and none has the key of another; what runs
/// are the keys of its leftovers in their order.
pub proof fn law_a_cleanup_runs_what_is_found(
    current: Seq<MaintenanceCandidateView>,
    planned: Seq<MaintenanceCandidateView>,
)
    ensures
        runnable_cleanup(current, planned) is Ok <==> {
            &&& forall|i: int|
                0 <= i < planned.len() ==> exists|k: int|
                    0 <= k < current.len() && #[trigger] current[k] == #[trigger] planned[i]
            &&& forall|i: int, j: int|
                0 <= i < j < planned.len() ==> (#[trigger] planned[i]).key != (
                #[trigger] planned[j]).key
        },
        runnable_cleanup(current, planned) matches Err(error) ==> error
            == VaultErrorView::StalePreview,
        runnable_cleanup(current, planned) matches Ok(plan) ==> {
            &&& plan.action == Action::Cleanup
            &&& plan.node_ids.len() == planned.len()
            &&& forall|i: int|
                0 <= i < planned.len() ==> #[trigger] plan.node_ids[i] == planned[i].key
        },
{
    let keys = candidate_keys(planned);
    let found = forall|i: int| 0 <= i < planned.len() ==> current.contains(#[trigger] planned[i]);
    assert forall|i: int| 0 <= i < planned.len() implies current.contains(#[trigger] planned[i])
        == exists|k: int| 0 <= k < current.len() && #[trigger] current[k] == planned[i] by {}
    if forall|i: int|
        0 <= i < planned.len() ==> exists|k: int|
            0 <= k < current.len() && #[trigger] current[k] == #[trigger] planned[i] {
        assert(found);
    }
    if keys.no_duplicates() {
        assert forall|i: int, j: int| 0 <= i < j < planned.len() implies (
        #[trigger] planned[i]).key != (#[trigger] planned[j]).key by {
            assert(keys[i] != keys[j]);
        }
    } else {
        let (i, j) = choose|i: int, j: int|
            0 <= i < keys.len() && 0 <= j < keys.len() && i != j && keys[i] == keys[j];
        assert(planned[i].key == planned[j].key);
        if i < j {
            assert(planned[i].key == planned[j].key);
        } else {
            assert(planned[j].key == planned[i].key);
        }
    }
}

/// The record tells two cleanups apart by the keys and the fingerprints of
/// their leftovers.
pub proof fn law_cleanup_key_tells_cleanups(
    current: Seq<MaintenanceCandidateView>,
    a: Seq<MaintenanceCandidateView>,
    later: Seq<MaintenanceCandidateView>,
    b: Seq<MaintenanceCandidateView>,
)
    requires
        runnable_cleanup(current, a) is Ok,
        runnable_cleanup(later, b) is Ok,
        runnable_cleanup(current, a)->Ok_0.plan_key == runnable_cleanup(later, b)->Ok_0.plan_key,
    ensures
        a.len() == b.len(),
        forall|i: int|
            0 <= i < a.len() ==> (#[trigger] a[i]).key == b[i].key && a[i].fingerprint
                == b[i].fingerprint,
{
    lemma_action_names(
        Action::Cleanup,
        Action::Cleanup,
        nodes_key(candidate_marks(a)),
        nodes_key(candidate_marks(b)),
    );
    law_nodes_key_injective(candidate_marks(a), candidate_marks(b));
    lemma_marks(a);
    lemma_marks(b);
    assert forall|i: int| 0 <= i < a.len() implies (#[trigger] a[i]).key == b[i].key
        && a[i].fingerprint == b[i].fingerprint by {
        assert(candidate_marks(a)[2 * i] == a[i].key);
        assert(candidate_marks(b)[2 * i] == b[i].key);
        assert(candidate_marks(a)[2 * i + 1] == a[i].fingerprint);
        assert(candidate_marks(b)[2 * i + 1] == b[i].fingerprint);
    }
}

proof fn lemma_marks(a: Seq<MaintenanceCandidateView>)
    ensures
        candidate_marks(a).len() == 2 * a.len(),
        forall|i: int|
            #![trigger a[i]]
            0 <= i < a.len() ==> candidate_marks(a)[2 * i] == a[i].key && candidate_marks(a)[2 * i
                + 1] == a[i].fingerprint,
    decreases a.len(),
{
    if a.len() > 0 {
        let head = a.drop_last();
        lemma_marks(head);
        assert forall|i: int| 0 <= i < a.len() implies candidate_marks(a)[2 * i] == (
        #[trigger] a[i]).key && candidate_marks(a)[2 * i + 1] == a[i].fingerprint by {
            if i < head.len() {
                assert(head[i] == a[i]);
            }
        }
    }
}

/// The key under which a plan is recorded tells what it is for: two previews
/// that may run have the same key only where they are for the same action and
/// the same trees in the same state.
pub proof fn law_recorded_keys_tell_previews(
    trees: Seq<SessionTreeView>,
    a: OperationPreviewView,
    first: Option<usize>,
    later: Seq<SessionTreeView>,
    b: OperationPreviewView,
    second: Option<usize>,
)
    requires
        runnable(trees, a, first) is Ok,
        runnable(later, b, second) is Ok,
        runnable(trees, a, first)->Ok_0.plan_key == runnable(later, b, second)->Ok_0.plan_key,
    ensures
        a.action == b.action,
        spelled(sorted_by(a.trees, by_root())) == spelled(sorted_by(b.trees, by_root())),
{
    law_plan_key_tells_plans(a.action, a.trees, b.action, b.trees);
}

/// A preview of nothing is refused before anything is asked of the server or
/// of the record.
pub proof fn law_an_empty_preview_asks_nothing<G, S>(
    run: Run<G, S>,
    preview: OperationPreviewView,
    confirmation: Option<usize>,
    before: (G, S),
    after: (G, S),
    r: Result<OperationResultView, VaultErrorView>,
)
    requires
        run_of(run, preview, confirmation, before, after, r),
        preview.trees.len() == 0 || preview.impacted_count == 0,
    ensures
        r matches Err(error) && error is Blocked,
        after == before,
        run.answers.len() == 0,
{
}

/// What an operation reports is for the action of its preview, names the batch
/// under which it was recorded, and has one item for each session that it
/// changed and for no other.
pub proof fn law_a_run_reports_its_sessions<G, S>(
    run: Run<G, S>,
    preview: OperationPreviewView,
    confirmation: Option<usize>,
    before: (G, S),
    after: (G, S),
    result: OperationResultView,
    id: Seq<char>,
)
    requires
        run_of(run, preview, confirmation, before, after, Ok(result)),
    ensures
        result.action == preview.action,
        run.begun matches Ok(batch_id) && result.batch_id == batch_id@,
        result.items.contains_key(id) <==> exists|i: int|
            0 <= i < preview.trees.len() && (#[trigger] preview.trees[i]).node_ids.contains(id),
{
    let plan = checked_plan(run, preview, confirmation)->Ok_0;
    law_a_plan_changes_its_trees(preview.trees, id);
    lemma_calls_of(plan.node_ids, run.answers);
    let calls = calls_of(plan.node_ids, run.answers);
    assert(calls.dom().contains(id) == plan.node_ids.to_set().contains(id));
    assert(plan.node_ids.to_set().contains(id) == plan.node_ids.contains(id));
}

} // verus!
