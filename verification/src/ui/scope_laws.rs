//! Which trees can be chosen for an action and how they are summed up, in
//! terms of their sessions.

use crate::domain::{
    Action, FilterView, MaintenanceCandidateView, MaintenanceKind, PlannedTreeView,
    ProtectionReasonView, SessionNodeView, SessionTreeView,
};
use crate::filter::{filter_matches, fully_archived};
use crate::ordered::{lemma_ordered_members, ordered_texts};
use crate::plan_laws::law_what_speaks_against_a_tree;
use crate::query_laws::law_only_matching_trees_are_shown;
use crate::service::reasons_against;
use crate::text::text_lt;
use crate::text_laws::{all_white, law_trimming_takes_white_space_off_the_ends};
use crate::tree::total_size;
use crate::ui::scope::{
    candidate_for, impact_among, keys_of_kind, kind_toggled, law_eligible_trees_are_free,
    law_free_trees_can_be_chosen, lemma_found_first, place_among, place_of, places,
    project_choices, reasons_by_root, scope_of, tabs_of, toggled, trees_size, visible,
    FactsView,
};
use vstd::prelude::*;

verus! {

broadcast use vstd::group_vstd_default;

/// Archiving is for the trees with a session that is not archived; restoring
/// and deleting are for those without one; a cleanup is for no tree.
pub proof fn law_which_trees_an_action_is_for(tree: SessionTreeView)
    ensures
        ({
            let live = exists|i: int|
                0 <= i < tree.nodes.len() && !(#[trigger] tree.nodes[i]).archived;
            &&& candidate_for(tree, Action::Archive) <==> live
            &&& candidate_for(tree, Action::Restore) <==> !live
            &&& candidate_for(tree, Action::Delete) <==> !live
            &&& !candidate_for(tree, Action::Cleanup)
        }),
{
    assert(fully_archived(tree.nodes) == !exists|i: int|
        0 <= i < tree.nodes.len() && !(#[trigger] tree.nodes[i]).archived);
}

/// What can be chosen is the root of a tree that the filter shows and the
/// action is for, and of one that is not protected, while the record can be
/// written; and every such tree that has a session can be chosen.
pub proof fn law_which_trees_can_be_chosen(
    facts: FactsView,
    filter: FilterView,
    action: Action,
    tree: SessionTreeView,
    id: Seq<char>,
)
    ensures
        scope_of(facts, filter, action).eligible.contains(id) ==> {
            &&& facts.storage_ready
            &&& exists|t: SessionTreeView| #[trigger]
                facts.trees.contains(t) && t.root_id == id && filter_matches(
                    filter,
                    t,
                    facts.now as int,
                ) && candidate_for(t, action)
            &&& exists|t: SessionTreeView| #[trigger]
                facts.trees.contains(t) && t.root_id == id && t.protection.len() == 0
        },
        facts.trees.contains(tree) && filter_matches(filter, tree, facts.now as int)
            && tree.nodes.len() > 0 && candidate_for(tree, action) && tree.protection.len() == 0
            && facts.storage_ready ==> scope_of(facts, filter, action).eligible.contains(
            tree.root_id,
        ),
        scope_of(facts, filter, action).matched == visible(facts, filter).len(),
{
    if scope_of(facts, filter, action).eligible.contains(id) {
        law_eligible_trees_are_free(facts, filter, action, id);
        let a = choose|t: SessionTreeView| #[trigger]
            visible(facts, filter).contains(t) && t.root_id == id && candidate_for(t, action);
        law_only_matching_trees_are_shown(facts.trees, filter, facts.now as int, a);
        assert(facts.trees.contains(a));
        let b = choose|t: SessionTreeView| #[trigger]
            facts.trees.contains(t) && t.root_id == id && reasons_against(
                t,
                action,
                facts.storage_ready,
            ).len() == 0;
        law_what_speaks_against_a_tree(b, action, facts.storage_ready);
        assert(facts.trees.contains(b));
    }
    if facts.trees.contains(tree) && filter_matches(filter, tree, facts.now as int)
        && tree.nodes.len() > 0 && candidate_for(tree, action) && tree.protection.len() == 0
        && facts.storage_ready {
        law_only_matching_trees_are_shown(facts.trees, filter, facts.now as int, tree);
        law_what_speaks_against_a_tree(tree, action, true);
        law_which_trees_an_action_is_for(tree);
        law_free_trees_can_be_chosen(facts, filter, action, tree);
    }
}

/// The sessions that an action would change are counted over the chosen trees:
/// two plans count together what each counts, and a tree counts its own ids
/// where it is chosen.
pub proof fn law_impacts_add_up(
    a: Seq<PlannedTreeView>,
    b: Seq<PlannedTreeView>,
    tree: PlannedTreeView,
    roots: Set<Seq<char>>,
)
    requires
        tree.node_ids.len() <= usize::MAX,
    ensures
        impact_among(Seq::empty(), roots) == 0,
        impact_among(seq![tree], roots) == if roots.contains(tree.root_id) {
            tree.node_ids.len() as int
        } else {
            0
        },
        ({
            let sum = impact_among(a, roots) + impact_among(b, roots);
            impact_among(a + b, roots) == if sum <= usize::MAX {
                sum
            } else {
                usize::MAX as int
            }
        }),
    decreases b.len(),
{
    reveal_with_fuel(impact_among, 2);
    assert(seq![tree].drop_last() =~= Seq::empty());
    lemma_impact_bounded(a, roots);
    if b.len() == 0 {
        assert(a + b =~= a);
    } else {
        law_impacts_add_up(a, b.drop_last(), tree, roots);
        lemma_impact_bounded(b.drop_last(), roots);
        assert((a + b).drop_last() =~= a + b.drop_last());
        assert((a + b).last() == b.last());
    }
}

proof fn lemma_impact_bounded(a: Seq<PlannedTreeView>, roots: Set<Seq<char>>)
    ensures
        0 <= impact_among(a, roots) <= usize::MAX,
    decreases a.len(),
{
    if a.len() > 0 {
        lemma_impact_bounded(a.drop_last(), roots);
    }
}

/// The reasons against a tree are those that are listed last under its root,
/// and there are none for a root that is not listed.
pub proof fn law_reasons_are_found_by_root(
    blocked: Seq<(Seq<char>, Seq<ProtectionReasonView>)>,
    root: Seq<char>,
    i: int,
)
    requires
        -1 <= i < blocked.len(),
        i >= 0 ==> blocked[i].0 == root,
        forall|k: int| i < k < blocked.len() ==> (#[trigger] blocked[k]).0 != root,
    ensures
        reasons_by_root(blocked).contains_key(root) <==> i >= 0,
        i >= 0 ==> reasons_by_root(blocked)[root] == blocked[i].1,
    decreases blocked.len(),
{
    if blocked.len() > 0 && i < blocked.len() - 1 {
        let head = blocked.drop_last();
        assert(blocked[blocked.len() - 1].0 != root);
        assert forall|k: int| i < k < head.len() implies (#[trigger] head[k]).0 != root by {
            assert(blocked[k].0 != root);
        }
        law_reasons_are_found_by_root(head, root, i);
    }
}

/// Turning a tree over takes it in or out, where it can be chosen, and leaves
/// every other tree as it is.
pub proof fn law_turning_one_over(
    selected: Set<Seq<char>>,
    root: Seq<char>,
    eligible: bool,
    other: Seq<char>,
)
    ensures
        toggled(selected, root, eligible).contains(root) <==> selected.contains(root) != eligible,
        other != root ==> toggled(selected, root, eligible).contains(other) == selected.contains(
            other,
        ),
{
}

/// Turning a kind of leftovers over selects all of it, or none where all of it
/// was selected, and leaves every other leftover as it is.
pub proof fn law_turning_a_kind_over(
    selected: Set<Seq<char>>,
    candidates: Seq<MaintenanceCandidateView>,
    kind: MaintenanceKind,
    key: Seq<char>,
)
    ensures
        ({
            let of_kind = |k: Seq<char>|
                exists|i: int|
                    0 <= i < candidates.len() && (#[trigger] candidates[i]).key == k
                        && candidates[i].kind == kind;
            let all = forall|i: int|
                0 <= i < candidates.len() && (#[trigger] candidates[i]).kind == kind
                    ==> selected.contains(candidates[i].key);
            kind_toggled(selected, candidates, kind).contains(key) <==> if of_kind(key) {
                !all
            } else {
                selected.contains(key)
            }
        }),
{
    let keys = keys_of_kind(candidates, kind);
    if keys.subset_of(selected) {
        assert forall|i: int|
            0 <= i < candidates.len() && (#[trigger] candidates[i]).kind == kind implies
            selected.contains(candidates[i].key) by {
            assert(keys.contains(candidates[i].key));
        }
    } else {
        let lost = choose|k: Seq<char>| keys.contains(k) && !selected.contains(k);
        assert(keys.contains(lost) && !selected.contains(lost));
        let i = choose|i: int|
            0 <= i < candidates.len() && (#[trigger] candidates[i]).key == lost
                && candidates[i].kind == kind;
        assert(candidates[i].kind == kind && !selected.contains(candidates[i].key));
    }
}

/// The choices of a project are first none, then in their order and once each
/// the projects of all sessions, or the directory of a session without one,
/// but for those that are blank.
pub proof fn law_which_projects_can_be_chosen(trees: Seq<SessionTreeView>, place: Seq<char>)
    requires
        places(trees).finite(),
    ensures
        project_choices(trees)[0] is None,
        project_choices(trees).contains(Some(place)) <==> !all_white(place) && exists|
            i: int,
            k: int,
        |
            0 <= i < trees.len() && 0 <= k < trees[i].nodes.len() && place == if (
            #[trigger] trees[i].nodes[k]).project is Some {
                trees[i].nodes[k].project->0
            } else {
                trees[i].nodes[k].cwd
            },
        forall|i: int, k: int|
            0 < i < k < project_choices(trees).len() ==> text_lt(
                (#[trigger] project_choices(trees)[i])->0,
                (#[trigger] project_choices(trees)[k])->0,
            ),
{
    let all = places(trees);
    let choices = project_choices(trees);
    let order = ordered_texts(all);
    lemma_ordered_members(all);
    law_trimming_takes_white_space_off_the_ends(place);
    if choices.contains(Some(place)) {
        let k = choices.index_of(Some(place));
        assert(k > 0);
        assert(order[k - 1] == place);
        assert(order.to_set().contains(place));
        assert(all.contains(place));
        let (i, m) = choose|i: int, m: int|
            0 <= i < trees.len() && 0 <= m < trees[i].nodes.len() && place_of(
                #[trigger] trees[i].nodes[m],
            ) == place;
        assert(place_of(trees[i].nodes[m]) == place);
    }
    if !all_white(place) && exists|i: int, k: int|
        0 <= i < trees.len() && 0 <= k < trees[i].nodes.len() && place == if (
        #[trigger] trees[i].nodes[k]).project is Some {
            trees[i].nodes[k].project->0
        } else {
            trees[i].nodes[k].cwd
        } {
        let (i, m) = choose|i: int, k: int|
            0 <= i < trees.len() && 0 <= k < trees[i].nodes.len() && place == if (
            #[trigger] trees[i].nodes[k]).project is Some {
                trees[i].nodes[k].project->0
            } else {
                trees[i].nodes[k].cwd
            };
        assert(place_of(trees[i].nodes[m]) == place);
        assert(all.contains(place));
        assert(order.to_set().contains(place));
        let k = order.index_of(place);
        assert(choices[k + 1] == Some(place));
    }
    assert forall|i: int, k: int| 0 < i < k < choices.len() implies text_lt(
        (#[trigger] choices[i])->0,
        (#[trigger] choices[k])->0,
    ) by {
        assert(choices[i] == Some(order[i - 1]));
        assert(choices[k] == Some(order[k - 1]));
    }
}

/// The place of a choice is the first at which it stands, and the beginning
/// where it stands nowhere.
pub proof fn law_where_a_choice_stands(
    choices: Seq<Option<Seq<char>>>,
    value: Option<Seq<char>>,
    i: int,
)
    requires
        0 <= i <= choices.len(),
        forall|k: int| 0 <= k < i ==> (#[trigger] choices[k]) != value,
        i < choices.len() ==> choices[i] == value,
    ensures
        place_among(choices, value) == if i < choices.len() {
            i
        } else {
            0
        },
{
    lemma_found_first(choices, value, i);
}

/// A tab of a project counts the trees that the filter would show for the
/// project, and there is one for each choice of a project in its order.
pub proof fn law_a_tab_counts_its_trees(facts: FactsView, filter: FilterView, i: int)
    requires
        0 <= i < project_choices(facts.trees).len(),
    ensures
        tabs_of(facts, filter).len() == project_choices(facts.trees).len(),
        ({
            let (tab, value) = (tabs_of(facts, filter)[i], project_choices(facts.trees)[i]);
            let trees = visible(facts, FilterView { project: value, ..filter });
            &&& tab.value == value
            &&& trees.len() <= usize::MAX ==> tab.count == trees.len()
            &&& tab.storage_bytes is Some <==> trees_size(trees) is Some
        }),
{
}

/// Trees take together what each of them takes, and nothing is known of them
/// where nothing is known of one.
pub proof fn law_sizes_of_trees_add_up(
    a: Seq<SessionTreeView>,
    b: Seq<SessionTreeView>,
    tree: SessionTreeView,
)
    ensures
        trees_size(Seq::empty()) == Some(0int),
        trees_size(seq![tree]) == total_size(tree.nodes),
        trees_size(a) is None || trees_size(b) is None ==> trees_size(a + b) is None,
        trees_size(a) is Some && trees_size(b) is Some ==> trees_size(a + b) == if trees_size(
            a,
        )->0 + trees_size(b)->0 <= u64::MAX {
            Some(trees_size(a)->0 + trees_size(b)->0)
        } else {
            None
        },
    decreases b.len(),
{
    reveal_with_fuel(trees_size, 2);
    assert(seq![tree].drop_last() =~= Seq::empty());
    lemma_total_bounded(tree.nodes);
    lemma_trees_bounded(a);
    if b.len() == 0 {
        assert(a + b =~= a);
    } else {
        law_sizes_of_trees_add_up(a, b.drop_last(), tree);
        lemma_trees_bounded(b.drop_last());
        lemma_total_bounded(b.last().nodes);
        assert((a + b).drop_last() =~= a + b.drop_last());
        assert((a + b).last() == b.last());
    }
}

proof fn lemma_total_bounded(nodes: Seq<SessionNodeView>)
    ensures
        total_size(nodes) matches Some(n) ==> 0 <= n <= u64::MAX,
    decreases nodes.len(),
{
    if nodes.len() > 0 {
        lemma_total_bounded(nodes.drop_last());
    }
}

proof fn lemma_trees_bounded(trees: Seq<SessionTreeView>)
    ensures
        trees_size(trees) matches Some(n) ==> 0 <= n <= u64::MAX,
    decreases trees.len(),
{
    if trees.len() > 0 {
        lemma_trees_bounded(trees.drop_last());
        lemma_total_bounded(trees.last().nodes);
    }
}

} // verus!
