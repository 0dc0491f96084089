//! What every preview and every run keeps to.

use crate::domain::{
    all_settled, settled, Action, ItemResultView, MaintenancePlanView, OperationPreviewView,
    OperationResultView, PendingBatchView, PlannedTreeView, ScanSnapshotView, SessionNodeView,
    SessionTreeView, VaultErrorView,
};
use crate::filter::fully_archived;
use crate::ordered::{
    ascending, law_sorted_in_order, law_sorted_permutation, lemma_ascending_unique,
    lemma_filter_member, lemma_sorted_contains, sorted_by, weak_order,
};
use crate::service::{
    by_root, checked_plan, chosen, cleanup_of, conclusive, find_tree, fresh, fresh_tree,
    interrupted, key_of_plan, length_prefixed, nodes_key, outcomes, plan_of_tree, planned_count,
    previews,
    reached, reasons_against, recovered, reliable, report, run_of, runnable, CleanupRun,
    ExecutionPlanView, Run,
};
use crate::text::{decimal, digit_value, law_decimal_round_trip, lemma_text_lt_order, text_lt};
use crate::tree::{affects, by_depth, impacted, trees_of, visiting_order, with_depths};
use crate::tree_laws::law_impacted_members;
use vstd::prelude::*;
use vstd::utf8::*;

verus! {

broadcast use vstd::group_vstd_default;

proof fn lemma_encode_concat(a: Seq<char>, b: Seq<char>)
    ensures
        encode_utf8(a + b) == encode_utf8(a) + encode_utf8(b),
    decreases a.len(),
{
    if a.len() == 0 {
        assert(a + b =~= b);
        assert(encode_utf8(a) =~= Seq::<u8>::empty());
        assert(encode_utf8(a) + encode_utf8(b) =~= encode_utf8(b));
    } else {
        lemma_encode_concat(a.drop_first(), b);
        assert((a + b).drop_first() =~= a.drop_first() + b);
        assert(encode_utf8(a + b) =~= encode_utf8(a) + encode_utf8(b));
    }
}

proof fn lemma_encode_grows(a: Seq<char>)
    requires
        a.len() > 0,
    ensures
        encode_utf8(a).len() > 0,
{
    assert(encode_utf8(a) == encode_scalar(a[0] as u32) + encode_utf8(a.drop_first()));
}

/// A value behind the number of its bytes can be told from what follows it.
proof fn lemma_prefix_parses(a: Seq<char>, b: Seq<char>, x: Seq<char>, y: Seq<char>)
    requires
        length_prefixed(a) + x == length_prefixed(b) + y,
    ensures
        a == b,
        x == y,
{
    reveal_strlit(":");
    reveal_strlit("|");
    let m = decimal(encode_utf8(a).len() as int);
    let n = decimal(encode_utf8(b).len() as int);
    let whole = length_prefixed(a) + x;
    law_decimal_round_trip(encode_utf8(a).len() as int);
    law_decimal_round_trip(encode_utf8(b).len() as int);
    assert(whole[m.len() as int] == ':');
    assert(whole[n.len() as int] == ':');
    assert(digit_value(':') == 10);
    if m.len() < n.len() {
        assert(whole[m.len() as int] == n[m.len() as int]);
    }
    if n.len() < m.len() {
        assert(whole[n.len() as int] == m[n.len() as int]);
    }
    assert(m =~= n) by {
        assert(m =~= whole.take(m.len() as int));
        assert(n =~= whole.take(n.len() as int));
    }
    assert(encode_utf8(a).len() == encode_utf8(b).len());
    let k = m.len() + 1;
    let rest = whole.skip(k as int);
    assert(rest =~= a + "|"@ + x);
    assert(rest =~= b + "|"@ + y);
    if a.len() < b.len() {
        let tail = b.skip(a.len() as int);
        assert(b.take(a.len() as int) =~= rest.take(a.len() as int));
        assert(a =~= rest.take(a.len() as int));
        assert(b =~= a + tail);
        lemma_encode_concat(a, tail);
        lemma_encode_grows(tail);
    } else if b.len() < a.len() {
        let tail = a.skip(b.len() as int);
        assert(a.take(b.len() as int) =~= rest.take(b.len() as int));
        assert(b =~= rest.take(b.len() as int));
        assert(a =~= b + tail);
        lemma_encode_concat(b, tail);
        lemma_encode_grows(tail);
    }
    assert(a =~= rest.take(a.len() as int));
    assert(b =~= rest.take(a.len() as int));
    assert(x =~= rest.skip(a.len() as int + 1));
    assert(y =~= rest.skip(a.len() as int + 1));
}

proof fn lemma_nodes_key_front(ids: Seq<Seq<char>>)
    requires
        ids.len() > 0,
    ensures
        nodes_key(ids) == length_prefixed(ids[0]) + nodes_key(ids.drop_first()),
    decreases ids.len(),
{
    if ids.len() == 1 {
        assert(ids.drop_last() =~= Seq::empty());
        assert(ids.drop_first() =~= Seq::empty());
        assert(nodes_key(ids.drop_last()) =~= Seq::<char>::empty());
        assert(nodes_key(ids.drop_first()) =~= Seq::<char>::empty());
        assert(ids.last() == ids[0]);
        assert(nodes_key(ids) == nodes_key(ids.drop_last()) + length_prefixed(ids.last()));
        assert(nodes_key(ids) =~= length_prefixed(ids[0]));
        assert(nodes_key(ids) =~= length_prefixed(ids[0]) + nodes_key(ids.drop_first()));
    } else {
        lemma_nodes_key_front(ids.drop_last());
        assert(ids.drop_last().drop_first() =~= ids.drop_first().drop_last());
        assert(nodes_key(ids) =~= length_prefixed(ids[0]) + nodes_key(ids.drop_first()));
    }
}

/// Different lists of ids have different keys, whatever characters they hold.
pub proof fn law_nodes_key_injective(a: Seq<Seq<char>>, b: Seq<Seq<char>>)
    requires
        nodes_key(a) == nodes_key(b),
    ensures
        a == b,
    decreases a.len(),
{
    reveal_strlit("|");
    if a.len() > 0 {
        lemma_nodes_key_front(a);
    }
    if b.len() > 0 {
        lemma_nodes_key_front(b);
    }
    if a.len() == 0 || b.len() == 0 {
        assert("|"@.len() == 1);
        if a.len() > 0 {
            assert(nodes_key(a).len() >= length_prefixed(a[0]).len() > 0);
            assert(nodes_key(b).len() == 0);
        }
        if b.len() > 0 {
            assert(nodes_key(b).len() >= length_prefixed(b[0]).len() > 0);
            assert(nodes_key(a).len() == 0);
        }
        assert(a =~= b);
    } else {
        lemma_prefix_parses(
            a[0],
            b[0],
            nodes_key(a.drop_first()),
            nodes_key(b.drop_first()),
        );
        law_nodes_key_injective(a.drop_first(), b.drop_first());
        assert(a =~= seq![a[0]] + a.drop_first());
        assert(b =~= seq![b[0]] + b.drop_first());
    }
}

/// No two trees have the same root.
pub open spec fn distinct_roots(trees: Seq<PlannedTreeView>) -> bool {
    forall|i: int, j: int|
        0 <= i < j < trees.len() ==> (#[trigger] trees[i]).root_id != (#[trigger] trees[j]).root_id
}

proof fn lemma_by_root_weak()
    ensures
        weak_order(by_root()),
{
    assert forall|a: PlannedTreeView, b: PlannedTreeView| #[trigger]
        by_root()(a, b) implies !by_root()(b, a) by {
        lemma_text_lt_order(a.root_id, b.root_id, a.root_id);
    }
    assert forall|a: PlannedTreeView, b: PlannedTreeView, c: PlannedTreeView|
        !(#[trigger] by_root()(b, a)) && !(#[trigger] by_root()(c, b)) implies !by_root()(
        c,
        a,
    ) by {
        lemma_text_lt_order(a.root_id, b.root_id, c.root_id);
        lemma_text_lt_order(b.root_id, c.root_id, a.root_id);
        lemma_text_lt_order(c.root_id, a.root_id, b.root_id);
    }
}

proof fn lemma_sorted_roots(trees: Seq<PlannedTreeView>)
    requires
        distinct_roots(trees),
    ensures
        ascending(sorted_by(trees, by_root()).map_values(|t: PlannedTreeView| t.root_id)),
        forall|t: PlannedTreeView| #[trigger]
            sorted_by(trees, by_root()).contains(t) <==> trees.contains(t),
{
    broadcast use vstd::seq_lib::group_to_multiset_ensures;

    let s = sorted_by(trees, by_root());
    let roots = s.map_values(|t: PlannedTreeView| t.root_id);
    lemma_by_root_weak();
    law_sorted_in_order(trees, by_root());
    law_sorted_permutation(trees, by_root());
    assert forall|t: PlannedTreeView| #[trigger] s.contains(t) <==> trees.contains(t) by {
        lemma_sorted_contains(trees, by_root(), t);
    }
    assert(trees.no_duplicates()) by {
        assert forall|i: int, j: int| 0 <= i < trees.len() && 0 <= j < trees.len() && i
            != j implies trees[i] != trees[j] by {
            if i < j {
                assert(trees[i].root_id != trees[j].root_id);
            } else {
                assert(trees[j].root_id != trees[i].root_id);
            }
        }
    }
    trees.lemma_multiset_has_no_duplicates();
    s.lemma_multiset_has_no_duplicates_conv();
    assert forall|i: int, j: int| 0 <= i < j < roots.len() implies text_lt(
        #[trigger] roots[i],
        #[trigger] roots[j],
    ) by {
        assert(!by_root()(s[j], s[i]));
        lemma_text_lt_order(s[i].root_id, s[j].root_id, s[i].root_id);
        if s[i].root_id == s[j].root_id {
            assert(s.contains(s[i]) && s.contains(s[j]));
            let a = trees.index_of(s[i]);
            let b = trees.index_of(s[j]);
            assert(trees[a] == s[i] && trees[b] == s[j]);
            if a < b {
                assert(trees[a].root_id != trees[b].root_id);
            } else if b < a {
                assert(trees[b].root_id != trees[a].root_id);
            }
        }
    }
}

/// The key of a plan does not depend on the order in which its trees were
/// chosen.
pub proof fn law_plan_key_ignores_order(
    action: Action,
    a: Seq<PlannedTreeView>,
    b: Seq<PlannedTreeView>,
)
    requires
        distinct_roots(a),
        distinct_roots(b),
        a.to_set() == b.to_set(),
    ensures
        key_of_plan(action, a) == key_of_plan(action, b),
{
    let pick = |t: PlannedTreeView| t.root_id;
    let x = sorted_by(a, by_root());
    let y = sorted_by(b, by_root());
    lemma_sorted_roots(a);
    lemma_sorted_roots(b);
    let (u, v) = (x.map_values(pick), y.map_values(pick));
    assert forall|t: PlannedTreeView| a.contains(t) <==> b.contains(t) by {
        assert(a.to_set().contains(t) == a.contains(t));
        assert(b.to_set().contains(t) == b.contains(t));
    }
    assert forall|root: Seq<char>| u.contains(root) <==> v.contains(root) by {
        if u.contains(root) {
            let k = u.index_of(root);
            assert(x.contains(x[k]));
            assert(y.contains(x[k]));
            let m = y.index_of(x[k]);
            assert(v[m] == root);
        }
        if v.contains(root) {
            let k = v.index_of(root);
            assert(y.contains(y[k]));
            assert(x.contains(y[k]));
            let m = x.index_of(y[k]);
            assert(u[m] == root);
        }
    }
    assert(u.to_set() =~= v.to_set());
    lemma_ascending_unique(u, v);
    assert(x =~= y) by {
        assert(u.len() == v.len());
        assert forall|i: int| 0 <= i < x.len() implies x[i] == y[i] by {
            assert(u[i] == v[i]);
            assert(x.contains(x[i]) && y.contains(y[i]));
            assert(a.contains(x[i]) && a.contains(y[i]));
            let m = a.index_of(x[i]);
            let n = a.index_of(y[i]);
            assert(a[m] == x[i] && a[n] == y[i]);
            if m < n {
                assert(a[m].root_id != a[n].root_id);
            } else if n < m {
                assert(a[n].root_id != a[m].root_id);
            }
        }
    }
}

/// Each chosen tree is either planned or listed with its reasons; a planned
/// tree is unprotected, is planned only while the record can be written, and
/// is planned for deletion only where all of it is archived.
pub proof fn law_preview_plans_only_free_trees(
    preview: OperationPreviewView,
    trees: Seq<SessionTreeView>,
    roots: Set<Seq<char>>,
    action: Action,
    storage_ready: bool,
)
    requires
        previews(preview, trees, roots, action, storage_ready),
    ensures
        forall|p: PlannedTreeView| #[trigger]
            preview.trees.contains(p) ==> storage_ready && exists|t: SessionTreeView|
                trees.contains(t) && roots.contains(t.root_id) && t.protection.len() == 0 && (
                action is Delete ==> fully_archived(t.nodes)) && p == #[trigger] plan_of_tree(
                    t,
                    action,
                ),
        forall|t: SessionTreeView| #[trigger]
            trees.contains(t) && roots.contains(t.root_id) ==> (preview.trees.contains(
                plan_of_tree(t, action),
            ) || preview.blocked.contains(
                (t.root_id, reasons_against(t, action, storage_ready)),
            )),
{
    let picked = chosen(trees, roots);
    let free = |t: SessionTreeView| reasons_against(t, action, storage_ready).len() == 0;
    let held = |t: SessionTreeView| reasons_against(t, action, storage_ready).len() > 0;
    let in_roots = |t: SessionTreeView| roots.contains(t.root_id);
    let able = picked.filter(free);
    let unable = picked.filter(held);
    assert forall|p: PlannedTreeView| #[trigger]
        preview.trees.contains(p) implies storage_ready && exists|t: SessionTreeView|
            trees.contains(t) && roots.contains(t.root_id) && t.protection.len() == 0 && (
            action is Delete ==> fully_archived(t.nodes)) && p == #[trigger] plan_of_tree(
                t,
                action,
            ) by {
        let k = preview.trees.index_of(p);
        assert(preview.trees[k] == p);
        let t = able[k];
        assert(able.contains(t));
        lemma_filter_member(picked, free, t);
        lemma_filter_member(trees, in_roots, t);
        assert(p == plan_of_tree(t, action));
    }
    assert forall|t: SessionTreeView| #[trigger]
        trees.contains(t) && roots.contains(t.root_id) implies (preview.trees.contains(
        plan_of_tree(t, action),
    ) || preview.blocked.contains((t.root_id, reasons_against(t, action, storage_ready)))) by {
        lemma_filter_member(trees, in_roots, t);
        lemma_filter_member(picked, free, t);
        lemma_filter_member(picked, held, t);
        if free(t) {
            let k = able.index_of(t);
            assert(preview.trees[k] == plan_of_tree(t, action));
        } else {
            let k = unable.index_of(t);
            assert(preview.blocked[k] == (t.root_id, reasons_against(t, action, storage_ready)));
        }
    }
}

proof fn lemma_found(trees: Seq<SessionTreeView>, root_id: Seq<char>)
    ensures
        find_tree(trees, root_id) matches Some(t) ==> trees.contains(t) && t.root_id == root_id,
    decreases trees.len(),
{
    if trees.len() > 0 {
        lemma_found(trees.drop_last(), root_id);
        if find_tree(trees, root_id) is Some {
            let t = find_tree(trees, root_id)->0;
            if trees.last().root_id == root_id {
                assert(trees[trees.len() - 1] == t);
            } else {
                let k = trees.drop_last().index_of(t);
                assert(trees[k] == t);
            }
        }
    }
}

/// How many ids all planned trees hold.
pub open spec fn planned_sum(trees: Seq<PlannedTreeView>) -> nat
    decreases trees.len(),
{
    if trees.len() == 0 {
        0
    } else {
        planned_sum(trees.drop_last()) + trees.last().node_ids.len()
    }
}

/// The places of the trees that satisfy a condition, in order.
pub open spec fn places(
    trees: Seq<SessionTreeView>,
    keep: spec_fn(SessionTreeView) -> bool,
) -> Seq<int>
    decreases trees.len(),
{
    if trees.len() == 0 {
        Seq::empty()
    } else if keep(trees.last()) {
        places(trees.drop_last(), keep).push(trees.len() - 1)
    } else {
        places(trees.drop_last(), keep)
    }
}

proof fn lemma_places(trees: Seq<SessionTreeView>, keep: spec_fn(SessionTreeView) -> bool)
    ensures
        ({
            let at = places(trees, keep);
            &&& at.len() == trees.filter(keep).len()
            &&& forall|k: int|
                0 <= k < at.len() ==> 0 <= #[trigger] at[k] < trees.len() && trees.filter(keep)[k]
                    == trees[at[k]]
            &&& forall|j: int, k: int| 0 <= j < k < at.len() ==> #[trigger] at[j] < #[trigger] at[k]
            &&& forall|i: int| #[trigger]
                at.contains(i) <==> 0 <= i < trees.len() && keep(trees[i])
        }),
    decreases trees.len(),
{
    reveal(Seq::filter);
    if trees.len() > 0 {
        let head = trees.drop_last();
        lemma_places(head, keep);
        let before = places(head, keep);
        let at = places(trees, keep);
        assert forall|i: int| #[trigger] at.contains(i) <==> 0 <= i < trees.len() && keep(
            trees[i],
        ) by {
            if at.contains(i) {
                let k = at.index_of(i);
                if k < before.len() {
                    assert(before[k] == i);
                    assert(before.contains(i));
                }
            }
            if 0 <= i < trees.len() && keep(trees[i]) {
                if i < head.len() {
                    assert(before.contains(i));
                    assert(at[before.index_of(i)] == i);
                } else {
                    assert(at[at.len() - 1] == i);
                }
            }
        }
        assert forall|k: int| 0 <= k < at.len() implies 0 <= #[trigger] at[k] < trees.len()
            && trees.filter(keep)[k] == trees[at[k]] by {
            if k < before.len() {
                assert(before[k] == at[k]);
            }
        }
        assert forall|j: int, k: int| 0 <= j < k < at.len() implies #[trigger] at[j]
            < #[trigger] at[k] by {
            assert(before[j] == at[j]);
            if k < before.len() {
                assert(before[k] == at[k]);
            }
        }
    }
}

proof fn lemma_filter_twice<V>(s: Seq<V>, p: spec_fn(V) -> bool, q: spec_fn(V) -> bool)
    ensures
        s.filter(p).filter(q) == s.filter(|v: V| p(v) && q(v)),
    decreases s.len(),
{
    reveal(Seq::filter);
    if s.len() > 0 {
        lemma_filter_twice(s.drop_last(), p, q);
        let kept = s.drop_last().filter(p);
        if p(s.last()) {
            assert(kept.push(s.last()).drop_last() =~= kept);
        }
    }
}

proof fn lemma_planned_sum(trees: Seq<PlannedTreeView>)
    ensures
        planned_sum(trees) <= usize::MAX ==> planned_count(trees) == planned_sum(trees),
        planned_sum(trees) > usize::MAX ==> planned_count(trees) == usize::MAX,
    decreases trees.len(),
{
    if trees.len() > 0 {
        lemma_planned_sum(trees.drop_last());
    }
}

/// A preview parts the chosen trees in two. Each of them stands in exactly one
/// of what is planned and what is blocked, a tree that was not chosen stands in
/// neither, and both lists keep the order of the trees. The count of a preview
/// is the sum of its ids, as far as a machine can count.
pub proof fn law_preview_parts_the_chosen(
    preview: OperationPreviewView,
    trees: Seq<SessionTreeView>,
    roots: Set<Seq<char>>,
    action: Action,
    storage_ready: bool,
) -> (at: (Seq<int>, Seq<int>))
    requires
        previews(preview, trees, roots, action, storage_ready),
    ensures
        at.0.len() == preview.trees.len(),
        at.1.len() == preview.blocked.len(),
        forall|k: int|
            0 <= k < at.0.len() ==> 0 <= #[trigger] at.0[k] < trees.len() && preview.trees[k]
                == plan_of_tree(trees[at.0[k]], action),
        forall|k: int|
            0 <= k < at.1.len() ==> 0 <= #[trigger] at.1[k] < trees.len() && preview.blocked[k] == (
                trees[at.1[k]].root_id,
                reasons_against(trees[at.1[k]], action, storage_ready),
            ),
        forall|j: int, k: int|
            0 <= j < k < at.0.len() ==> #[trigger] at.0[j] < #[trigger] at.0[k],
        forall|j: int, k: int|
            0 <= j < k < at.1.len() ==> #[trigger] at.1[j] < #[trigger] at.1[k],
        forall|i: int|
            0 <= i < trees.len() ==> (roots.contains((#[trigger] trees[i]).root_id)
                <==> at.0.contains(i) || at.1.contains(i)) && !(at.0.contains(i) && at.1.contains(
                i,
            )),
        preview.action == action,
        planned_sum(preview.trees) <= usize::MAX ==> preview.impacted_count == planned_sum(
            preview.trees,
        ),
        planned_sum(preview.trees) > usize::MAX ==> preview.impacted_count == usize::MAX,
{
    let in_roots = |t: SessionTreeView| roots.contains(t.root_id);
    let free = |t: SessionTreeView| reasons_against(t, action, storage_ready).len() == 0;
    let held = |t: SessionTreeView| reasons_against(t, action, storage_ready).len() > 0;
    let able = |t: SessionTreeView| in_roots(t) && free(t);
    let unable = |t: SessionTreeView| in_roots(t) && held(t);
    lemma_filter_twice(trees, in_roots, free);
    lemma_filter_twice(trees, in_roots, held);
    lemma_places(trees, able);
    lemma_places(trees, unable);
    lemma_planned_sum(preview.trees);
    let at = (places(trees, able), places(trees, unable));
    assert forall|i: int| 0 <= i < trees.len() implies (roots.contains((#[trigger] trees[i]).root_id)
        <==> at.0.contains(i) || at.1.contains(i)) && !(at.0.contains(i) && at.1.contains(i)) by {
        assert(at.0.contains(i) <==> able(trees[i]));
        assert(at.1.contains(i) <==> unable(trees[i]));
    }
    at
}

/// A deletion is planned for every session of its tree.
pub proof fn law_deletion_takes_the_whole_tree(tree: SessionTreeView)
    requires
        fully_archived(tree.nodes),
    ensures
        plan_of_tree(tree, Action::Delete).node_ids.len() == tree.nodes.len(),
        forall|i: int|
            0 <= i < tree.nodes.len() ==> plan_of_tree(tree, Action::Delete).node_ids.contains(
                (#[trigger] tree.nodes[i]).id,
            ),
{
    let nodes = tree.nodes;
    let order = visiting_order(nodes, Action::Delete);
    let keep = |x: (int, SessionNodeView)| affects(Action::Delete, x.1.archived);
    law_sorted_permutation(with_depths(nodes), by_depth());
    assert(order.len() == nodes.len());
    assert forall|k: int| 0 <= k < order.len() implies keep(#[trigger] order[k]) by {
        let sorted = sorted_by(with_depths(nodes), by_depth());
        let x = sorted[sorted.len() - 1 - k];
        assert(order[k] == x);
        assert(sorted.contains(x));
        lemma_sorted_contains(with_depths(nodes), by_depth(), x);
        let m = with_depths(nodes).index_of(x);
        assert(nodes[m] == x.1);
    }
    lemma_all_kept(order, keep);
    assert forall|i: int| 0 <= i < nodes.len() implies impacted(nodes, Action::Delete).contains(
        (#[trigger] nodes[i]).id,
    ) by {
        law_impacted_members(nodes, Action::Delete, nodes[i].id);
    }
}

proof fn lemma_all_kept<V>(s: Seq<V>, keep: spec_fn(V) -> bool)
    requires
        forall|k: int| 0 <= k < s.len() ==> keep(#[trigger] s[k]),
    ensures
        s.filter(keep) == s,
    decreases s.len(),
{
    reveal(Seq::filter);
    if s.len() > 0 {
        let head = s.drop_last();
        assert forall|k: int| 0 <= k < head.len() implies keep(#[trigger] head[k]) by {
            assert(head[k] == s[k]);
        }
        lemma_all_kept(head, keep);
        assert(keep(s[s.len() - 1]));
        assert(head.push(s.last()) =~= s);
    }
}

/// What runs was checked: each planned tree is a tree of the fresh scan with
/// the same signature and the same ids as in the preview, is unprotected and
/// changes something; no id is changed twice; and a deletion runs only on
/// fully archived trees and only where the number of its sessions was typed.
pub proof fn law_only_checked_plans_run(
    trees: Seq<SessionTreeView>,
    preview: OperationPreviewView,
    confirmation: Option<usize>,
)
    requires
        runnable(trees, preview, confirmation) is Ok,
    ensures
        ({
            let plan = runnable(trees, preview, confirmation)->Ok_0;
            &&& plan.node_ids.no_duplicates()
            &&& plan.node_ids.len() == preview.impacted_count
            &&& preview.action is Delete ==> confirmation == Some(preview.impacted_count)
            &&& forall|p: PlannedTreeView| #[trigger]
                preview.trees.contains(p) ==> exists|t: SessionTreeView|
                    trees.contains(t) && t.protection.len() == 0 && p == #[trigger] plan_of_tree(
                        t,
                        preview.action,
                    ) && p.node_ids.len() > 0 && (preview.action is Delete ==> fully_archived(
                        t.nodes,
                    ))
        }),
{
    assert forall|p: PlannedTreeView| #[trigger]
        preview.trees.contains(p) implies exists|t: SessionTreeView|
            trees.contains(t) && t.protection.len() == 0 && p == #[trigger] plan_of_tree(
                t,
                preview.action,
            ) && p.node_ids.len() > 0 && (preview.action is Delete ==> fully_archived(
                t.nodes,
            )) by {
        let k = preview.trees.index_of(p);
        assert(preview.trees[k] == p);
        assert(fresh_tree(trees, preview.action, preview.trees[k]));
        lemma_found(trees, p.root_id);
        let t = find_tree(trees, p.root_id)->0;
        assert(p == plan_of_tree(t, preview.action));
    }
}

/// A preview whose trees, ids or count were changed after it was made is
/// refused: what runs is the preview of the trees of the fresh scan.
pub proof fn law_forged_preview_is_stale(
    trees: Seq<SessionTreeView>,
    preview: OperationPreviewView,
    confirmation: Option<usize>,
    i: int,
)
    requires
        0 <= i < preview.trees.len(),
        forall|t: SessionTreeView| #[trigger]
            trees.contains(t) ==> preview.trees[i] != plan_of_tree(t, preview.action),
    ensures
        runnable(trees, preview, confirmation) == Err::<ExecutionPlanView, VaultErrorView>(
            VaultErrorView::StalePreview,
        ),
{
    if fresh(trees, preview) {
        assert(fresh_tree(trees, preview.action, preview.trees[i]));
        lemma_found(trees, preview.trees[i].root_id);
    }
}

/// A tree that the fresh scan shows as protected is not run.
pub proof fn law_protected_tree_is_stale(
    trees: Seq<SessionTreeView>,
    preview: OperationPreviewView,
    confirmation: Option<usize>,
    i: int,
)
    requires
        0 <= i < preview.trees.len(),
        find_tree(trees, preview.trees[i].root_id) matches Some(t) ==> t.protection.len() > 0,
    ensures
        runnable(trees, preview, confirmation) is Err,
{
    if fresh(trees, preview) {
        assert(fresh_tree(trees, preview.action, preview.trees[i]));
    }
}

/// Nothing is reported as done that the scan after the changes did not show,
/// and nothing that could not be recorded.
pub proof fn law_success_is_observed(
    batch_id: Seq<char>,
    action: Action,
    calls: Map<Seq<char>, ItemResultView>,
    rescan: Result<ScanSnapshotView, VaultErrorView>,
    recorded: Result<(), VaultErrorView>,
    id: Seq<char>,
)
    requires
        forall|x: Seq<char>| #[trigger]
            calls.contains_key(x) ==> calls[x] is Interrupted || calls[x] is Failed,
        calls.contains_key(id),
    ensures
        ({
            let result = report(
                batch_id,
                action,
                outcomes(action, calls, rescan),
                rescan,
                recorded,
            );
            &&& result.items.contains_key(id)
            &&& settled(result.items[id]) <==> {
                &&& recorded is Ok
                &&& conclusive(rescan)
                &&& reached(rescan->Ok_0.nodes, action, id)
            }
        }),
{
}

/// An incomplete or failed scan after the changes never confirms success.
pub proof fn law_incomplete_scan_never_confirms(
    batch_id: Seq<char>,
    action: Action,
    calls: Map<Seq<char>, ItemResultView>,
    rescan: Result<ScanSnapshotView, VaultErrorView>,
    recorded: Result<(), VaultErrorView>,
)
    requires
        forall|x: Seq<char>| #[trigger]
            calls.contains_key(x) ==> calls[x] is Interrupted || calls[x] is Failed,
        calls.dom().len() > 0,
        calls.dom().finite(),
        !conclusive(rescan),
    ensures
        !all_settled(
            report(batch_id, action, outcomes(action, calls, rescan), rescan, recorded).items,
        ),
        report(batch_id, action, outcomes(action, calls, rescan), rescan, recorded).warnings.len()
            > 0,
{
    let id = calls.dom().choose();
    assert(calls.dom().contains(id));
    assert(calls.contains_key(id));
    law_success_is_observed(batch_id, action, calls, rescan, recorded, id);
}

/// Where a settled result could not be recorded, every item is reported as
/// interrupted.
pub proof fn law_unrecorded_result_is_interrupted(
    batch_id: Seq<char>,
    action: Action,
    items: Map<Seq<char>, ItemResultView>,
    rescan: Result<ScanSnapshotView, VaultErrorView>,
    error: VaultErrorView,
)
    requires
        conclusive(rescan),
    ensures
        ({
            let result = report(batch_id, action, items, rescan, Err(error));
            &&& result.items.dom() == items.dom()
            &&& forall|id: Seq<char>| #[trigger]
                result.items.contains_key(id) ==> result.items[id] is Interrupted
            &&& result.warnings.len() == 1
        }),
{
    let result = report(batch_id, action, items, rescan, Err(error));
    assert(result.items.dom() =~= items.dom());
}

/// A recovery takes a session of an open batch as done exactly where a scan
/// that can be relied on shows it.
pub proof fn law_recovery_reconciles(
    snapshot: ScanSnapshotView,
    batch: PendingBatchView,
    id: Seq<char>,
)
    requires
        batch.node_ids.contains(id),
    ensures
        recovered(snapshot, batch).contains_key(id),
        recovered(snapshot, batch)[id] is Success <==> reliable(snapshot) && reached(
            snapshot.nodes,
            batch.action,
            id,
        ),
        recovered(snapshot, batch)[id] is Success || recovered(snapshot, batch)[id] is Interrupted,
{
}

/// No session is changed before the plan passed its checks against a fresh
/// scan and was recorded; and once it is recorded, each of its sessions is
/// asked for once.
pub proof fn law_changes_follow_the_record<G, S>(
    run: Run<G, S>,
    preview: OperationPreviewView,
    confirmation: Option<usize>,
    before: (G, S),
    after: (G, S),
    r: Result<OperationResultView, VaultErrorView>,
)
    requires
        run_of(run, preview, confirmation, before, after, r),
    ensures
        run.answers.len() > 0 ==> checked_plan(run, preview, confirmation) is Ok && run.begun is Ok,
        checked_plan(run, preview, confirmation) is Ok && run.begun is Ok <==> r is Ok,
        r is Ok ==> run.answers.len() == preview.impacted_count,
        r is Err ==> run.answers.len() == 0,
{
    if checked_plan(run, preview, confirmation) is Ok {
        let trees = trees_of(run.first->Ok_0.deep_view());
        law_only_checked_plans_run(trees, preview, confirmation);
    }
}

/// Nothing is removed before the cleanup was found in a fresh scan as it was
/// shown and was recorded.
pub proof fn law_removals_follow_the_record<G, S>(
    run: CleanupRun<G, S>,
    plan: MaintenancePlanView,
    before: (G, S),
    after: (G, S),
    r: Result<OperationResultView, VaultErrorView>,
)
    requires
        cleanup_of(run, plan, before, after, r),
    ensures
        run.answers.len() > 0 ==> run.begun is Ok && forall|i: int|
            0 <= i < plan.candidates.len() ==> run.current.deep_view().contains(
                #[trigger] plan.candidates[i],
            ),
        r is Ok ==> run.answers.len() == plan.candidates.len(),
        r is Err ==> run.answers.len() == 0,
{
}

} // verus!
