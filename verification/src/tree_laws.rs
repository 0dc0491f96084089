//! What holds of every tree that is built from a scan.

use crate::domain::{node_protection, Action, ScanSnapshotView, SessionNodeView, SessionTreeView};
use crate::ordered::{
    law_sorted_in_order, law_sorted_permutation, law_sorted_stable, lemma_filter_member,
    lemma_filter_pairwise, lemma_filter_permuted, lemma_filter_reversed, lemma_map_permuted,
    lemma_sorted_contains, lemma_sorted_same, sorted_by, weak_order,
};
use crate::text::{lemma_text_lt_order, text_lt};
use crate::tree::{
    affects, by_depth, by_id, by_id_descending, by_recency, children_at, children_of, depth_of,
    depth_roots, depth_walk, depths_of, has_id, ids_of, impacted, is_root, lemma_child_is_node,
    latest, lemma_ids_push, lemma_pool_shrinks, node_reasons, pool, recency, roots_of, tree_of, trees_of,
    visiting_order, walk, with_depths,
};
use vstd::prelude::*;

verus! {

broadcast use vstd::group_vstd_default;

/// No two sessions have the same id.
pub open spec fn distinct_ids(nodes: Seq<SessionNodeView>) -> bool {
    forall|i: int, j: int|
        0 <= i < j < nodes.len() ==> (#[trigger] nodes[i]).id != (#[trigger] nodes[j]).id
}

/// The parent of `node` is among the first `n` of `seen`.
pub open spec fn below(seen: Seq<SessionNodeView>, n: int, node: SessionNodeView) -> bool {
    exists|j: int| 0 <= j < n && node.parent_id == Some((#[trigger] seen[j]).id)
}

/// The sessions met so far, and those still on the stack, belong to `root`.
spec fn grown(
    nodes: Seq<SessionNodeView>,
    root: SessionNodeView,
    stack: Seq<SessionNodeView>,
    seen: Seq<SessionNodeView>,
) -> bool {
    &&& distinct_ids(seen)
    &&& seen.len() == 0 ==> stack == seq![root]
    &&& seen.len() > 0 ==> seen[0] == root
    &&& forall|i: int|
        0 < i < seen.len() ==> nodes.contains(#[trigger] seen[i]) && below(seen, i, seen[i])
    &&& seen.len() > 0 ==> forall|k: int|
        0 <= k < stack.len() ==> nodes.contains(#[trigger] stack[k]) && below(
            seen,
            seen.len() as int,
            stack[k],
        )
    &&& forall|c: SessionNodeView| #[trigger]
        nodes.contains(c) && below(seen, seen.len() as int, c) ==> has_id(seen, c.id) || has_id(
            stack,
            c.id,
        )
}

proof fn lemma_walk_grown(
    nodes: Seq<SessionNodeView>,
    root: SessionNodeView,
    stack: Seq<SessionNodeView>,
    seen: Seq<SessionNodeView>,
)
    requires
        grown(nodes, root, stack, seen),
    ensures
        grown(nodes, root, Seq::empty(), walk(nodes, stack, seen)),
        walk(nodes, stack, seen).len() > 0,
    decreases pool(nodes, ids_of(seen)) + stack.len(),
{
    if stack.len() == 0 {
        assert(stack =~= Seq::empty());
    } else {
        let top = stack.last();
        let rest = stack.drop_last();
        if has_id(seen, top.id) {
            assert forall|c: SessionNodeView| #[trigger]
                nodes.contains(c) && below(seen, seen.len() as int, c) implies has_id(seen, c.id)
                || has_id(rest, c.id) by {
                if has_id(stack, c.id) {
                    let k = choose|k: int| 0 <= k < stack.len() && (#[trigger] stack[k]).id == c.id;
                    if k < rest.len() {
                        assert(rest[k].id == c.id);
                    }
                }
            }
            assert forall|k: int| 0 <= k < rest.len() implies nodes.contains(#[trigger] rest[k])
                && below(seen, seen.len() as int, rest[k]) by {
                assert(rest[k] == stack[k]);
            }
            lemma_walk_grown(nodes, root, rest, seen);
        } else {
            let kids = sorted_by(children_of(nodes, top.id), by_id_descending());
            let more = rest + kids;
            let now = seen.push(top);
            let n = now.len() as int;
            lemma_pool_shrinks(nodes, ids_of(seen), top.id);
            lemma_ids_push(seen, top);
            law_sorted_permutation(children_of(nodes, top.id), by_id_descending());
            assert forall|i: int, j: int| 0 <= i < j < now.len() implies (#[trigger] now[i]).id != (
            #[trigger] now[j]).id by {
                if j == seen.len() {
                    assert(seen[i].id != top.id);
                }
            }
            assert forall|i: int| 0 < i < now.len() implies nodes.contains(#[trigger] now[i])
                && below(now, i, now[i]) by {
                let m = if i < seen.len() {
                    i
                } else {
                    seen.len() as int
                };
                if i == seen.len() {
                    assert(stack[stack.len() - 1] == top);
                }
                let j = choose|j: int|
                    0 <= j < m && now[i].parent_id == Some((#[trigger] seen[j]).id);
                assert(below(seen, m, now[i]));
                assert(now[j] == seen[j]);
            }
            assert forall|k: int| 0 <= k < more.len() implies nodes.contains(#[trigger] more[k])
                && below(now, n, more[k]) by {
                if k < rest.len() {
                    assert(more[k] == stack[k]);
                    assert(seen.len() > 0);
                    let j = choose|j: int|
                        0 <= j < seen.len() && more[k].parent_id == Some((#[trigger] seen[j]).id);
                    assert(now[j] == seen[j]);
                } else {
                    let c = kids[k - rest.len()];
                    assert(kids.contains(c));
                    lemma_sorted_contains(children_of(nodes, top.id), by_id_descending(), c);
                    let m = children_of(nodes, top.id).index_of(c);
                    lemma_child_is_node(nodes, top.id, m);
                    assert(now[seen.len() as int] == top);
                }
            }
            assert forall|c: SessionNodeView| #[trigger]
                nodes.contains(c) && below(now, n, c) implies has_id(now, c.id) || has_id(
                more,
                c.id,
            ) by {
                let j = choose|j: int|
                    0 <= j < n && c.parent_id == Some((#[trigger] now[j]).id);
                if j < seen.len() {
                    assert(seen[j] == now[j]);
                    assert(below(seen, seen.len() as int, c));
                    if has_id(seen, c.id) {
                        let k = choose|k: int|
                            0 <= k < seen.len() && (#[trigger] seen[k]).id == c.id;
                        assert(now[k].id == c.id);
                    } else {
                        let k = choose|k: int|
                            0 <= k < stack.len() && (#[trigger] stack[k]).id == c.id;
                        if k < rest.len() {
                            assert(more[k].id == c.id);
                        } else {
                            assert(now[seen.len() as int].id == c.id);
                        }
                    }
                } else {
                    lemma_filter_member(
                        nodes,
                        |x: SessionNodeView| x.parent_id == Some(top.id),
                        c,
                    );
                    lemma_sorted_contains(children_of(nodes, top.id), by_id_descending(), c);
                    let k = kids.index_of(c);
                    assert(kids[k] == c);
                    assert(more[rest.len() + k].id == c.id);
                }
            }
            lemma_walk_grown(nodes, root, more, now);
        }
    }
}

proof fn lemma_walk_from_root(nodes: Seq<SessionNodeView>, root: SessionNodeView)
    ensures
        grown(nodes, root, Seq::empty(), walk(nodes, seq![root], Seq::empty())),
        walk(nodes, seq![root], Seq::empty()).len() > 0,
{
    assert(grown(nodes, root, seq![root], Seq::empty()));
    lemma_walk_grown(nodes, root, seq![root], Seq::empty());
}

proof fn lemma_by_id_weak()
    ensures
        weak_order(by_id()),
{
    assert forall|a: SessionNodeView, b: SessionNodeView| #[trigger] by_id()(a, b) implies !by_id()(
        b,
        a,
    ) by {
        lemma_text_lt_order(a.id, b.id, a.id);
    }
    assert forall|a: SessionNodeView, b: SessionNodeView, c: SessionNodeView|
        !(#[trigger] by_id()(b, a)) && !(#[trigger] by_id()(c, b)) implies !by_id()(c, a) by {
        lemma_text_lt_order(a.id, b.id, c.id);
        lemma_text_lt_order(b.id, c.id, a.id);
        lemma_text_lt_order(c.id, a.id, b.id);
    }
}

/// Sorted sessions with distinct ids have distinct ids.
proof fn lemma_sorted_distinct(s: Seq<SessionNodeView>)
    requires
        distinct_ids(s),
    ensures
        distinct_ids(sorted_by(s, by_id())),
{
    broadcast use vstd::seq_lib::group_to_multiset_ensures;

    let t = sorted_by(s, by_id());
    law_sorted_permutation(s, by_id());
    assert(s.no_duplicates()) by {
        assert forall|i: int, j: int| 0 <= i < s.len() && 0 <= j < s.len() && i != j implies s[i]
            != s[j] by {
            if i < j {
                assert(s[i].id != s[j].id);
            } else {
                assert(s[j].id != s[i].id);
            }
        }
    }
    s.lemma_multiset_has_no_duplicates();
    t.lemma_multiset_has_no_duplicates_conv();
    assert forall|i: int, j: int| 0 <= i < j < t.len() implies (#[trigger] t[i]).id != (
    #[trigger] t[j]).id by {
        assert(t.contains(t[i]) && t.contains(t[j]));
        lemma_sorted_contains(s, by_id(), t[i]);
        lemma_sorted_contains(s, by_id(), t[j]);
        let a = s.index_of(t[i]);
        let b = s.index_of(t[j]);
        assert(s[a] == t[i] && s[b] == t[j]);
        if a < b {
            assert(s[a].id != s[b].id);
        } else if b < a {
            assert(s[b].id != s[a].id);
        }
    }
}

/// A tree holds its root, each id once and in ascending order; every other
/// session of it comes from the scan and has its parent in the tree; and every
/// session of the scan whose parent is in the tree has its id in the tree.
pub proof fn law_tree_members(snapshot: ScanSnapshotView, root: SessionNodeView)
    ensures
        ({
            let t = tree_of(snapshot, root).nodes;
            &&& t.contains(root)
            &&& forall|i: int, j: int|
                0 <= i < j < t.len() ==> text_lt((#[trigger] t[i]).id, (#[trigger] t[j]).id)
            &&& forall|n: SessionNodeView| #[trigger]
                t.contains(n) ==> n == root || (snapshot.nodes.contains(n) && n.parent_id is Some
                    && has_id(t, n.parent_id->0))
            &&& forall|n: SessionNodeView| #[trigger]
                snapshot.nodes.contains(n) && n.parent_id is Some && has_id(t, n.parent_id->0)
                    ==> has_id(t, n.id)
        }),
{
    let nodes = snapshot.nodes;
    let w = walk(nodes, seq![root], Seq::empty());
    let t = tree_of(snapshot, root).nodes;
    lemma_walk_from_root(nodes, root);
    lemma_sorted_distinct(w);
    lemma_by_id_weak();
    law_sorted_in_order(w, by_id());
    assert(w[0] == root);
    lemma_sorted_contains(w, by_id(), root);
    assert forall|id: Seq<char>| has_id(t, id) <==> has_id(w, id) by {
        lemma_same_ids(w, id);
    }
    assert forall|i: int, j: int| 0 <= i < j < t.len() implies text_lt(
        (#[trigger] t[i]).id,
        (#[trigger] t[j]).id,
    ) by {
        assert(!by_id()(t[j], t[i]));
        lemma_text_lt_order(t[i].id, t[j].id, t[i].id);
    }
    assert forall|n: SessionNodeView| #[trigger] t.contains(n) implies n == root || (
    snapshot.nodes.contains(n) && n.parent_id is Some && has_id(t, n.parent_id->0)) by {
        lemma_sorted_contains(w, by_id(), n);
        let k = w.index_of(n);
        assert(w[k] == n);
        if k > 0 {
            assert(below(w, k, w[k]));
            let j = choose|j: int| 0 <= j < k && n.parent_id == Some((#[trigger] w[j]).id);
            assert(has_id(w, w[j].id));
        }
    }
    assert forall|n: SessionNodeView| #[trigger]
        snapshot.nodes.contains(n) && n.parent_id is Some && has_id(
            t,
            n.parent_id->0,
        ) implies has_id(t, n.id) by {
        let k = choose|k: int| 0 <= k < w.len() && (#[trigger] w[k]).id == n.parent_id->0;
        assert(has_id(w, n.parent_id->0));
        assert(n.parent_id == Some(w[k].id));
        assert(below(w, w.len() as int, n));
        assert(has_id(w, n.id) || has_id(Seq::<SessionNodeView>::empty(), n.id));
    }
}

proof fn lemma_same_ids(w: Seq<SessionNodeView>, id: Seq<char>)
    ensures
        has_id(sorted_by(w, by_id()), id) <==> has_id(w, id),
{
    let t = sorted_by(w, by_id());
    if has_id(w, id) {
        let k = choose|k: int| 0 <= k < w.len() && (#[trigger] w[k]).id == id;
        assert(w.contains(w[k]));
        lemma_sorted_contains(w, by_id(), w[k]);
        let m = t.index_of(w[k]);
        assert(t[m].id == id);
    }
    if has_id(t, id) {
        let k = choose|k: int| 0 <= k < t.len() && (#[trigger] t[k]).id == id;
        assert(t.contains(t[k]));
        lemma_sorted_contains(w, by_id(), t[k]);
        let m = w.index_of(t[k]);
        assert(w[m].id == id);
    }
}

proof fn lemma_no_reasons(nodes: Seq<SessionNodeView>)
    ensures
        node_reasons(nodes).len() == 0 <==> forall|i: int|
            0 <= i < nodes.len() ==> node_protection(#[trigger] nodes[i]) is None,
    decreases nodes.len(),
{
    if nodes.len() > 0 {
        let head = nodes.drop_last();
        lemma_no_reasons(head);
        if node_reasons(nodes).len() == 0 {
            assert forall|i: int| 0 <= i < nodes.len() implies node_protection(
                #[trigger] nodes[i],
            ) is None by {
                if i < head.len() {
                    assert(head[i] == nodes[i]);
                }
            }
        }
        if forall|i: int| 0 <= i < nodes.len() ==> node_protection(#[trigger] nodes[i]) is None {
            assert forall|i: int| 0 <= i < head.len() implies node_protection(
                #[trigger] head[i],
            ) is None by {
                assert(head[i] == nodes[i]);
            }
            assert(node_protection(nodes[nodes.len() - 1]) is None);
        }
    }
}

/// A tree is free to be changed exactly where none of its sessions is
/// protected and the scan was complete and able to write. One protected
/// session blocks the whole of its tree, and no other tree.
pub proof fn law_protection_covers_tree(snapshot: ScanSnapshotView, root: SessionNodeView)
    ensures
        ({
            let tree = tree_of(snapshot, root);
            tree.protection.len() == 0 <==> {
                &&& snapshot.relation_complete
                &&& snapshot.write_capable
                &&& forall|i: int|
                    0 <= i < tree.nodes.len() ==> node_protection(#[trigger] tree.nodes[i]) is None
            }
        }),
{
    lemma_no_reasons(tree_of(snapshot, root).nodes);
}

/// Each root of a scan gives one tree, nothing else does, and the trees come
/// with the latest activity first.
pub proof fn law_one_tree_per_root(snapshot: ScanSnapshotView)
    ensures
        trees_of(snapshot).len() == roots_of(snapshot.nodes).len(),
        forall|t: SessionTreeView| #[trigger]
            trees_of(snapshot).contains(t) <==> exists|root: SessionNodeView|
                snapshot.nodes.contains(root) && is_root(root) && t == #[trigger] tree_of(
                    snapshot,
                    root,
                ),
        forall|i: int, j: int|
            0 <= i < j < trees_of(snapshot).len() ==> recency(#[trigger] trees_of(snapshot)[i])
                >= recency(#[trigger] trees_of(snapshot)[j]),
{
    let roots = roots_of(snapshot.nodes);
    let make = |root: SessionNodeView| tree_of(snapshot, root);
    let made = roots.map_values(make);
    law_sorted_permutation(made, by_recency());
    assert(weak_order(by_recency()));
    law_sorted_in_order(made, by_recency());
    assert forall|i: int, j: int| 0 <= i < j < trees_of(snapshot).len() implies recency(
        #[trigger] trees_of(snapshot)[i],
    ) >= recency(#[trigger] trees_of(snapshot)[j]) by {
        assert(!by_recency()(trees_of(snapshot)[j], trees_of(snapshot)[i]));
    }
    assert forall|t: SessionTreeView| #[trigger]
        trees_of(snapshot).contains(t) <==> exists|root: SessionNodeView|
            snapshot.nodes.contains(root) && is_root(root) && t == #[trigger] tree_of(
                snapshot,
                root,
            ) by {
        lemma_sorted_contains(made, by_recency(), t);
        if made.contains(t) {
            let k = made.index_of(t);
            assert(roots.contains(roots[k]));
            lemma_filter_member(snapshot.nodes, |n: SessionNodeView| is_root(n), roots[k]);
            assert(t == tree_of(snapshot, roots[k]));
        }
        if exists|root: SessionNodeView|
            snapshot.nodes.contains(root) && is_root(root) && t == #[trigger] tree_of(
                snapshot,
                root,
            ) {
            let root = choose|root: SessionNodeView|
                snapshot.nodes.contains(root) && is_root(root) && t == #[trigger] tree_of(
                    snapshot,
                    root,
                );
            lemma_filter_member(snapshot.nodes, |n: SessionNodeView| is_root(n), root);
            let k = roots.index_of(root);
            assert(made[k] == t);
        }
    }
}

/// What holds while the depths of a tree are measured.
spec fn measuring(
    t: Seq<SessionNodeView>,
    stack: Seq<(SessionNodeView, int)>,
    depths: Map<Seq<char>, int>,
) -> bool {
    &&& forall|k: int|
        0 <= k < stack.len() ==> t.contains((#[trigger] stack[k]).0) && !depths.contains_key(
            stack[k].0.id,
        ) && fits(depths, stack[k].0, stack[k].1)
    &&& forall|i: int, j: int|
        0 <= i < j < stack.len() ==> (#[trigger] stack[i]).0.id != (#[trigger] stack[j]).0.id
    &&& forall|x: SessionNodeView| #[trigger]
        t.contains(x) && depths.contains_key(x.id) ==> fits(depths, x, depths[x.id])
    &&& forall|x: SessionNodeView| #[trigger]
        t.contains(x) && (x.parent_id is None || depths.contains_key(x.parent_id->0))
            ==> depths.contains_key(x.id) || waits(stack, x.id)
}

spec fn fits(depths: Map<Seq<char>, int>, x: SessionNodeView, depth: int) -> bool {
    match x.parent_id {
        None => depth == 0,
        Some(p) => depths.contains_key(p) && depth == depths[p] + 1,
    }
}

spec fn waits(stack: Seq<(SessionNodeView, int)>, id: Seq<char>) -> bool {
    exists|k: int| 0 <= k < stack.len() && (#[trigger] stack[k]).0.id == id
}

proof fn lemma_one_node(t: Seq<SessionNodeView>, a: SessionNodeView, b: SessionNodeView)
    requires
        distinct_ids(t),
        t.contains(a),
        t.contains(b),
        a.id == b.id,
    ensures
        a == b,
{
    let i = t.index_of(a);
    let j = t.index_of(b);
    assert(t[i] == a && t[j] == b);
    if i < j {
        assert(t[i].id != t[j].id);
    } else if j < i {
        assert(t[j].id != t[i].id);
    }
}

proof fn lemma_kids_distinct(t: Seq<SessionNodeView>, keep: spec_fn(SessionNodeView) -> bool)
    requires
        distinct_ids(t),
    ensures
        distinct_ids(t.filter(keep)),
{
    let rel = |a: SessionNodeView, b: SessionNodeView| a.id != b.id;
    lemma_filter_pairwise(t, keep, rel);
    assert forall|i: int, j: int| 0 <= i < j < t.filter(keep).len() implies (
    #[trigger] t.filter(keep)[i]).id != (#[trigger] t.filter(keep)[j]).id by {
        assert(rel(t.filter(keep)[i], t.filter(keep)[j]));
    }
}

proof fn lemma_measured(
    t: Seq<SessionNodeView>,
    stack: Seq<(SessionNodeView, int)>,
    depths: Map<Seq<char>, int>,
)
    requires
        distinct_ids(t),
        measuring(t, stack, depths),
    ensures
        measuring(t, Seq::empty(), depth_walk(t, stack, depths)),
    decreases pool(t, depths.dom()) + stack.len(),
{
    if stack.len() == 0 {
        assert(stack =~= Seq::empty());
    } else {
        let (n, d) = stack.last();
        assert(stack[stack.len() - 1] == (n, d));
        let rest = stack.drop_last();
        let kids = children_of(t, n.id);
        let added = children_at(t, n.id, d + 1);
        let more = rest + added;
        let now = depths.insert(n.id, d);
        lemma_pool_shrinks(t, depths.dom(), n.id);
        assert(now.dom() =~= depths.dom().insert(n.id));
        let keep = |x: SessionNodeView| x.parent_id == Some(n.id);
        lemma_kids_distinct(t, keep);
        assert(kids == t.filter(keep));
        assert forall|k: int| 0 <= k < kids.len() implies t.contains(#[trigger] kids[k])
            && kids[k].parent_id == Some(n.id) && !now.contains_key(kids[k].id) by {
            lemma_child_is_node(t, n.id, k);
            let c = kids[k];
            if depths.contains_key(c.id) {
                assert(fits(depths, c, depths[c.id]));
            }
            if c.id == n.id {
                lemma_one_node(t, c, n);
            }
        }
        assert forall|k: int| 0 <= k < more.len() implies t.contains((#[trigger] more[k]).0)
            && !now.contains_key(more[k].0.id) && fits(now, more[k].0, more[k].1) by {
            if k < rest.len() {
                assert(more[k] == stack[k]);
                assert(stack[k].0.id != stack[stack.len() - 1].0.id);
            } else {
                assert(more[k] == added[k - rest.len()]);
                assert(added[k - rest.len()] == (kids[k - rest.len()], d + 1));
            }
        }
        assert forall|i: int, j: int| 0 <= i < j < more.len() implies (#[trigger] more[i]).0.id != (
        #[trigger] more[j]).0.id by {
            if j < rest.len() {
                assert(more[i] == stack[i] && more[j] == stack[j]);
            } else if i < rest.len() {
                assert(more[i] == stack[i]);
                let c = kids[j - rest.len()];
                assert(more[j] == (c, d + 1));
                if stack[i].0.id == c.id {
                    lemma_one_node(t, stack[i].0, c);
                    assert(fits(depths, stack[i].0, stack[i].1));
                }
            } else {
                assert(more[i].0 == kids[i - rest.len()]);
                assert(more[j].0 == kids[j - rest.len()]);
            }
        }
        assert forall|x: SessionNodeView| #[trigger]
            t.contains(x) && now.contains_key(x.id) implies fits(now, x, now[x.id]) by {
            if x.id == n.id {
                lemma_one_node(t, x, n);
            }
        }
        assert forall|x: SessionNodeView| #[trigger]
            t.contains(x) && (x.parent_id is None || now.contains_key(
                x.parent_id->0,
            )) implies now.contains_key(x.id) || waits(more, x.id) by {
            if x.parent_id == Some(n.id) {
                lemma_filter_member(t, keep, x);
                let k = kids.index_of(x);
                assert(more[rest.len() + k] == (x, d + 1));
            } else if waits(stack, x.id) {
                let k = choose|k: int| 0 <= k < stack.len() && (#[trigger] stack[k]).0.id == x.id;
                if k < rest.len() {
                    assert(more[k].0.id == x.id);
                }
            }
        }
        lemma_measured(t, more, now);
    }
}

/// In a tree of a scan, each session stands one deeper than its parent.
proof fn lemma_depths(snapshot: ScanSnapshotView, root: SessionNodeView)
    requires
        root.parent_id is None,
    ensures
        ({
            let t = tree_of(snapshot, root).nodes;
            let depths = depths_of(t);
            &&& distinct_ids(t)
            &&& forall|c: SessionNodeView, p: SessionNodeView|
                #![trigger t.contains(c), t.contains(p)]
                t.contains(c) && t.contains(p) && c.parent_id == Some(p.id) ==> depth_of(
                    depths,
                    c.id,
                ) == depth_of(depths, p.id) + 1
        }),
{
    let t = tree_of(snapshot, root).nodes;
    let w = walk(snapshot.nodes, seq![root], Seq::empty());
    lemma_walk_from_root(snapshot.nodes, root);
    lemma_sorted_distinct(w);
    let start = depth_roots(t);
    let keep = |n: SessionNodeView| n.parent_id is None;
    let tops = t.filter(keep);
    lemma_kids_distinct(t, keep);
    assert forall|k: int| 0 <= k < start.len() implies t.contains((#[trigger] start[k]).0)
        && start[k].0.parent_id is None && start[k].1 == 0 by {
        assert(start[k] == (tops[k], 0int));
        assert(tops.contains(tops[k]));
        lemma_filter_member(t, keep, tops[k]);
    }
    assert forall|i: int, j: int| 0 <= i < j < start.len() implies (#[trigger] start[i]).0.id != (
    #[trigger] start[j]).0.id by {
        assert(start[i].0 == tops[i] && start[j].0 == tops[j]);
    }
    assert forall|x: SessionNodeView| #[trigger] t.contains(x) && x.parent_id is None implies waits(
        start,
        x.id,
    ) by {
        lemma_filter_member(t, keep, x);
        let k = tops.index_of(x);
        assert(start[k] == (x, 0int));
    }
    assert(measuring(t, start, Map::empty()));
    lemma_measured(t, start, Map::empty());
    let depths = depths_of(t);
    assert forall|i: int| 0 <= i < w.len() implies depths.contains_key((#[trigger] w[i]).id) by {
        lemma_all_measured(t, w, depths, i);
    }
    assert forall|c: SessionNodeView, p: SessionNodeView|
        #![trigger t.contains(c), t.contains(p)]
        t.contains(c) && t.contains(p) && c.parent_id == Some(p.id) implies depth_of(depths, c.id)
        == depth_of(depths, p.id) + 1 by {
        lemma_sorted_contains(w, by_id(), c);
        let i = w.index_of(c);
        assert(w[i] == c);
        assert(fits(depths, c, depths[c.id]));
    }
}

proof fn lemma_all_measured(
    t: Seq<SessionNodeView>,
    w: Seq<SessionNodeView>,
    depths: Map<Seq<char>, int>,
    i: int,
)
    requires
        t == sorted_by(w, by_id()),
        measuring(t, Seq::empty(), depths),
        0 <= i < w.len(),
        w[0].parent_id is None,
        forall|k: int| 0 < k < w.len() ==> below(w, k, #[trigger] w[k]),
    ensures
        depths.contains_key(w[i].id),
    decreases i,
{
    assert(w.contains(w[i]));
    lemma_sorted_contains(w, by_id(), w[i]);
    if i > 0 {
        assert(below(w, i, w[i]));
        let j = choose|j: int| 0 <= j < i && w[i].parent_id == Some((#[trigger] w[j]).id);
        lemma_all_measured(t, w, depths, j);
    }
    assert(depths.contains_key(w[i].id) || waits(Seq::empty(), w[i].id));
}

proof fn lemma_by_depth_weak()
    ensures
        weak_order(by_depth()),
{
    assert forall|a: (int, SessionNodeView), b: (int, SessionNodeView)| #[trigger]
        by_depth()(a, b) implies !by_depth()(b, a) by {
        lemma_text_lt_order(a.1.id, b.1.id, a.1.id);
    }
    assert forall|
        a: (int, SessionNodeView),
        b: (int, SessionNodeView),
        c: (int, SessionNodeView),
    | !(#[trigger] by_depth()(b, a)) && !(#[trigger] by_depth()(c, b)) implies !by_depth()(
        c,
        a,
    ) by {
        lemma_text_lt_order(a.1.id, b.1.id, c.1.id);
        lemma_text_lt_order(b.1.id, c.1.id, a.1.id);
        lemma_text_lt_order(c.1.id, a.1.id, b.1.id);
    }
}

proof fn lemma_visited(nodes: Seq<SessionNodeView>, action: Action, x: (int, SessionNodeView))
    ensures
        visiting_order(nodes, action).contains(x) <==> nodes.contains(x.1) && x.0 == depth_of(
            depths_of(nodes),
            x.1.id,
        ),
{
    let placed = with_depths(nodes);
    let sorted = sorted_by(placed, by_depth());
    lemma_sorted_contains(placed, by_depth(), x);
    let order = visiting_order(nodes, action);
    if order.contains(x) {
        let k = order.index_of(x);
        if action is Archive || action is Delete {
            assert(sorted[sorted.len() - 1 - k] == x);
        }
        let m = placed.index_of(x);
        assert(nodes[m] == x.1);
    }
    if nodes.contains(x.1) && x.0 == depth_of(depths_of(nodes), x.1.id) {
        let m = nodes.index_of(x.1);
        assert(placed[m] == x);
        let k = sorted.index_of(x);
        if action is Archive || action is Delete {
            assert(order[sorted.len() - 1 - k] == x);
        }
    }
}

/// An action changes exactly the sessions that are in the state it starts
/// from: archiving those that are not archived, restoring and deleting those
/// that are.
pub proof fn law_impacted_members(nodes: Seq<SessionNodeView>, action: Action, id: Seq<char>)
    ensures
        impacted(nodes, action).contains(id) <==> exists|i: int|
            0 <= i < nodes.len() && (#[trigger] nodes[i]).id == id && affects(
                action,
                nodes[i].archived,
            ),
{
    let keep = |x: (int, SessionNodeView)| affects(action, x.1.archived);
    let order = visiting_order(nodes, action);
    let kept = order.filter(keep);
    let ids = impacted(nodes, action);
    if ids.contains(id) {
        let k = ids.index_of(id);
        assert(kept.contains(kept[k]));
        lemma_filter_member(order, keep, kept[k]);
        lemma_visited(nodes, action, kept[k]);
        let m = nodes.index_of(kept[k].1);
        assert(nodes[m].id == id);
    }
    if exists|i: int|
        0 <= i < nodes.len() && (#[trigger] nodes[i]).id == id && affects(
            action,
            nodes[i].archived,
        ) {
        let i = choose|i: int|
            0 <= i < nodes.len() && (#[trigger] nodes[i]).id == id && affects(
                action,
                nodes[i].archived,
            );
        let x = (depth_of(depths_of(nodes), id), nodes[i]);
        assert(nodes.contains(nodes[i]));
        lemma_visited(nodes, action, x);
        lemma_filter_member(order, keep, x);
        let k = kept.index_of(x);
        assert(ids[k] == id);
    }
}

/// In a tree of a scan, archiving and deleting change a session before its
/// parent, and restoring changes a parent before its children.
pub proof fn law_family_order(
    snapshot: ScanSnapshotView,
    root: SessionNodeView,
    action: Action,
    parent: SessionNodeView,
    child: SessionNodeView,
    i: int,
    j: int,
)
    requires
        root.parent_id is None,
        tree_of(snapshot, root).nodes.contains(parent),
        tree_of(snapshot, root).nodes.contains(child),
        child.parent_id == Some(parent.id),
        0 <= i < impacted(tree_of(snapshot, root).nodes, action).len(),
        0 <= j < impacted(tree_of(snapshot, root).nodes, action).len(),
        impacted(tree_of(snapshot, root).nodes, action)[i] == child.id,
        impacted(tree_of(snapshot, root).nodes, action)[j] == parent.id,
    ensures
        action is Archive || action is Delete ==> i < j,
        action is Restore ==> j < i,
{
    let t = tree_of(snapshot, root).nodes;
    lemma_depths(snapshot, root);
    lemma_by_depth_weak();
    let keep = |x: (int, SessionNodeView)| affects(action, x.1.archived);
    let upwards = action is Archive || action is Delete;
    let rel = |a: (int, SessionNodeView), b: (int, SessionNodeView)|
        if upwards {
            a.0 >= b.0
        } else {
            a.0 <= b.0
        };
    let sorted = sorted_by(with_depths(t), by_depth());
    law_sorted_in_order(with_depths(t), by_depth());
    let order = visiting_order(t, action);
    assert forall|a: int, b: int| 0 <= a < b < order.len() implies rel(
        #[trigger] order[a],
        #[trigger] order[b],
    ) by {
        if upwards {
            assert(!by_depth()(sorted[sorted.len() - 1 - a], sorted[sorted.len() - 1 - b]));
        } else {
            assert(!by_depth()(sorted[b], sorted[a]));
        }
    }
    lemma_filter_pairwise(order, keep, rel);
    let kept = order.filter(keep);
    lemma_kept_depth(t, action, i, child);
    lemma_kept_depth(t, action, j, parent);
    if i < j {
        assert(rel(kept[i], kept[j]));
    } else if j < i {
        assert(rel(kept[j], kept[i]));
    }
}

proof fn lemma_kept_depth(
    t: Seq<SessionNodeView>,
    action: Action,
    k: int,
    node: SessionNodeView,
)
    requires
        0 <= k < impacted(t, action).len(),
        impacted(t, action)[k] == node.id,
    ensures
        visiting_order(t, action).filter(
            |x: (int, SessionNodeView)| affects(action, x.1.archived),
        )[k].0 == depth_of(depths_of(t), node.id),
{
    let keep = |x: (int, SessionNodeView)| affects(action, x.1.archived);
    let order = visiting_order(t, action);
    let kept = order.filter(keep);
    assert(kept.contains(kept[k]));
    lemma_filter_member(order, keep, kept[k]);
    lemma_visited(t, action, kept[k]);
}

/// Trees with the same activity stay in the order of their roots.
pub proof fn law_ties_keep_the_order_of_roots(snapshot: ScanSnapshotView, last: i64)
    ensures
        ({
            let tied = |t: SessionTreeView| recency(t) == last;
            trees_of(snapshot).filter(tied) == roots_of(snapshot.nodes).map_values(
                |root: SessionNodeView| tree_of(snapshot, root),
            ).filter(tied)
        }),
{
    let made = roots_of(snapshot.nodes).map_values(
        |root: SessionNodeView| tree_of(snapshot, root),
    );
    let lt = by_recency();
    let tied = |t: SessionTreeView| recency(t) == last;
    let x = SessionTreeView {
        root_id: Seq::empty(),
        nodes: Seq::empty(),
        last_activity: Some(last),
        protection: Seq::empty(),
    };
    let same = |t: SessionTreeView| !lt(t, x) && !lt(x, t);
    assert(weak_order(lt));
    law_sorted_stable(made, lt, x);
    assert(same =~= tied);
}

/// The last activity of a tree is the latest of its sessions, and is missing
/// exactly where all of theirs are.
pub proof fn law_latest_activity(nodes: Seq<SessionNodeView>)
    ensures
        latest(nodes) is None <==> forall|i: int|
            0 <= i < nodes.len() ==> (#[trigger] nodes[i]).last_activity is None,
        latest(nodes) matches Some(last) ==> {
            &&& exists|i: int|
                0 <= i < nodes.len() && (#[trigger] nodes[i]).last_activity == Some(last)
            &&& forall|i: int|
                0 <= i < nodes.len() ==> ((#[trigger] nodes[i]).last_activity matches Some(other)
                    ==> other <= last)
        },
    decreases nodes.len(),
{
    if nodes.len() > 0 {
        let head = nodes.drop_last();
        law_latest_activity(head);
        assert(nodes[nodes.len() - 1] == nodes.last());
        assert forall|i: int| 0 <= i < head.len() implies head[i] == #[trigger] nodes[i] by {}
        if latest(head) is None {
            assert forall|i: int| 0 <= i < head.len() implies (
            #[trigger] nodes[i]).last_activity is None by {
                assert(head[i].last_activity is None);
            }
        } else {
            let before = latest(head)->0;
            let k = choose|k: int|
                0 <= k < head.len() && (#[trigger] head[k]).last_activity == Some(before);
            assert(nodes[k].last_activity == Some(before));
            assert forall|i: int| 0 <= i < head.len() implies ((
            #[trigger] nodes[i]).last_activity matches Some(other) ==> other <= before) by {
                assert(head[i].last_activity == nodes[i].last_activity);
            }
        }
    }
}

proof fn lemma_by_id_descending_weak()
    ensures
        weak_order(by_id_descending()),
{
    let lt = by_id_descending();
    assert forall|a: SessionNodeView, b: SessionNodeView| #[trigger] lt(a, b) implies !lt(b, a) by {
        lemma_text_lt_order(a.id, b.id, a.id);
    }
    assert forall|a: SessionNodeView, b: SessionNodeView, c: SessionNodeView|
        !(#[trigger] lt(b, a)) && !(#[trigger] lt(c, b)) implies !lt(c, a) by {
        lemma_text_lt_order(b.id, c.id, a.id);
        lemma_text_lt_order(a.id, c.id, b.id);
    }
}

proof fn lemma_children_permuted(
    a: Seq<SessionNodeView>,
    b: Seq<SessionNodeView>,
    id: Seq<char>,
)
    requires
        distinct_ids(a),
        a.to_multiset() == b.to_multiset(),
    ensures
        sorted_by(children_of(a, id), by_id_descending()) == sorted_by(
            children_of(b, id),
            by_id_descending(),
        ),
{
    let keep = |n: SessionNodeView| n.parent_id == Some(id);
    let lt = by_id_descending();
    lemma_filter_permuted(a, b, keep);
    lemma_by_id_descending_weak();
    let kids = children_of(a, id);
    assert forall|x: SessionNodeView, y: SessionNodeView| #[trigger]
        kids.contains(x) && #[trigger] kids.contains(y) && x != y implies lt(x, y) || lt(y, x) by {
        lemma_filter_member(a, keep, x);
        lemma_filter_member(a, keep, y);
        if x.id == y.id {
            lemma_one_node(a, x, y);
        }
        lemma_text_lt_order(x.id, y.id, x.id);
    }
    lemma_sorted_same(kids, children_of(b, id), lt);
}

proof fn lemma_walk_permuted(
    a: Seq<SessionNodeView>,
    b: Seq<SessionNodeView>,
    stack: Seq<SessionNodeView>,
    seen: Seq<SessionNodeView>,
)
    requires
        distinct_ids(a),
        a.to_multiset() == b.to_multiset(),
    ensures
        walk(a, stack, seen) == walk(b, stack, seen),
    decreases pool(a, ids_of(seen)) + stack.len(),
{
    if stack.len() > 0 {
        if has_id(seen, stack.last().id) {
            lemma_walk_permuted(a, b, stack.drop_last(), seen);
        } else {
            let id = stack.last().id;
            lemma_pool_shrinks(a, ids_of(seen), id);
            lemma_ids_push(seen, stack.last());
            law_sorted_permutation(children_of(a, id), by_id_descending());
            lemma_children_permuted(a, b, id);
            lemma_walk_permuted(
                a,
                b,
                stack.drop_last() + sorted_by(children_of(a, id), by_id_descending()),
                seen.push(stack.last()),
            );
        }
    }
}

/// The order in which a scan lists its sessions does not matter: below each
/// root stands the same tree, and the trees are the same but for their order.
pub proof fn law_order_of_a_scan_does_not_matter(a: ScanSnapshotView, b: ScanSnapshotView)
    requires
        distinct_ids(a.nodes),
        a.nodes.to_multiset() == b.nodes.to_multiset(),
        a.relation_complete == b.relation_complete,
        a.write_capable == b.write_capable,
    ensures
        forall|root: SessionNodeView| #[trigger] tree_of(a, root) == tree_of(b, root),
        trees_of(a).to_multiset() == trees_of(b).to_multiset(),
{
    assert forall|root: SessionNodeView| #[trigger] tree_of(a, root) == tree_of(b, root) by {
        lemma_walk_permuted(a.nodes, b.nodes, seq![root], Seq::empty());
    }
    let below_a = |root: SessionNodeView| tree_of(a, root);
    let below_b = |root: SessionNodeView| tree_of(b, root);
    assert(below_a =~= below_b);
    lemma_filter_permuted(a.nodes, b.nodes, |n: SessionNodeView| is_root(n));
    let roots_a = roots_of(a.nodes);
    let roots_b = roots_of(b.nodes);
    lemma_map_permuted(roots_a, roots_b, below_a);
    law_sorted_permutation(roots_a.map_values(below_a), by_recency());
    law_sorted_permutation(roots_b.map_values(below_b), by_recency());
}

/// Deleting visits the sessions of a tree in the reverse of the order in which
/// restoring visits them.
pub proof fn law_deleting_reverses_restoring(nodes: Seq<SessionNodeView>)
    ensures
        impacted(nodes, Action::Delete) == impacted(nodes, Action::Restore).reverse(),
{
    let sorted = visiting_order(nodes, Action::Restore);
    let deleted = |x: (int, SessionNodeView)| affects(Action::Delete, x.1.archived);
    let restored = |x: (int, SessionNodeView)| affects(Action::Restore, x.1.archived);
    assert(deleted =~= restored);
    lemma_filter_reversed(sorted, restored);
    assert(impacted(nodes, Action::Delete) =~= impacted(nodes, Action::Restore).reverse());
}

/// Restoring goes down from depth to depth, and through one depth by ascending
/// ids; archiving and deleting go up, and through one depth by descending ids.
/// A child stands one deeper than its parent.
pub proof fn law_depth_order(
    snapshot: ScanSnapshotView,
    root: SessionNodeView,
    action: Action,
    i: int,
    j: int,
)
    requires
        root.parent_id is None,
        0 <= i < j < impacted(tree_of(snapshot, root).nodes, action).len(),
    ensures
        ({
            let t = tree_of(snapshot, root).nodes;
            let depths = depths_of(t);
            let sooner = impacted(t, action)[i];
            let later = impacted(t, action)[j];
            &&& action is Restore ==> depth_of(depths, sooner) < depth_of(depths, later) || (
            depth_of(depths, sooner) == depth_of(depths, later) && text_lt(sooner, later))
            &&& action is Archive || action is Delete ==> depth_of(depths, later) < depth_of(
                depths,
                sooner,
            ) || (depth_of(depths, sooner) == depth_of(depths, later) && text_lt(later, sooner))
            &&& forall|c: SessionNodeView, p: SessionNodeView|
                #![trigger t.contains(c), t.contains(p)]
                t.contains(c) && t.contains(p) && c.parent_id == Some(p.id) ==> depth_of(
                    depths,
                    c.id,
                ) == depth_of(depths, p.id) + 1
        }),
{
    let t = tree_of(snapshot, root).nodes;
    let depths = depths_of(t);
    lemma_depths(snapshot, root);
    lemma_by_depth_weak();
    let keep = |x: (int, SessionNodeView)| affects(action, x.1.archived);
    let upwards = action is Archive || action is Delete;
    let rel = |a: (int, SessionNodeView), b: (int, SessionNodeView)|
        if upwards {
            by_depth()(b, a)
        } else {
            by_depth()(a, b)
        };
    let placed = with_depths(t);
    let sorted = sorted_by(placed, by_depth());
    law_sorted_in_order(placed, by_depth());
    law_sorted_permutation(placed, by_depth());
    lemma_placed_apart(t);
    let order = visiting_order(t, action);
    assert forall|a: int, b: int| 0 <= a < b < order.len() implies rel(
        #[trigger] order[a],
        #[trigger] order[b],
    ) by {
        let n = sorted.len() - 1;
        if upwards {
            lemma_strict(t, n - b, n - a);
        } else {
            lemma_strict(t, a, b);
        }
    }
    lemma_filter_pairwise(order, keep, rel);
    let kept = order.filter(keep);
    assert(rel(kept[i], kept[j]));
    assert(kept.contains(kept[i]) && kept.contains(kept[j]));
    lemma_filter_member(order, keep, kept[i]);
    lemma_filter_member(order, keep, kept[j]);
    lemma_visited(t, action, kept[i]);
    lemma_visited(t, action, kept[j]);
}

/// The sessions of a tree with distinct ids, with their depths, are all told
/// apart.
proof fn lemma_placed_apart(t: Seq<SessionNodeView>)
    requires
        distinct_ids(t),
    ensures
        forall|a: int, b: int|
            0 <= a < b < with_depths(t).len() ==> (#[trigger] with_depths(t)[a]).1.id != (
            #[trigger] with_depths(t)[b]).1.id,
        with_depths(t).no_duplicates(),
{
    let placed = with_depths(t);
    assert forall|a: int, b: int| 0 <= a < b < placed.len() implies (#[trigger] placed[a]).1.id != (
    #[trigger] placed[b]).1.id by {
        assert(placed[a].1 == t[a] && placed[b].1 == t[b]);
    }
}

proof fn lemma_strict(t: Seq<SessionNodeView>, a: int, b: int)
    requires
        distinct_ids(t),
        0 <= a < b < sorted_by(with_depths(t), by_depth()).len(),
    ensures
        by_depth()(
            sorted_by(with_depths(t), by_depth())[a],
            sorted_by(with_depths(t), by_depth())[b],
        ),
{
    let placed = with_depths(t);
    let sorted = sorted_by(placed, by_depth());
    lemma_by_depth_weak();
    law_sorted_in_order(placed, by_depth());
    law_sorted_permutation(placed, by_depth());
    lemma_placed_apart(t);
    placed.lemma_multiset_has_no_duplicates();
    sorted.lemma_multiset_has_no_duplicates_conv();
    let x = sorted[a];
    let y = sorted[b];
    assert(!by_depth()(y, x));
    assert(x != y);
    assert(sorted.contains(x) && sorted.contains(y));
    lemma_sorted_contains(placed, by_depth(), x);
    lemma_sorted_contains(placed, by_depth(), y);
    let i = placed.index_of(x);
    let j = placed.index_of(y);
    assert(placed[i].1.id != placed[j].1.id);
    lemma_text_lt_order(x.1.id, y.1.id, x.1.id);
}

} // verus!
