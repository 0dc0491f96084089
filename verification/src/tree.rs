//! How sessions form trees, and in which order an action visits a tree.

use crate::domain::{
    interactive, node_protection, Action, ProtectionReason, ProtectionReasonView, ScanSnapshot,
    ScanSnapshotView, SessionNode, SessionNodeView, SessionTree, SessionTreeView,
    status_signature,
};
use crate::filter::or_empty;
use crate::ordered::{
    law_sorted_permutation, lemma_filter_member, sorted_by, stable_sort, Order, TextMap, TextSet,
};
use crate::text::{join, joined, less, signed_decimal, signed_decimal_text, text_lt};
use vstd::prelude::*;
use vstd::string::*;

verus! {

broadcast use vstd::group_vstd_default;

/// The sessions whose parent is `id`, in the order of the scan.
pub open spec fn children_of(nodes: Seq<SessionNodeView>, id: Seq<char>) -> Seq<SessionNodeView> {
    nodes.filter(|n: SessionNodeView| n.parent_id == Some(id))
}

/// Some session of `nodes` has the id.
pub open spec fn has_id(nodes: Seq<SessionNodeView>, id: Seq<char>) -> bool {
    exists|i: int| 0 <= i < nodes.len() && (#[trigger] nodes[i]).id == id
}

/// The ids of the sessions of `nodes`.
pub open spec fn ids_of(nodes: Seq<SessionNodeView>) -> Set<Seq<char>> {
    Set::new(|id: Seq<char>| has_id(nodes, id))
}

/// Ascending by id.
pub open spec fn by_id() -> spec_fn(SessionNodeView, SessionNodeView) -> bool {
    |a: SessionNodeView, b: SessionNodeView| text_lt(a.id, b.id)
}

/// Descending by id.
pub open spec fn by_id_descending() -> spec_fn(SessionNodeView, SessionNodeView) -> bool {
    |a: SessionNodeView, b: SessionNodeView| text_lt(b.id, a.id)
}

pub struct ById;

impl Order<SessionNode> for ById {
    open spec fn order() -> spec_fn(SessionNodeView, SessionNodeView) -> bool {
        by_id()
    }

    fn before(a: &SessionNode, b: &SessionNode) -> (r: bool) {
        less(a.id.as_str(), b.id.as_str())
    }
}

pub struct ByIdDescending;

impl<'a> Order<&'a SessionNode> for ByIdDescending {
    open spec fn order() -> spec_fn(SessionNodeView, SessionNodeView) -> bool {
        by_id_descending()
    }

    fn before(a: &&'a SessionNode, b: &&'a SessionNode) -> (r: bool) {
        less(b.id.as_str(), a.id.as_str())
    }
}

/// How many sessions have a parent outside of `expanded`.
pub open spec fn pool(nodes: Seq<SessionNodeView>, expanded: Set<Seq<char>>) -> nat {
    nodes.filter(
        |n: SessionNodeView| n.parent_id is Some && !expanded.contains(n.parent_id->0),
    ).len()
}

/// Expanding one more id takes its children, and no others, out of the pool.
pub proof fn lemma_pool_shrinks(
    nodes: Seq<SessionNodeView>,
    expanded: Set<Seq<char>>,
    id: Seq<char>,
)
    requires
        !expanded.contains(id),
    ensures
        pool(nodes, expanded) == pool(nodes, expanded.insert(id)) + children_of(nodes, id).len(),
    decreases nodes.len(),
{
    reveal(Seq::filter);
    if nodes.len() > 0 {
        lemma_pool_shrinks(nodes.drop_last(), expanded, id);
    }
}

pub proof fn lemma_ids_push(seen: Seq<SessionNodeView>, node: SessionNodeView)
    ensures
        ids_of(seen.push(node)) == ids_of(seen).insert(node.id),
{
    assert forall|id: Seq<char>| has_id(seen.push(node), id) <==> has_id(seen, id) || id
        == node.id by {
        if has_id(seen, id) {
            let k = choose|k: int| 0 <= k < seen.len() && (#[trigger] seen[k]).id == id;
            assert(seen.push(node)[k].id == id);
        }
        if id == node.id {
            assert(seen.push(node)[seen.len() as int].id == id);
        }
        if has_id(seen.push(node), id) {
            let k = choose|k: int|
                0 <= k < seen.push(node).len() && (#[trigger] seen.push(node)[k]).id == id;
            if k < seen.len() {
                assert(seen[k].id == id);
            }
        }
    }
    assert(ids_of(seen.push(node)) =~= ids_of(seen).insert(node.id));
}

/// The sessions met on the way down: the last of the stack is taken next; a
/// session whose id was met before is passed over, any other is met and its
/// children are put on the stack, so that the one with the smallest id is
/// taken first.
pub open spec fn walk(
    nodes: Seq<SessionNodeView>,
    stack: Seq<SessionNodeView>,
    seen: Seq<SessionNodeView>,
) -> Seq<SessionNodeView>
    decreases pool(nodes, ids_of(seen)) + stack.len(),
{
    if stack.len() == 0 {
        seen
    } else if has_id(seen, stack.last().id) {
        walk(nodes, stack.drop_last(), seen)
    } else {
        proof {
            let children = children_of(nodes, stack.last().id);
            lemma_pool_shrinks(nodes, ids_of(seen), stack.last().id);
            lemma_ids_push(seen, stack.last());
            law_sorted_permutation(children, by_id_descending());
        }
        walk(
            nodes,
            stack.drop_last() + sorted_by(
                children_of(nodes, stack.last().id),
                by_id_descending(),
            ),
            seen.push(stack.last()),
        )
    }
}

/// The latest activity of the sessions.
pub open spec fn latest(nodes: Seq<SessionNodeView>) -> Option<i64>
    decreases nodes.len(),
{
    if nodes.len() == 0 {
        None
    } else {
        match (latest(nodes.drop_last()), nodes.last().last_activity) {
            (None, last) => last,
            (Some(earlier), None) => Some(earlier),
            (Some(earlier), Some(last)) => Some(
                if last > earlier {
                    last
                } else {
                    earlier
                },
            ),
        }
    }
}

/// The reasons that protect the sessions, in their order.
pub open spec fn node_reasons(nodes: Seq<SessionNodeView>) -> Seq<ProtectionReasonView>
    decreases nodes.len(),
{
    if nodes.len() == 0 {
        Seq::empty()
    } else {
        match node_protection(nodes.last()) {
            Some(reason) => node_reasons(nodes.drop_last()).push(reason),
            None => node_reasons(nodes.drop_last()),
        }
    }
}

/// The reasons that a scan gives for all of its trees.
pub open spec fn scan_reasons(snapshot: ScanSnapshotView) -> Seq<ProtectionReasonView> {
    (if snapshot.relation_complete {
        Seq::empty()
    } else {
        seq![ProtectionReasonView::IncompleteRelations]
    }) + (if snapshot.write_capable {
        Seq::empty()
    } else {
        seq![ProtectionReasonView::WriteCapabilityMissing]
    })
}

/// The sessions of the tree below `root`, ascending by id.
pub open spec fn tree_nodes(
    nodes: Seq<SessionNodeView>,
    root: SessionNodeView,
) -> Seq<SessionNodeView> {
    sorted_by(walk(nodes, seq![root], Seq::empty()), by_id())
}

/// The tree below `root`.
pub open spec fn tree_of(snapshot: ScanSnapshotView, root: SessionNodeView) -> SessionTreeView {
    let nodes = tree_nodes(snapshot.nodes, root);
    SessionTreeView {
        root_id: root.id,
        nodes,
        last_activity: latest(nodes),
        protection: node_reasons(nodes) + scan_reasons(snapshot),
    }
}

/// An interactive session without a parent.
pub open spec fn is_root(node: SessionNodeView) -> bool {
    node.parent_id is None && interactive(node.source)
}

/// The sessions at which trees begin, in the order of the scan.
pub open spec fn roots_of(nodes: Seq<SessionNodeView>) -> Seq<SessionNodeView> {
    nodes.filter(|n: SessionNodeView| is_root(n))
}

/// The last activity of a tree, the smallest number where it is missing.
pub open spec fn recency(tree: SessionTreeView) -> i64 {
    match tree.last_activity {
        Some(last) => last,
        None => i64::MIN,
    }
}

/// Latest activity first.
pub open spec fn by_recency() -> spec_fn(SessionTreeView, SessionTreeView) -> bool {
    |a: SessionTreeView, b: SessionTreeView| recency(a) > recency(b)
}

pub struct ByRecency;

impl Order<SessionTree> for ByRecency {
    open spec fn order() -> spec_fn(SessionTreeView, SessionTreeView) -> bool {
        by_recency()
    }

    fn before(a: &SessionTree, b: &SessionTree) -> (r: bool) {
        let left: i64 = match a.last_activity {
            Some(last) => last,
            None => i64::MIN,
        };
        let right: i64 = match b.last_activity {
            Some(last) => last,
            None => i64::MIN,
        };
        left > right
    }
}

/// The trees of a scan, one below each root, latest activity first; trees
/// with the same activity stay in the order of their roots.
pub open spec fn trees_of(snapshot: ScanSnapshotView) -> Seq<SessionTreeView> {
    sorted_by(
        roots_of(snapshot.nodes).map_values(|root: SessionNodeView| tree_of(snapshot, root)),
        by_recency(),
    )
}

/// What `index` must hold of the children among the first sessions.
spec fn indexes(
    index: Map<Seq<char>, Seq<SessionNodeView>>,
    nodes: Seq<SessionNodeView>,
) -> bool {
    forall|id: Seq<char>|
        #![trigger index.contains_key(id)]
        #![trigger children_of(nodes, id)]
        if index.contains_key(id) {
            index[id] == children_of(nodes, id)
        } else {
            children_of(nodes, id) == Seq::<SessionNodeView>::empty()
        }
}

/// Groups sessions by their parent.
fn index_children<'a>(nodes: &'a Vec<SessionNode>) -> (r: TextMap<Vec<&'a SessionNode>>)
    ensures
        indexes(r@, nodes.deep_view()),
{
    let ghost all = nodes.deep_view();
    let mut index: TextMap<Vec<&'a SessionNode>> = TextMap::new();
    let mut i: usize = 0;
    proof {
        reveal(Seq::filter);
        assert(all.take(0) =~= Seq::empty());
    }
    while i < nodes.len()
        invariant
            i <= nodes@.len(),
            all == nodes.deep_view(),
            indexes(index@, all.take(i as int)),
        decreases nodes.len() - i,
    {
        let ghost before = all.take(i as int);
        let ghost after = all.take(i as int + 1);
        let ghost old_index = index@;
        proof {
            reveal(Seq::filter);
            assert(after.drop_last() =~= before);
            assert(after.last() == all[i as int]);
        }
        let node: &'a SessionNode = &nodes[i];
        match &node.parent_id {
            Some(parent) => {
                let mut values: Vec<&'a SessionNode> = match index.remove(parent.as_str()) {
                    Some(found) => found,
                    None => Vec::new(),
                };
                let ghost earlier = values.deep_view();
                assert(children_of(before, parent@) =~= earlier);
                values.push(node);
                assert(values.deep_view() =~= earlier.push(all[i as int]));
                index.insert(parent.clone(), values);
                proof {
                    assert forall|id: Seq<char>| #[trigger] index@.contains_key(id) implies index@[id]
                        == children_of(after, id) by {
                        if id != parent@ {
                            assert(old_index.contains_key(id));
                        }
                    }
                    assert forall|id: Seq<char>| !(#[trigger] index@.contains_key(id)) implies children_of(
                        after,
                        id,
                    ) == Seq::<SessionNodeView>::empty() by {
                        assert(!old_index.contains_key(id));
                    }
                }
            },
            None => {
                proof {
                    assert forall|id: Seq<char>| children_of(after, id) == children_of(
                        before,
                        id,
                    ) by {}
                }
            },
        }
        i += 1;
    }
    assert(all.take(i as int) =~= all);
    index
}

/// A copy of a list of borrowed sessions.
fn copy_borrowed<'a>(v: &Vec<&'a SessionNode>) -> (r: Vec<&'a SessionNode>)
    ensures
        r.deep_view() == v.deep_view(),
{
    let mut r: Vec<&'a SessionNode> = Vec::new();
    let mut i: usize = 0;
    while i < v.len()
        invariant
            i <= v@.len(),
            r.deep_view() == v.deep_view().take(i as int),
        decreases v.len() - i,
    {
        let ghost before = r.deep_view();
        r.push(v[i]);
        assert(r.deep_view() =~= before.push(v.deep_view()[i as int]));
        assert(r.deep_view() =~= v.deep_view().take(i as int + 1));
        i += 1;
    }
    assert(r.deep_view() =~= v.deep_view());
    r
}

/// Collects the sessions below `root`.
fn collect<'a>(
    nodes: &'a Vec<SessionNode>,
    index: &TextMap<Vec<&'a SessionNode>>,
    root: &'a SessionNode,
) -> (r: Vec<SessionNode>)
    requires
        indexes(index@, nodes.deep_view()),
    ensures
        r.deep_view() == walk(nodes.deep_view(), seq![root.deep_view()], Seq::empty()),
{
    let ghost all = nodes.deep_view();
    let mut out: Vec<SessionNode> = Vec::new();
    let mut stack: Vec<&'a SessionNode> = Vec::new();
    stack.push(root);
    let mut visited = TextSet::new();
    assert(stack.deep_view() =~= seq![root.deep_view()]);
    assert(out.deep_view() =~= Seq::empty());
    assert(visited@ =~= ids_of(out.deep_view()));
    while stack.len() > 0
        invariant
            all == nodes.deep_view(),
            indexes(index@, all),
            visited@ == ids_of(out.deep_view()),
            walk(all, stack.deep_view(), out.deep_view()) == walk(
                all,
                seq![root.deep_view()],
                Seq::empty(),
            ),
        decreases pool(all, ids_of(out.deep_view())) + stack@.len(),
    {
        let ghost before = stack.deep_view();
        let ghost seen = out.deep_view();
        match stack.pop() {
            Some(node) => {
                let ghost nv = node.deep_view();
                assert(before.last() == nv);
                assert(stack.deep_view() =~= before.drop_last());
                assert(visited@.contains(nv.id) <==> has_id(seen, nv.id));
                if visited.insert(node.id.clone()) {
                    out.push(node.clone());
                    assert(out.deep_view() =~= seen.push(nv));
                    let ghost rest = stack.deep_view();
                    proof {
                        lemma_ids_push(seen, nv);
                        lemma_pool_shrinks(all, ids_of(seen), nv.id);
                        law_sorted_permutation(children_of(all, nv.id), by_id_descending());
                        assert(index@.contains_key(nv.id) || !index@.contains_key(nv.id));
                    }
                    match index.get(node.id.as_str()) {
                        Some(values) => {
                            let mut children = stable_sort::<&'a SessionNode, ByIdDescending>(
                                copy_borrowed(values),
                            );
                            let ghost pushed = children.deep_view();
                            stack.append(&mut children);
                            assert(stack.deep_view() =~= rest + pushed);
                        },
                        None => {
                            assert(sorted_by(children_of(all, nv.id), by_id_descending())
                                =~= Seq::empty());
                            assert(rest =~= rest + sorted_by(
                                children_of(all, nv.id),
                                by_id_descending(),
                            ));
                        },
                    }
                } else {
                    assert(visited@ =~= ids_of(seen));
                }
            },
            None => {},
        }
    }
    out
}

/// The latest activity of a list of sessions.
fn latest_activity(nodes: &Vec<SessionNode>) -> (r: Option<i64>)
    ensures
        r == latest(nodes.deep_view()),
{
    let ghost all = nodes.deep_view();
    let mut r: Option<i64> = None;
    let mut i: usize = 0;
    while i < nodes.len()
        invariant
            i <= nodes@.len(),
            all == nodes.deep_view(),
            r == latest(all.take(i as int)),
        decreases nodes.len() - i,
    {
        proof {
            assert(all.take(i as int + 1).drop_last() =~= all.take(i as int));
            assert(all.take(i as int + 1).last() == all[i as int]);
        }
        match (r, nodes[i].last_activity) {
            (None, last) => {
                r = last;
            },
            (Some(_), None) => {},
            (Some(earlier), Some(last)) => {
                if last > earlier {
                    r = Some(last);
                }
            },
        }
        i += 1;
    }
    assert(all.take(i as int) =~= all);
    r
}

/// The reasons that protect a list of sessions.
fn reasons_among(nodes: &Vec<SessionNode>) -> (r: Vec<ProtectionReason>)
    ensures
        r.deep_view() == node_reasons(nodes.deep_view()),
{
    let ghost all = nodes.deep_view();
    let mut r: Vec<ProtectionReason> = Vec::new();
    let mut i: usize = 0;
    assert(r.deep_view() =~= node_reasons(all.take(0)));
    while i < nodes.len()
        invariant
            i <= nodes@.len(),
            all == nodes.deep_view(),
            r.deep_view() == node_reasons(all.take(i as int)),
        decreases nodes.len() - i,
    {
        let ghost before = r.deep_view();
        proof {
            assert(all.take(i as int + 1).drop_last() =~= all.take(i as int));
            assert(all.take(i as int + 1).last() == all[i as int]);
        }
        match nodes[i].protection_reason() {
            Some(reason) => {
                r.push(reason);
                assert(r.deep_view() =~= before.push(reason.deep_view()));
            },
            None => {},
        }
        i += 1;
    }
    assert(all.take(i as int) =~= all);
    r
}

/// Builds the trees of a scan.
pub fn build_trees(snapshot: &ScanSnapshot) -> (r: Vec<SessionTree>)
    ensures
        r.deep_view() == trees_of(snapshot.deep_view()),
{
    let ghost scan = snapshot.deep_view();
    let ghost all = snapshot.nodes.deep_view();
    let ghost make = |root: SessionNodeView| tree_of(scan, root);
    let index = index_children(&snapshot.nodes);
    let mut trees: Vec<SessionTree> = Vec::new();
    let mut i: usize = 0;
    proof {
        reveal(Seq::filter);
        assert(trees.deep_view() =~= roots_of(all.take(0)).map_values(make));
    }
    while i < snapshot.nodes.len()
        invariant
            i <= snapshot.nodes@.len(),
            scan == snapshot.deep_view(),
            all == snapshot.nodes.deep_view(),
            make == (|root: SessionNodeView| tree_of(scan, root)),
            indexes(index@, all),
            trees.deep_view() == roots_of(all.take(i as int)).map_values(make),
        decreases snapshot.nodes.len() - i,
    {
        proof {
            reveal(Seq::filter);
            assert(all.take(i as int + 1).drop_last() =~= all.take(i as int));
            assert(all.take(i as int + 1).last() == all[i as int]);
        }
        let root = &snapshot.nodes[i];
        if root.parent_id.is_none() && root.source.is_interactive_root() {
            let ghost before = trees.deep_view();
            let nodes = stable_sort::<SessionNode, ById>(collect(&snapshot.nodes, &index, root));
            let last_activity = latest_activity(&nodes);
            let mut protection = reasons_among(&nodes);
            let ghost first = protection.deep_view();
            if !snapshot.relation_complete {
                protection.push(ProtectionReason::IncompleteRelations);
            }
            if !snapshot.write_capable {
                protection.push(ProtectionReason::WriteCapabilityMissing);
            }
            assert(protection.deep_view() =~= first + scan_reasons(scan));
            let tree = SessionTree { root_id: root.id.clone(), nodes, last_activity, protection };
            trees.push(tree);
            proof {
                assert(tree.deep_view() == tree_of(scan, all[i as int]));
                assert(trees.deep_view() =~= before.push(tree.deep_view()));
                assert(roots_of(all.take(i as int + 1)) == roots_of(all.take(i as int)).push(
                    all[i as int],
                ));
                assert(roots_of(all.take(i as int)).push(all[i as int]).map_values(make)
                    =~= before.push(make(all[i as int])));
            }
        }
        i += 1;
    }
    assert(all.take(i as int) =~= all);
    stable_sort::<SessionTree, ByRecency>(trees)
}

/// The sum of the sizes of the rollout files; none where a size is missing or
/// the sum does not fit.
pub open spec fn total_size(nodes: Seq<SessionNodeView>) -> Option<int>
    decreases nodes.len(),
{
    if nodes.len() == 0 {
        Some(0)
    } else {
        match (total_size(nodes.drop_last()), nodes.last().rollout_bytes) {
            (Some(total), Some(bytes)) => if total + bytes <= u64::MAX {
                Some(total + bytes)
            } else {
                None
            },
            _ => None,
        }
    }
}

/// A session without a parent, at depth zero, for each such session.
pub open spec fn depth_roots(nodes: Seq<SessionNodeView>) -> Seq<(SessionNodeView, int)> {
    nodes.filter(|n: SessionNodeView| n.parent_id is None).map_values(
        |n: SessionNodeView| (n, 0int),
    )
}

/// The children of `id`, all at one depth.
pub open spec fn children_at(
    nodes: Seq<SessionNodeView>,
    id: Seq<char>,
    depth: int,
) -> Seq<(SessionNodeView, int)> {
    children_of(nodes, id).map_values(|n: SessionNodeView| (n, depth))
}

/// The depth at which each id is met last on the way down from the sessions
/// of the stack; the children of an id are followed when it is first met.
pub open spec fn depth_walk(
    nodes: Seq<SessionNodeView>,
    stack: Seq<(SessionNodeView, int)>,
    depths: Map<Seq<char>, int>,
) -> Map<Seq<char>, int>
    decreases pool(nodes, depths.dom()) + stack.len(),
{
    if stack.len() == 0 {
        depths
    } else {
        let (node, depth) = stack.last();
        if depths.contains_key(node.id) {
            proof {
                assert(depths.insert(node.id, depth).dom() =~= depths.dom());
            }
            depth_walk(nodes, stack.drop_last(), depths.insert(node.id, depth))
        } else {
            proof {
                lemma_pool_shrinks(nodes, depths.dom(), node.id);
                assert(depths.insert(node.id, depth).dom() =~= depths.dom().insert(node.id));
            }
            depth_walk(
                nodes,
                stack.drop_last() + children_at(nodes, node.id, depth + 1),
                depths.insert(node.id, depth),
            )
        }
    }
}

/// The depth of each id below the sessions without a parent.
pub open spec fn depths_of(nodes: Seq<SessionNodeView>) -> Map<Seq<char>, int> {
    depth_walk(nodes, depth_roots(nodes), Map::empty())
}

/// The depth of an id, zero where it is never met.
pub open spec fn depth_of(depths: Map<Seq<char>, int>, id: Seq<char>) -> int {
    if depths.contains_key(id) {
        depths[id]
    } else {
        0
    }
}

/// Sessions with their depth.
pub open spec fn with_depths(nodes: Seq<SessionNodeView>) -> Seq<(int, SessionNodeView)> {
    nodes.map_values(|n: SessionNodeView| (depth_of(depths_of(nodes), n.id), n))
}

/// Ascending by depth, then by id.
pub open spec fn by_depth() -> spec_fn((int, SessionNodeView), (int, SessionNodeView)) -> bool {
    |a: (int, SessionNodeView), b: (int, SessionNodeView)|
        a.0 < b.0 || (a.0 == b.0 && text_lt(a.1.id, b.1.id))
}

/// An action changes sessions in this state.
pub open spec fn affects(action: Action, archived: bool) -> bool {
    match action {
        Action::Archive => !archived,
        Action::Restore => archived,
        Action::Delete => archived,
        Action::Cleanup => false,
    }
}

/// The order in which an action visits all sessions of a tree: upwards for
/// archiving and deleting, downwards for restoring.
pub open spec fn visiting_order(
    nodes: Seq<SessionNodeView>,
    action: Action,
) -> Seq<(int, SessionNodeView)> {
    let sorted = sorted_by(with_depths(nodes), by_depth());
    if action is Archive || action is Delete {
        sorted.reverse()
    } else {
        sorted
    }
}

/// The ids that an action changes, in the order in which it changes them.
pub open spec fn impacted(nodes: Seq<SessionNodeView>, action: Action) -> Seq<Seq<char>> {
    visiting_order(nodes, action).filter(
        |x: (int, SessionNodeView)| affects(action, x.1.archived),
    ).map_values(|x: (int, SessionNodeView)| x.1.id)
}

/// One session with its depth.
pub struct DeepNode<'a> {
    pub depth: usize,
    pub node: &'a SessionNode,
}

impl<'a> DeepView for DeepNode<'a> {
    type V = (int, SessionNodeView);

    open spec fn deep_view(&self) -> (int, SessionNodeView) {
        (self.depth as int, self.node.deep_view())
    }
}

pub struct ByDepth;

impl<'a> Order<DeepNode<'a>> for ByDepth {
    open spec fn order() -> spec_fn((int, SessionNodeView), (int, SessionNodeView)) -> bool {
        by_depth()
    }

    fn before(a: &DeepNode<'a>, b: &DeepNode<'a>) -> (r: bool) {
        a.depth < b.depth || (a.depth == b.depth && less(a.node.id.as_str(), b.node.id.as_str()))
    }
}

proof fn lemma_few_ids(nodes: Seq<SessionNodeView>, found: Set<Seq<char>>)
    requires
        found.subset_of(ids_of(nodes)),
    ensures
        found.finite(),
        found.len() <= nodes.len(),
{
    let ids = nodes.map_values(|n: SessionNodeView| n.id);
    assert forall|id: Seq<char>| found.contains(id) implies ids.to_set().contains(id) by {
        assert(ids_of(nodes).contains(id));
        let k = choose|k: int| 0 <= k < nodes.len() && (#[trigger] nodes[k]).id == id;
        assert(ids[k] == id);
    }
    ids.lemma_cardinality_of_set();
    vstd::set_lib::lemma_len_subset(found, ids.to_set());
}

/// The stack as pairs of sessions and depths.
spec fn stack_view(stack: Seq<DeepNode<'_>>) -> Seq<(SessionNodeView, int)> {
    stack.map_values(|x: DeepNode<'_>| (x.node.deep_view(), x.depth as int))
}

/// Computes the depth of each id.
fn measure_depths<'a>(nodes: &'a Vec<SessionNode>) -> (r: TextMap<usize>)
    ensures
        r@.dom() == depths_of(nodes.deep_view()).dom(),
        forall|id: Seq<char>| #[trigger]
            r@.contains_key(id) ==> r@[id] == depths_of(nodes.deep_view())[id],
{
    let ghost all = nodes.deep_view();
    let index = index_children(nodes);
    let mut stack: Vec<DeepNode<'a>> = Vec::new();
    let mut i: usize = 0;
    proof {
        reveal(Seq::filter);
        assert(stack_view(stack@) =~= depth_roots(all.take(0)));
    }
    while i < nodes.len()
        invariant
            i <= nodes@.len(),
            all == nodes.deep_view(),
            stack_view(stack@) == depth_roots(all.take(i as int)),
            forall|k: int|
                0 <= k < stack@.len() ==> (#[trigger] stack@[k]).depth == 0 && has_id(
                    all,
                    stack@[k].node.id@,
                ),
        decreases nodes.len() - i,
    {
        let ghost before = stack_view(stack@);
        proof {
            reveal(Seq::filter);
            assert(all.take(i as int + 1).drop_last() =~= all.take(i as int));
            assert(all.take(i as int + 1).last() == all[i as int]);
        }
        if nodes[i].parent_id.is_none() {
            stack.push(DeepNode { depth: 0, node: &nodes[i] });
            assert(all[i as int].id == nodes@[i as int].id@);
            assert(stack_view(stack@) =~= before.push((all[i as int], 0int)));
            assert(depth_roots(all.take(i as int + 1)) =~= depth_roots(all.take(i as int)).push(
                (all[i as int], 0int),
            ));
        }
        i += 1;
    }
    assert(all.take(i as int) =~= all);
    let mut depths: TextMap<usize> = TextMap::new();
    let ghost mut found: Map<Seq<char>, int> = Map::empty();
    while stack.len() > 0
        invariant
            all == nodes.deep_view(),
            indexes(index@, all),
            depths@.dom() == found.dom(),
            forall|id: Seq<char>| #[trigger] found.contains_key(id) ==> depths@[id] == found[id],
            found.dom().subset_of(ids_of(all)),
            depth_walk(all, stack_view(stack@), found) == depths_of(all),
            forall|k: int|
                0 <= k < stack@.len() ==> (#[trigger] stack@[k]).depth <= found.dom().len()
                    && has_id(all, stack@[k].node.id@),
        decreases pool(all, found.dom()) + stack@.len(),
    {
        let ghost whole = stack@;
        let ghost before = stack_view(whole);
        let ghost earlier = found;
        match stack.pop() {
            Some(top) => {
                let ghost nv = top.node.deep_view();
                proof {
                    assert(whole.last() == top);
                    assert(before.last() == (nv, top.depth as int));
                    assert(stack_view(stack@) =~= before.drop_last());
                    found = earlier.insert(nv.id, top.depth as int);
                    assert(has_id(all, nv.id));
                    assert(found.dom() =~= earlier.dom().insert(nv.id));
                    lemma_few_ids(all, earlier.dom());
                    lemma_few_ids(all, found.dom());
                }
                let known = depths.insert(top.node.id.clone(), top.depth);
                assert(depths@.dom() =~= found.dom());
                if known.is_none() {
                    proof {
                        assert(!earlier.contains_key(nv.id));
                        assert(top.depth <= earlier.dom().len());
                        assert(found.dom().len() == earlier.dom().len() + 1);
                        assert(all.len() == nodes.len());
                        lemma_pool_shrinks(all, earlier.dom(), nv.id);
                        assert(index@.contains_key(nv.id) || !index@.contains_key(nv.id));
                        assert forall|k: int| 0 <= k < stack@.len() implies (
                        #[trigger] stack@[k]).depth <= found.dom().len() && has_id(
                            all,
                            stack@[k].node.id@,
                        ) by {
                            assert(stack@[k] == whole[k]);
                        }
                    }
                    let ghost rest = stack_view(stack@);
                    match index.get(top.node.id.as_str()) {
                        Some(values) => {
                            push_children(&mut stack, values, top.depth + 1);
                            proof {
                                let kids = children_of(all, nv.id);
                                assert(values.deep_view() == kids);
                                assert(children_at(all, nv.id, top.depth + 1) =~= Seq::new(
                                    kids.len(),
                                    |k: int| (kids[k], top.depth + 1),
                                ));
                                assert(stack_view(stack@) =~= rest + children_at(
                                    all,
                                    nv.id,
                                    top.depth + 1,
                                ));
                                assert forall|k: int| 0 <= k < stack@.len() implies (
                                #[trigger] stack@[k]).depth <= found.dom().len() && has_id(
                                    all,
                                    stack@[k].node.id@,
                                ) by {
                                    if k >= rest.len() {
                                        let m = k - rest.len();
                                        assert(stack_view(stack@)[k] == (kids[m], top.depth + 1));
                                        lemma_child_is_node(all, nv.id, m);
                                    }
                                }
                            }
                        },
                        None => {
                            assert(rest + children_at(all, nv.id, top.depth + 1) =~= rest);
                        },
                    }
                } else {
                    proof {
                        assert(found.dom() =~= earlier.dom());
                        assert forall|k: int| 0 <= k < stack@.len() implies (
                        #[trigger] stack@[k]).depth <= found.dom().len() && has_id(
                            all,
                            stack@[k].node.id@,
                        ) by {
                            assert(stack@[k] == whole[k]);
                        }
                    }
                }
            },
            None => {},
        }
    }
    depths
}

pub proof fn lemma_child_is_node(nodes: Seq<SessionNodeView>, id: Seq<char>, k: int)
    requires
        0 <= k < children_of(nodes, id).len(),
    ensures
        nodes.contains(children_of(nodes, id)[k]),
        has_id(nodes, children_of(nodes, id)[k].id),
        children_of(nodes, id)[k].parent_id == Some(id),
{
    let kids = children_of(nodes, id);
    assert(kids.contains(kids[k]));
    lemma_filter_member(nodes, |n: SessionNodeView| n.parent_id == Some(id), kids[k]);
    let m = nodes.index_of(kids[k]);
    assert(nodes[m].id == kids[k].id);
}

fn push_children<'a>(stack: &mut Vec<DeepNode<'a>>, values: &Vec<&'a SessionNode>, depth: usize)
    ensures
        stack_view(final(stack)@) == stack_view(old(stack)@) + Seq::new(
            values@.len(),
            |k: int| (values.deep_view()[k], depth as int),
        ),
        final(stack)@.len() == old(stack)@.len() + values@.len(),
        forall|k: int| 0 <= k < old(stack)@.len() ==> final(stack)@[k] == old(stack)@[k],
{
    let ghost start = stack@;
    let mut i: usize = 0;
    while i < values.len()
        invariant
            i <= values@.len(),
            stack@.len() == start.len() + i,
            forall|k: int| 0 <= k < start.len() ==> stack@[k] == start[k],
            forall|k: int|
                start.len() <= k < stack@.len() ==> (#[trigger] stack@[k]).depth == depth
                    && stack@[k].node.deep_view() == values.deep_view()[k - start.len()],
        decreases values.len() - i,
    {
        stack.push(DeepNode { depth, node: values[i] });
        assert(values.deep_view()[i as int] == values@[i as int].deep_view());
        i += 1;
    }
    assert(stack_view(stack@) =~= stack_view(start) + Seq::new(
        values@.len(),
        |k: int| (values.deep_view()[k], depth as int),
    ));
}

/// How one session enters the signature of its tree.
pub open spec fn node_signature(node: SessionNodeView) -> Seq<char> {
    node.id + "|"@ + or_empty(node.parent_id) + "|"@ + (if node.archived {
        "true"@
    } else {
        "false"@
    }) + "|"@ + or_empty(node.provider) + "|"@ + or_empty(node.model) + "|"@ + (
    match node.pinned {
        Some(true) => "true"@,
        Some(false) => "false"@,
        None => "unknown"@,
    }) + "|"@ + (match node.last_activity {
        Some(last) => signed_decimal(last as int),
        None => "unknown"@,
    }) + "|"@ + status_signature(node.status)
}

/// Ascending in the string order.
pub open spec fn by_text() -> spec_fn(Seq<char>, Seq<char>) -> bool {
    |a: Seq<char>, b: Seq<char>| text_lt(a, b)
}

pub struct ByText;

impl Order<String> for ByText {
    open spec fn order() -> spec_fn(Seq<char>, Seq<char>) -> bool {
        by_text()
    }

    fn before(a: &String, b: &String) -> (r: bool) {
        less(a.as_str(), b.as_str())
    }
}

/// What must not change in a tree between a preview and its execution.
pub open spec fn tree_signature(nodes: Seq<SessionNodeView>) -> Seq<char> {
    joined(sorted_by(nodes.map_values(|n: SessionNodeView| node_signature(n)), by_text()), ";"@)
}

fn append_option(s: &mut String, value: &Option<String>)
    ensures
        final(s)@ == old(s)@ + or_empty(value.deep_view()),
{
    match value {
        Some(text) => s.append(text.as_str()),
        None => {
            assert(s@ =~= old(s)@ + or_empty(value.deep_view()));
        },
    }
}

fn signature_of_node(node: &SessionNode) -> (r: String)
    ensures
        r@ == node_signature(node.deep_view()),
{
    let mut s = node.id.clone();
    s.append("|");
    append_option(&mut s, &node.parent_id);
    s.append("|");
    s.append(
        if node.archived {
            "true"
        } else {
            "false"
        },
    );
    s.append("|");
    append_option(&mut s, &node.provider);
    s.append("|");
    append_option(&mut s, &node.model);
    s.append("|");
    s.append(
        match node.pinned {
            Some(true) => "true",
            Some(false) => "false",
            None => "unknown",
        },
    );
    s.append("|");
    match node.last_activity {
        Some(last) => s.append(signed_decimal_text(last).as_str()),
        None => s.append("unknown"),
    }
    s.append("|");
    s.append(node.status.signature().as_str());
    s
}

impl SessionTree {
    /// The sum of the sizes of the rollout files of the tree.
    pub fn storage_bytes(&self) -> (r: Option<u64>)
        ensures
            match total_size(self.deep_view().nodes) {
                Some(total) => r matches Some(bytes) && bytes == total,
                None => r is None,
            },
    {
        let ghost all = self.nodes.deep_view();
        let mut total: u64 = 0;
        let mut i: usize = 0;
        while i < self.nodes.len()
            invariant
                i <= self.nodes@.len(),
                all == self.nodes.deep_view(),
                total_size(all.take(i as int)) == Some(total as int),
            decreases self.nodes.len() - i,
        {
            proof {
                assert(all.take(i as int + 1).drop_last() =~= all.take(i as int));
                assert(all.take(i as int + 1).last() == all[i as int]);
                lemma_no_size(all, i as int + 1);
            }
            match self.nodes[i].rollout_bytes {
                Some(bytes) => {
                    match total.checked_add(bytes) {
                        Some(sum) => {
                            total = sum;
                        },
                        None => {
                            return None;
                        },
                    }
                },
                None => {
                    return None;
                },
            }
            i += 1;
        }
        assert(all.take(i as int) =~= all);
        Some(total)
    }

    /// The ids that an action changes, in the order in which it changes them.
    pub fn impacted_ids(&self, action: Action) -> (r: Vec<String>)
        ensures
            r.deep_view() == impacted(self.deep_view().nodes, action),
    {
        let ghost all = self.nodes.deep_view();
        let depths = measure_depths(&self.nodes);
        let mut placed: Vec<DeepNode<'_>> = Vec::new();
        let mut i: usize = 0;
        while i < self.nodes.len()
            invariant
                i <= self.nodes@.len(),
                all == self.nodes.deep_view(),
                depths@.dom() == depths_of(all).dom(),
                forall|id: Seq<char>| #[trigger]
                    depths@.contains_key(id) ==> depths@[id] == depths_of(all)[id],
                placed.deep_view() == with_depths(all).take(i as int),
            decreases self.nodes.len() - i,
        {
            let ghost before = placed.deep_view();
            let node = &self.nodes[i];
            let depth: usize = match depths.get(node.id.as_str()) {
                Some(depth) => *depth,
                None => 0,
            };
            placed.push(DeepNode { depth, node });
            proof {
                assert(all[i as int] == node.deep_view());
                assert(with_depths(all)[i as int] == (depth as int, node.deep_view()));
                assert(placed.deep_view() =~= before.push((depth as int, node.deep_view())));
                assert(placed.deep_view() =~= with_depths(all).take(i as int + 1));
            }
            i += 1;
        }
        assert(with_depths(all).take(i as int) =~= with_depths(all));
        let sorted = stable_sort::<DeepNode<'_>, ByDepth>(placed);
        let upwards = match action {
            Action::Archive => true,
            Action::Delete => true,
            _ => false,
        };
        let ghost order = visiting_order(all, action);
        let ghost pred = |x: (int, SessionNodeView)| affects(action, x.1.archived);
        let ghost pick = |x: (int, SessionNodeView)| x.1.id;
        let mut r: Vec<String> = Vec::new();
        let mut k: usize = 0;
        proof {
            reveal(Seq::filter);
            assert(r.deep_view() =~= order.take(0).filter(pred).map_values(pick));
        }
        while k < sorted.len()
            invariant
                k <= sorted@.len(),
                order == visiting_order(all, action),
                sorted.deep_view() == sorted_by(with_depths(all), by_depth()),
                upwards == (action is Archive || action is Delete),
                pred == (|x: (int, SessionNodeView)| affects(action, x.1.archived)),
                pick == (|x: (int, SessionNodeView)| x.1.id),
                r.deep_view() == order.take(k as int).filter(pred).map_values(pick),
            decreases sorted.len() - k,
        {
            let ghost before = r.deep_view();
            let at: usize = if upwards {
                sorted.len() - 1 - k
            } else {
                k
            };
            let node = sorted[at].node;
            proof {
                reveal(Seq::filter);
                assert(order[k as int] == sorted.deep_view()[at as int]);
                assert(sorted.deep_view()[at as int].1 == node.deep_view());
                assert(order.take(k as int + 1).drop_last() =~= order.take(k as int));
                assert(order.take(k as int + 1).last() == order[k as int]);
            }
            let taken = match action {
                Action::Archive => !node.archived,
                Action::Restore => node.archived,
                Action::Delete => node.archived,
                Action::Cleanup => false,
            };
            assert(taken == pred(order[k as int]));
            if taken {
                r.push(node.id.clone());
                proof {
                    assert(r.deep_view() =~= before.push(node.id@));
                    assert(order.take(k as int).filter(pred).push(order[k as int]).map_values(pick)
                        =~= before.push(node.id@));
                }
            }
            k += 1;
        }
        assert(order.take(k as int) =~= order);
        r
    }

    /// What must not change between a preview and its execution.
    pub fn signature(&self) -> (r: String)
        ensures
            r@ == tree_signature(self.deep_view().nodes),
    {
        let ghost all = self.nodes.deep_view();
        let ghost lines = all.map_values(|n: SessionNodeView| node_signature(n));
        let mut values: Vec<String> = Vec::new();
        let mut i: usize = 0;
        while i < self.nodes.len()
            invariant
                i <= self.nodes@.len(),
                all == self.nodes.deep_view(),
                lines == all.map_values(|n: SessionNodeView| node_signature(n)),
                values.deep_view() == lines.take(i as int),
            decreases self.nodes.len() - i,
        {
            let ghost before = values.deep_view();
            let line = signature_of_node(&self.nodes[i]);
            values.push(line);
            proof {
                assert(line@ == lines[i as int]);
                assert(values.deep_view() =~= before.push(line@));
                assert(values.deep_view() =~= lines.take(i as int + 1));
            }
            i += 1;
        }
        assert(lines.take(i as int) =~= lines);
        join(&stable_sort::<String, ByText>(values), ";")
    }
}

proof fn lemma_no_size(nodes: Seq<SessionNodeView>, i: int)
    requires
        0 <= i <= nodes.len(),
    ensures
        total_size(nodes.take(i)) is None ==> total_size(nodes) is None,
    decreases nodes.len() - i,
{
    if i < nodes.len() {
        lemma_no_size(nodes, i + 1);
        assert(nodes.take(i + 1).drop_last() =~= nodes.take(i));
    } else {
        assert(nodes.take(i) =~= nodes);
    }
}

} // verus!
