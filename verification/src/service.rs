//! The service: it keeps the last scan, previews plans, and runs them so that
//! nothing protected or stale is touched and nothing unverified is reported as
//! done.

use crate::domain::{
    action_name, all_settled, copy_list, error_message, every_settled, result_view, settled, Action,
    Filter, HistoryEntry, ItemResult, ItemResultView, MaintenanceCandidate,
    MaintenanceAck, MaintenanceCandidateView, MaintenancePlan, MaintenancePlanView, MutationAck,
    OperationPreview,
    OperationPreviewView, OperationResult, OperationResultView, OperationStore, PendingBatch,
    PendingBatchView, PlannedTree, PlannedTreeView, Preferences, ProtectionReason,
    ProtectionReasonView, ScanSnapshot, ScanSnapshotView, SessionGateway, SessionNode,
    SessionNodeView, SessionTree, SessionTreeView, VaultError, VaultErrorView,
};
use crate::filter::{filter_matches, fully_archived};
use crate::ordered::{sorted_by, stable_sort, Order, TextMap, TextSet};
use crate::text::{
    copy_texts, decimal, less, push_decimal, same, same_texts, text_lt,
};
use crate::tree::{build_trees, impacted, tree_signature, trees_of};
use vstd::prelude::*;
use vstd::string::*;
use vstd::utf8::encode_utf8;

verus! {

broadcast use vstd::group_vstd_default;

/// A text behind the number of its bytes.
pub open spec fn length_prefixed(value: Seq<char>) -> Seq<char> {
    decimal(encode_utf8(value).len() as int) + ":"@ + value + "|"@
}

/// The ids of a plan, each behind the number of its bytes.
pub open spec fn nodes_key(ids: Seq<Seq<char>>) -> Seq<char>
    decreases ids.len(),
{
    if ids.len() == 0 {
        Seq::empty()
    } else {
        nodes_key(ids.drop_last()) + length_prefixed(ids.last())
    }
}

/// What identifies a planned tree: the action, the state of the tree and the
/// ids that the action changes.
pub open spec fn signature_of_plan(nodes: Seq<SessionNodeView>, action: Action) -> Seq<char> {
    action_name(action) + "|"@ + tree_signature(nodes) + "|"@ + nodes_key(impacted(nodes, action))
}

/// Ascending by root id.
pub open spec fn by_root() -> spec_fn(PlannedTreeView, PlannedTreeView) -> bool {
    |a: PlannedTreeView, b: PlannedTreeView| text_lt(a.root_id, b.root_id)
}

pub struct ByRoot;

impl Order<PlannedTree> for ByRoot {
    open spec fn order() -> spec_fn(PlannedTreeView, PlannedTreeView) -> bool {
        by_root()
    }

    fn before(a: &PlannedTree, b: &PlannedTree) -> (r: bool) {
        less(a.root_id.as_str(), b.root_id.as_str())
    }
}

/// The trees of a plan, one behind the other.
pub open spec fn trees_key(trees: Seq<PlannedTreeView>) -> Seq<char>
    decreases trees.len(),
{
    if trees.len() == 0 {
        Seq::empty()
    } else {
        trees_key(trees.drop_last()) + length_prefixed(trees.last().root_id) + length_prefixed(
            trees.last().signature,
        ) + nodes_key(trees.last().node_ids)
    }
}

/// What identifies a plan, whatever the order of its trees.
pub open spec fn key_of_plan(action: Action, trees: Seq<PlannedTreeView>) -> Seq<char> {
    action_name(action) + "|"@ + trees_key(sorted_by(trees, by_root()))
}

fn push_len(target: &mut String, value: &str)
    ensures
        final(target)@ == old(target)@ + length_prefixed(value@),
{
    let ghost start = target@;
    push_decimal(target, value.as_bytes().len() as u128);
    target.append(":");
    target.append(value);
    target.append("|");
    assert(target@ =~= start + length_prefixed(value@));
}

/// The key of a list of ids.
pub fn plan_key_nodes(nodes: &Vec<String>) -> (r: String)
    ensures
        r@ == nodes_key(nodes.deep_view()),
{
    let ghost all = nodes.deep_view();
    let mut value = String::new();
    let mut i: usize = 0;
    assert(value@ =~= nodes_key(all.take(0)));
    while i < nodes.len()
        invariant
            i <= nodes@.len(),
            all == nodes.deep_view(),
            value@ == nodes_key(all.take(i as int)),
        decreases nodes.len() - i,
    {
        proof {
            assert(all.take(i as int + 1).drop_last() =~= all.take(i as int));
            assert(all.take(i as int + 1).last() == nodes@[i as int]@);
        }
        push_len(&mut value, nodes[i].as_str());
        i += 1;
    }
    assert(all.take(i as int) =~= all);
    value
}

/// What identifies a planned tree.
pub fn plan_signature(tree: &SessionTree, action: Action) -> (r: String)
    ensures
        r@ == signature_of_plan(tree.deep_view().nodes, action),
{
    let nodes = tree.impacted_ids(action);
    let mut value = action.as_str().to_owned();
    value.append("|");
    value.append(tree.signature().as_str());
    value.append("|");
    value.append(plan_key_nodes(&nodes).as_str());
    value
}

/// What identifies a plan.
pub fn plan_key(action: Action, trees: &Vec<PlannedTree>) -> (r: String)
    ensures
        r@ == key_of_plan(action, trees.deep_view()),
{
    let trees = stable_sort::<PlannedTree, ByRoot>(copy_list(trees));
    let ghost all = trees.deep_view();
    let mut value = action.as_str().to_owned();
    value.append("|");
    let ghost head = value@;
    let mut i: usize = 0;
    assert(value@ =~= head + trees_key(all.take(0)));
    while i < trees.len()
        invariant
            i <= trees@.len(),
            all == trees.deep_view(),
            value@ == head + trees_key(all.take(i as int)),
        decreases trees.len() - i,
    {
        proof {
            assert(all.take(i as int + 1).drop_last() =~= all.take(i as int));
            assert(all.take(i as int + 1).last() == trees@[i as int].deep_view());
        }
        push_len(&mut value, trees[i].root_id.as_str());
        push_len(&mut value, trees[i].signature.as_str());
        value.append(plan_key_nodes(&trees[i].node_ids).as_str());
        assert(value@ =~= head + trees_key(all.take(i as int + 1)));
        i += 1;
    }
    assert(all.take(i as int) =~= all);
    value
}

/// The reasons against an action on a tree.
pub open spec fn reasons_against(
    tree: SessionTreeView,
    action: Action,
    storage_ready: bool,
) -> Seq<ProtectionReasonView> {
    tree.protection + (if storage_ready {
        Seq::empty()
    } else {
        seq![ProtectionReasonView::StorageUnavailable]
    }) + (if action is Delete && !fully_archived(tree.nodes) {
        seq![ProtectionReasonView::UnsafeStatus("delete requires a fully archived tree"@)]
    } else {
        Seq::empty()
    })
}

/// The plan for one tree.
pub open spec fn plan_of_tree(tree: SessionTreeView, action: Action) -> PlannedTreeView {
    PlannedTreeView {
        root_id: tree.root_id,
        signature: signature_of_plan(tree.nodes, action),
        node_ids: impacted(tree.nodes, action),
    }
}

/// The trees that are chosen by their roots.
pub open spec fn chosen(
    trees: Seq<SessionTreeView>,
    roots: Set<Seq<char>>,
) -> Seq<SessionTreeView> {
    trees.filter(|t: SessionTreeView| roots.contains(t.root_id))
}

/// How many ids all planned trees hold, as far as a machine can count.
pub open spec fn planned_count(trees: Seq<PlannedTreeView>) -> int
    decreases trees.len(),
{
    if trees.len() == 0 {
        0
    } else {
        let sum = planned_count(trees.drop_last()) + trees.last().node_ids.len();
        if sum > usize::MAX {
            usize::MAX as int
        } else {
            sum
        }
    }
}

/// The plans for the trees that nothing speaks against.
pub open spec fn plans(
    trees: Seq<SessionTreeView>,
    action: Action,
    storage_ready: bool,
) -> Seq<PlannedTreeView> {
    trees.filter(
        |t: SessionTreeView| reasons_against(t, action, storage_ready).len() == 0,
    ).map_values(|t: SessionTreeView| plan_of_tree(t, action))
}

/// The trees that something speaks against, with the reasons.
pub open spec fn refusals(
    trees: Seq<SessionTreeView>,
    action: Action,
    storage_ready: bool,
) -> Seq<(Seq<char>, Seq<ProtectionReasonView>)> {
    trees.filter(
        |t: SessionTreeView| reasons_against(t, action, storage_ready).len() > 0,
    ).map_values(
        |t: SessionTreeView| (t.root_id, reasons_against(t, action, storage_ready)),
    )
}

/// `preview` is the preview of an action on the chosen trees.
pub open spec fn previews(
    preview: OperationPreviewView,
    trees: Seq<SessionTreeView>,
    roots: Set<Seq<char>>,
    action: Action,
    storage_ready: bool,
) -> bool {
    let picked = chosen(trees, roots);
    &&& preview.action == action
    &&& preview.trees == plans(picked, action, storage_ready)
    &&& preview.blocked == refusals(picked, action, storage_ready)
    &&& preview.impacted_count == planned_count(preview.trees)
}

/// The last tree with the root id.
pub open spec fn find_tree(
    trees: Seq<SessionTreeView>,
    root_id: Seq<char>,
) -> Option<SessionTreeView>
    decreases trees.len(),
{
    if trees.len() == 0 {
        None
    } else if trees.last().root_id == root_id {
        Some(trees.last())
    } else {
        find_tree(trees.drop_last(), root_id)
    }
}

/// A planned tree is still what the scan shows, and free to be changed.
pub open spec fn fresh_tree(
    trees: Seq<SessionTreeView>,
    action: Action,
    planned: PlannedTreeView,
) -> bool {
    match find_tree(trees, planned.root_id) {
        None => false,
        Some(tree) => {
            &&& planned == plan_of_tree(tree, action)
            &&& planned.node_ids.len() > 0
            &&& tree.protection.len() == 0
            &&& action is Delete ==> fully_archived(tree.nodes)
        },
    }
}

/// The ids of all planned trees.
pub open spec fn planned_ids(trees: Seq<PlannedTreeView>) -> Seq<Seq<char>>
    decreases trees.len(),
{
    if trees.len() == 0 {
        Seq::empty()
    } else {
        planned_ids(trees.drop_last()) + trees.last().node_ids
    }
}

/// A preview is still what the scan shows: each of its trees is fresh, no root
/// and no id occurs twice, and the count is right.
pub open spec fn fresh(trees: Seq<SessionTreeView>, preview: OperationPreviewView) -> bool {
    &&& forall|i: int|
        0 <= i < preview.trees.len() ==> fresh_tree(
            trees,
            preview.action,
            #[trigger] preview.trees[i],
        )
    &&& forall|i: int, j: int|
        0 <= i < j < preview.trees.len() ==> (#[trigger] preview.trees[i]).root_id != (
        #[trigger] preview.trees[j]).root_id
    &&& planned_ids(preview.trees).no_duplicates()
    &&& planned_ids(preview.trees).len() == preview.impacted_count
}

/// A plan that may be run.
pub struct ExecutionPlan {
    pub action: Action,
    pub plan_key: String,
    pub node_ids: Vec<String>,
}

#[verifier::ext_equal]
pub struct ExecutionPlanView {
    pub action: Action,
    pub plan_key: Seq<char>,
    pub node_ids: Seq<Seq<char>>,
}

impl DeepView for ExecutionPlan {
    type V = ExecutionPlanView;

    open spec fn deep_view(&self) -> ExecutionPlanView {
        ExecutionPlanView {
            action: self.action,
            plan_key: self.plan_key@,
            node_ids: self.node_ids.deep_view(),
        }
    }
}

/// Nothing of the preview can be run.
pub open spec fn empty_preview(preview: OperationPreviewView) -> bool {
    preview.trees.len() == 0 || preview.impacted_count == 0
}

/// What a preview may run on the trees of a fresh scan: a stale preview is
/// refused, and a deletion whose count was not typed exactly.
pub open spec fn runnable(
    trees: Seq<SessionTreeView>,
    preview: OperationPreviewView,
    confirmation: Option<usize>,
) -> Result<ExecutionPlanView, VaultErrorView> {
    if !fresh(trees, preview) {
        Err(VaultErrorView::StalePreview)
    } else if preview.action is Delete && confirmation != Some(preview.impacted_count) {
        Err(VaultErrorView::ConfirmationMismatch)
    } else {
        Ok(
            ExecutionPlanView {
                action: preview.action,
                plan_key: key_of_plan(preview.action, preview.trees),
                node_ids: planned_ids(preview.trees),
            },
        )
    }
}

/// The last session with the id.
pub open spec fn find_node(nodes: Seq<SessionNodeView>, id: Seq<char>) -> Option<SessionNodeView>
    decreases nodes.len(),
{
    if nodes.len() == 0 {
        None
    } else if nodes.last().id == id {
        Some(nodes.last())
    } else {
        find_node(nodes.drop_last(), id)
    }
}

/// A scan shows that the action has reached the session.
pub open spec fn reached(nodes: Seq<SessionNodeView>, action: Action, id: Seq<char>) -> bool {
    match (action, find_node(nodes, id)) {
        (Action::Archive, Some(node)) => node.archived,
        (Action::Restore, Some(node)) => !node.archived,
        (Action::Delete, None) => true,
        _ => false,
    }
}

/// A scan that can be relied on.
pub open spec fn reliable(snapshot: ScanSnapshotView) -> bool {
    snapshot.write_capable && snapshot.relation_complete
}

/// What the answer to one change is worth before a scan confirms it.
pub open spec fn call_result(call: Result<(), VaultErrorView>) -> ItemResultView {
    match call {
        Ok(_) => ItemResultView::Interrupted,
        Err(error) => ItemResultView::Failed(error_message(error)),
    }
}

/// What became of one session: a reliable scan after the changes decides,
/// else only what failed is known.
pub open spec fn item_outcome(
    action: Action,
    id: Seq<char>,
    call: ItemResultView,
    rescan: Result<ScanSnapshotView, VaultErrorView>,
) -> ItemResultView {
    match rescan {
        Ok(snapshot) => if reliable(snapshot) {
            if reached(snapshot.nodes, action, id) {
                ItemResultView::Success
            } else {
                call
            }
        } else if call is Failed {
            call
        } else {
            ItemResultView::Interrupted
        },
        Err(_) => if call is Failed {
            call
        } else {
            ItemResultView::Interrupted
        },
    }
}

/// What became of each session of a plan.
pub open spec fn outcomes(
    action: Action,
    calls: Map<Seq<char>, ItemResultView>,
    rescan: Result<ScanSnapshotView, VaultErrorView>,
) -> Map<Seq<char>, ItemResultView> {
    calls.map_entries(|id: Seq<char>, call: ItemResultView| item_outcome(action, id, call, rescan))
}

/// A scan after the changes that settles what became of them.
pub open spec fn conclusive(rescan: Result<ScanSnapshotView, VaultErrorView>) -> bool {
    rescan is Ok && reliable(rescan->Ok_0)
}

/// The status under which a batch is recorded.
pub open spec fn batch_status(
    rescan: Result<ScanSnapshotView, VaultErrorView>,
    items: Map<Seq<char>, ItemResultView>,
) -> Seq<char> {
    if !conclusive(rescan) {
        "needs_verification"@
    } else if all_settled(items) {
        "completed"@
    } else {
        "partial"@
    }
}

/// The warnings about the scan after the changes.
pub open spec fn rescan_warnings(rescan: Result<ScanSnapshotView, VaultErrorView>) -> Seq<
    Seq<char>,
> {
    match rescan {
        Ok(snapshot) => if reliable(snapshot) {
            Seq::empty()
        } else {
            seq!["final app-server rescan was incomplete; results require verification"@]
        },
        Err(error) => seq!["final app-server rescan failed: "@ + error_message(error)],
    }
}

/// Every item interrupted.
pub open spec fn interrupted(items: Map<Seq<char>, ItemResultView>) -> Map<
    Seq<char>,
    ItemResultView,
> {
    items.map_values(|item: ItemResultView| ItemResultView::Interrupted)
}

/// What an operation reports, given what became of its items and what the
/// record said: where a settled result could not be recorded, nothing is
/// claimed of any item.
pub open spec fn report(
    batch_id: Seq<char>,
    action: Action,
    items: Map<Seq<char>, ItemResultView>,
    rescan: Result<ScanSnapshotView, VaultErrorView>,
    recorded: Result<(), VaultErrorView>,
) -> OperationResultView {
    match recorded {
        Ok(_) => OperationResultView {
            batch_id,
            action,
            items,
            warnings: rescan_warnings(rescan),
        },
        Err(error) => if conclusive(rescan) {
            OperationResultView {
                batch_id,
                action,
                items: interrupted(items),
                warnings: rescan_warnings(rescan).push(
                    "actual state was rescanned but the transactional result could not be recorded: "@
                        + error_message(error),
                ),
            }
        } else {
            OperationResultView {
                batch_id,
                action,
                items,
                warnings: rescan_warnings(rescan).push(
                    "unverified batch could not be recorded: "@ + error_message(error),
                ),
            }
        },
    }
}

/// What a recovery records for the sessions of a batch.
pub open spec fn recovered_item(
    snapshot: ScanSnapshotView,
    action: Action,
    id: Seq<char>,
) -> ItemResultView {
    if reliable(snapshot) && reached(snapshot.nodes, action, id) {
        ItemResultView::Success
    } else {
        ItemResultView::Interrupted
    }
}

/// What a recovery records for a batch.
pub open spec fn recovered(
    snapshot: ScanSnapshotView,
    batch: PendingBatchView,
) -> Map<Seq<char>, ItemResultView> {
    Map::new(
        |id: Seq<char>| batch.node_ids.contains(id),
        |id: Seq<char>| recovered_item(snapshot, batch.action, id),
    )
}

/// The status that a recovery records for a batch.
pub open spec fn recovered_status(items: Map<Seq<char>, ItemResultView>) -> Seq<char> {
    if forall|id: Seq<char>| #[trigger] items.contains_key(id) ==> items[id] is Success {
        "completed"@
    } else {
        "interrupted"@
    }
}

fn find_session<'a>(nodes: &'a Vec<SessionNode>, id: &str) -> (r: Option<&'a SessionNode>)
    ensures
        match r {
            Some(node) => find_node(nodes.deep_view(), id@) == Some(node.deep_view()),
            None => find_node(nodes.deep_view(), id@) is None,
        },
{
    let ghost all = nodes.deep_view();
    let mut i: usize = nodes.len();
    assert(all.take(i as int) =~= all);
    while i > 0
        invariant
            i <= nodes@.len(),
            all == nodes.deep_view(),
            find_node(all, id@) == find_node(all.take(i as int), id@),
        decreases i,
    {
        proof {
            assert(all.take(i as int).last() == all[i - 1]);
            assert(all.take(i as int).drop_last() =~= all.take(i - 1));
        }
        if same(nodes[i - 1].id.as_str(), id) {
            return Some(&nodes[i - 1]);
        }
        i -= 1;
    }
    None
}

/// Whether a scan shows that the action has reached the session.
pub fn has_reached(snapshot: &ScanSnapshot, action: Action, id: &str) -> (r: bool)
    ensures
        r == reached(snapshot.deep_view().nodes, action, id@),
{
    match (action, find_session(&snapshot.nodes, id)) {
        (Action::Archive, Some(node)) => node.archived,
        (Action::Restore, Some(node)) => !node.archived,
        (Action::Delete, None) => true,
        _ => false,
    }
}

/// What the answer to one change is worth before a scan confirms it.
pub fn outcome_of_call(call: &Result<MutationAck, VaultError>) -> (r: ItemResult)
    ensures
        r.deep_view() == call_result(
            match *call {
                Ok(_) => Ok(()),
                Err(error) => Err(error.deep_view()),
            },
        ),
{
    match call {
        Ok(_) => ItemResult::Interrupted,
        Err(error) => ItemResult::Failed(error.message()),
    }
}

/// Decides what became of each session of a plan.
pub fn settle(
    action: Action,
    calls: &TextMap<ItemResult>,
    rescan: &Result<ScanSnapshot, VaultError>,
) -> (r: TextMap<ItemResult>)
    ensures
        r@ == outcomes(action, calls@, result_view(*rescan)),
{
    let keys = calls.keys();
    let mut items: TextMap<ItemResult> = TextMap::new();
    let mut i: usize = 0;
    let ghost want = outcomes(action, calls@, result_view(*rescan));
    proof {
        assert(want.dom() =~= calls@.dom());
    }
    while i < keys.len()
        invariant
            i <= keys@.len(),
            want == outcomes(action, calls@, result_view(*rescan)),
            want.dom() == calls@.dom(),
            keys.deep_view().to_set() == calls@.dom(),
            items@.dom() == keys.deep_view().take(i as int).to_set(),
            forall|id: Seq<char>| #[trigger] items@.contains_key(id) ==> items@[id] == want[id],
        decreases keys.len() - i,
    {
        let ghost id = keys.deep_view()[i as int];
        let ghost before = items@;
        proof {
            assert(keys.deep_view().to_set().contains(id));
            assert(id == keys@[i as int]@);
            let now = keys.deep_view().take(i as int + 1);
            assert forall|x: Seq<char>| now.to_set().contains(x) <==> keys.deep_view().take(
                i as int,
            ).to_set().insert(id).contains(x) by {
                let was = keys.deep_view().take(i as int);
                assert(now =~= was.push(id));
                if now.contains(x) {
                    let k = now.index_of(x);
                    if k < i {
                        assert(was[k] == x);
                    }
                }
                if was.contains(x) {
                    let k = was.index_of(x);
                    assert(now[k] == x);
                }
                if x == id {
                    assert(now[i as int] == x);
                }
            }
            assert(now.to_set() =~= keys.deep_view().take(i as int).to_set().insert(id));
        }
        let key = keys[i].as_str();
        match calls.get(key) {
            Some(call) => {
                let failed_or_interrupted = match call {
                    ItemResult::Failed(message) => ItemResult::Failed(message.clone()),
                    _ => ItemResult::Interrupted,
                };
                let outcome = match rescan {
                    Ok(snapshot) => if snapshot.write_capable && snapshot.relation_complete {
                        if has_reached(snapshot, action, key) {
                            ItemResult::Success
                        } else {
                            call.clone()
                        }
                    } else {
                        failed_or_interrupted
                    },
                    Err(_) => failed_or_interrupted,
                };
                assert(outcome.deep_view() == want[id]);
                items.insert(keys[i].clone(), outcome);
                assert(items@.dom() =~= before.dom().insert(id));
            },
            None => {},
        }
        i += 1;
    }
    proof {
        assert(keys.deep_view().take(i as int) =~= keys.deep_view());
        assert(items@ =~= want);
    }
    items
}

fn all_interrupted(items: &TextMap<ItemResult>) -> (r: TextMap<ItemResult>)
    ensures
        r@ == interrupted(items@),
{
    let keys = items.keys();
    let mut r: TextMap<ItemResult> = TextMap::new();
    let mut i: usize = 0;
    while i < keys.len()
        invariant
            i <= keys@.len(),
            keys.deep_view().to_set() == items@.dom(),
            forall|k: int| 0 <= k < i ==> r@.contains_key(#[trigger] keys.deep_view()[k]),
            forall|id: Seq<char>| #[trigger]
                r@.contains_key(id) ==> items@.contains_key(id) && r@[id]
                    == ItemResultView::Interrupted,
        decreases keys.len() - i,
    {
        let ghost id = keys.deep_view()[i as int];
        assert(keys.deep_view().to_set().contains(id));
        assert(id == keys@[i as int]@);
        r.insert(keys[i].clone(), ItemResult::Interrupted);
        i += 1;
    }
    proof {
        assert forall|id: Seq<char>| items@.contains_key(id) implies r@.contains_key(id) by {
            assert(keys.deep_view().to_set().contains(id));
            let k = keys.deep_view().index_of(id);
            assert(keys.deep_view()[k] == id);
        }
        assert(r@ =~= interrupted(items@));
    }
    r
}

/// The status under which a batch is recorded.
pub fn status_of_batch(
    rescan: &Result<ScanSnapshot, VaultError>,
    items: &TextMap<ItemResult>,
) -> (r: &'static str)
    ensures
        r@ == batch_status(result_view(*rescan), items@),
{
    let settles = match rescan {
        Ok(snapshot) => snapshot.write_capable && snapshot.relation_complete,
        Err(_) => false,
    };
    if !settles {
        "needs_verification"
    } else if every_settled(items) {
        "completed"
    } else {
        "partial"
    }
}

/// Reports an operation, given what the record said.
pub fn conclude(
    batch_id: String,
    action: Action,
    items: TextMap<ItemResult>,
    rescan: &Result<ScanSnapshot, VaultError>,
    recorded: &Result<(), VaultError>,
) -> (r: OperationResult)
    ensures
        r.deep_view() == report(
            batch_id@,
            action,
            items@,
            result_view(*rescan),
            match *recorded {
                Ok(_) => Ok(()),
                Err(error) => Err(error.deep_view()),
            },
        ),
{
    let mut warnings: Vec<String> = Vec::new();
    let mut settles = false;
    assert(warnings.deep_view() =~= Seq::empty());
    match rescan {
        Ok(snapshot) => {
            if snapshot.write_capable && snapshot.relation_complete {
                settles = true;
            } else {
                warnings.push(
                    "final app-server rescan was incomplete; results require verification".to_owned(),
                );
            }
        },
        Err(error) => {
            warnings.push(
                "final app-server rescan failed: ".to_owned().concat(error.message().as_str()),
            );
        },
    }
    let ghost first = warnings.deep_view();
    assert(first =~= rescan_warnings(result_view(*rescan)));
    let mut items = items;
    match recorded {
        Ok(_) => {},
        Err(error) => {
            if settles {
                warnings.push(
                    "actual state was rescanned but the transactional result could not be recorded: ".to_owned().concat(
                    error.message().as_str()),
                );
                items = all_interrupted(&items);
            } else {
                warnings.push(
                    "unverified batch could not be recorded: ".to_owned().concat(
                        error.message().as_str(),
                    ),
                );
            }
            assert(warnings.deep_view() =~= first.push(warnings@.last()@));
        },
    }
    OperationResult { batch_id, action, items, warnings }
}

/// What a recovery records for a batch.
pub fn reconcile(snapshot: &ScanSnapshot, batch: &PendingBatch) -> (r: (
    TextMap<ItemResult>,
    &'static str,
))
    ensures
        r.0@ == recovered(snapshot.deep_view(), batch.deep_view()),
        r.1@ == recovered_status(r.0@),
{
    let ghost ids = batch.node_ids.deep_view();
    let usable = snapshot.write_capable && snapshot.relation_complete;
    let mut items: TextMap<ItemResult> = TextMap::new();
    let mut complete = true;
    let mut i: usize = 0;
    while i < batch.node_ids.len()
        invariant
            i <= batch.node_ids@.len(),
            ids == batch.node_ids.deep_view(),
            usable == reliable(snapshot.deep_view()),
            forall|k: int| 0 <= k < i ==> items@.contains_key(#[trigger] ids[k]),
            forall|id: Seq<char>| #[trigger]
                items@.contains_key(id) ==> ids.contains(id) && items@[id] == recovered_item(
                    snapshot.deep_view(),
                    batch.action,
                    id,
                ),
            complete <==> forall|id: Seq<char>| #[trigger]
                items@.contains_key(id) ==> items@[id] is Success,
        decreases batch.node_ids.len() - i,
    {
        let ghost before = items@;
        let id = batch.node_ids[i].as_str();
        assert(ids[i as int] == id@);
        let success = usable && has_reached(snapshot, batch.action, id);
        items.insert(
            batch.node_ids[i].clone(),
            if success {
                ItemResult::Success
            } else {
                ItemResult::Interrupted
            },
        );
        proof {
            if complete && success {
                assert forall|x: Seq<char>| #[trigger] items@.contains_key(x) implies items@[x] is Success by {
                    if x != id@ {
                        assert(before.contains_key(x));
                    }
                }
            }
            if !complete {
                let x = choose|x: Seq<char>| #[trigger]
                    before.contains_key(x) && !(before[x] is Success);
                assert(items@.contains_key(x));
                if x == id@ {
                    assert(before[x] == recovered_item(snapshot.deep_view(), batch.action, x));
                }
            }
            if !success {
                assert(items@.contains_key(id@));
            }
        }
        if !success {
            complete = false;
        }
        i += 1;
    }
    proof {
        let want = recovered(snapshot.deep_view(), batch.deep_view());
        assert forall|id: Seq<char>| ids.contains(id) implies items@.contains_key(id) by {
            let k = ids.index_of(id);
            assert(items@.contains_key(ids[k]));
        }
        assert(items@ =~= want);
    }
    (
        items,
        if complete {
            "completed"
        } else {
            "interrupted"
        },
    )
}

/// Seconds since the epoch by the system clock, from
/// `SystemTime::duration_since`; zero where the clock stands before it. What
/// the clock shows is left open.
#[verifier::external_body]
fn clock_seconds() -> (r: u64) {
    std::time::SystemTime::now().duration_since(std::time::UNIX_EPOCH).unwrap_or_default().as_secs()
}

/// A number of seconds, held below the largest signed number.
pub fn epoch_from_seconds(seconds: u64) -> (r: i64)
    ensures
        r == if seconds <= i64::MAX {
            seconds as int
        } else {
            i64::MAX as int
        },
{
    if seconds <= i64::MAX as u64 {
        seconds as i64
    } else {
        i64::MAX
    }
}

/// The current second.
pub fn now_epoch() -> (r: i64)
    ensures
        r >= 0,
{
    epoch_from_seconds(clock_seconds())
}

/// The candidates whose key is selected.
pub open spec fn selected_candidates(
    candidates: Seq<MaintenanceCandidateView>,
    selected: Set<Seq<char>>,
) -> Seq<MaintenanceCandidateView> {
    candidates.filter(|c: MaintenanceCandidateView| selected.contains(c.key))
}

/// The bytes of all candidates, held below the largest number.
pub open spec fn candidate_bytes(candidates: Seq<MaintenanceCandidateView>) -> int
    decreases candidates.len(),
{
    if candidates.len() == 0 {
        0
    } else {
        let sum = candidate_bytes(candidates.drop_last()) + candidates.last().bytes;
        if sum > u64::MAX {
            u64::MAX as int
        } else {
            sum
        }
    }
}

/// The cleanup of the selected candidates.
pub fn maintenance_plan(candidates: &Vec<MaintenanceCandidate>, selected: &TextSet) -> (r:
    MaintenancePlan)
    ensures
        r.deep_view().candidates == selected_candidates(candidates.deep_view(), selected@),
        r.total_bytes == candidate_bytes(r.deep_view().candidates),
{
    let ghost all = candidates.deep_view();
    let ghost keep = |c: MaintenanceCandidateView| selected@.contains(c.key);
    let mut picked: Vec<MaintenanceCandidate> = Vec::new();
    let mut total: u64 = 0;
    let mut i: usize = 0;
    proof {
        reveal(Seq::filter);
        assert(picked.deep_view() =~= all.take(0).filter(keep));
    }
    while i < candidates.len()
        invariant
            i <= candidates@.len(),
            all == candidates.deep_view(),
            keep == (|c: MaintenanceCandidateView| selected@.contains(c.key)),
            picked.deep_view() == all.take(i as int).filter(keep),
            total == candidate_bytes(picked.deep_view()),
        decreases candidates.len() - i,
    {
        let ghost before = picked.deep_view();
        proof {
            reveal(Seq::filter);
            assert(all.take(i as int + 1).drop_last() =~= all.take(i as int));
            assert(all.take(i as int + 1).last() == all[i as int]);
        }
        if selected.contains(candidates[i].key.as_str()) {
            total = total.saturating_add(candidates[i].bytes);
            picked.push(candidates[i].clone());
            proof {
                assert(picked.deep_view() =~= before.push(all[i as int]));
                assert(picked.deep_view().drop_last() =~= before);
            }
        }
        i += 1;
    }
    assert(all.take(i as int) =~= all);
    MaintenancePlan { candidates: picked, total_bytes: total }
}

/// The keys and fingerprints of candidates, in their order.
pub open spec fn candidate_marks(candidates: Seq<MaintenanceCandidateView>) -> Seq<Seq<char>>
    decreases candidates.len(),
{
    if candidates.len() == 0 {
        Seq::empty()
    } else {
        candidate_marks(candidates.drop_last()).push(candidates.last().key).push(
            candidates.last().fingerprint,
        )
    }
}

/// The keys of candidates, in their order.
pub open spec fn candidate_keys(candidates: Seq<MaintenanceCandidateView>) -> Seq<Seq<char>> {
    candidates.map_values(|c: MaintenanceCandidateView| c.key)
}

/// What of a cleanup may run: each candidate must still be found as it was
/// shown, and none twice.
pub open spec fn runnable_cleanup(
    current: Seq<MaintenanceCandidateView>,
    planned: Seq<MaintenanceCandidateView>,
) -> Result<ExecutionPlanView, VaultErrorView> {
    if (forall|i: int| 0 <= i < planned.len() ==> current.contains(#[trigger] planned[i]))
        && candidate_keys(planned).no_duplicates() {
        Ok(
            ExecutionPlanView {
                action: Action::Cleanup,
                plan_key: action_name(Action::Cleanup) + "|"@ + nodes_key(
                    candidate_marks(planned),
                ),
                node_ids: candidate_keys(planned),
            },
        )
    } else {
        Err(VaultErrorView::StalePreview)
    }
}

/// What became of each candidate: one that a scan no longer finds is gone.
pub open spec fn cleanup_outcomes(
    calls: Map<Seq<char>, ItemResultView>,
    rescan: Result<ScanSnapshotView, VaultErrorView>,
    remaining: Seq<Seq<char>>,
) -> Map<Seq<char>, ItemResultView> {
    calls.map_entries(
        |id: Seq<char>, call: ItemResultView|
            if rescan is Ok && !remaining.contains(id) {
                ItemResultView::Success
            } else {
                call
            },
    )
}

fn same_candidate(a: &MaintenanceCandidate, b: &MaintenanceCandidate) -> (r: bool)
    ensures
        r == (a.deep_view() == b.deep_view()),
{
    let project = match (&a.project, &b.project) {
        (Some(x), Some(y)) => same(x.as_str(), y.as_str()),
        (None, None) => true,
        _ => false,
    };
    let r = project && a.kind == b.kind && a.bytes == b.bytes && same(
        a.key.as_str(),
        b.key.as_str(),
    ) && same(a.label.as_str(), b.label.as_str()) && same(a.detail.as_str(), b.detail.as_str())
        && same(a.fingerprint.as_str(), b.fingerprint.as_str());
    proof {
        if r {
            assert(a.deep_view() =~= b.deep_view());
        }
    }
    r
}

fn has_candidate(list: &Vec<MaintenanceCandidate>, c: &MaintenanceCandidate) -> (r: bool)
    ensures
        r == list.deep_view().contains(c.deep_view()),
{
    let mut i: usize = 0;
    while i < list.len()
        invariant
            i <= list@.len(),
            forall|k: int| 0 <= k < i ==> #[trigger] list.deep_view()[k] != c.deep_view(),
        decreases list.len() - i,
    {
        if same_candidate(&list[i], c) {
            assert(list.deep_view()[i as int] == c.deep_view());
            return true;
        }
        i += 1;
    }
    false
}

/// Decides what of a cleanup may run, given what a fresh scan finds.
pub fn plan_cleanup(current: &Vec<MaintenanceCandidate>, planned: &Vec<MaintenanceCandidate>) -> (r:
    Result<ExecutionPlan, VaultError>)
    ensures
        result_view(r) == runnable_cleanup(current.deep_view(), planned.deep_view()),
{
    let ghost all = planned.deep_view();
    let ghost keys = candidate_keys(all);
    let mut seen = TextSet::new();
    let mut node_ids: Vec<String> = Vec::new();
    let mut marks: Vec<String> = Vec::new();
    let mut i: usize = 0;
    proof {
        assert(node_ids.deep_view() =~= keys.take(0));
        assert(seen@ =~= node_ids.deep_view().to_set());
        assert(marks.deep_view() =~= candidate_marks(all.take(0)));
    }
    while i < planned.len()
        invariant
            i <= planned@.len(),
            all == planned.deep_view(),
            keys == candidate_keys(all),
            node_ids.deep_view() == keys.take(i as int),
            node_ids.deep_view().no_duplicates(),
            seen@ == node_ids.deep_view().to_set(),
            marks.deep_view() == candidate_marks(all.take(i as int)),
            forall|k: int| 0 <= k < i ==> current.deep_view().contains(#[trigger] all[k]),
        decreases planned.len() - i,
    {
        let candidate = &planned[i];
        let ghost before = marks.deep_view();
        proof {
            assert(all[i as int] == candidate.deep_view());
            assert(keys[i as int] == candidate.key@);
            assert(all.take(i as int + 1).drop_last() =~= all.take(i as int));
            assert(all.take(i as int + 1).last() == all[i as int]);
        }
        if !has_candidate(current, candidate) {
            return Err(VaultError::StalePreview);
        }
        let mut one: Vec<String> = Vec::new();
        one.push(candidate.key.clone());
        assert(one.deep_view() =~= seq![candidate.key@]);
        if !add_new_ids(&mut seen, &mut node_ids, &one) {
            proof {
                let shorter = keys.take(i as int) + seq![candidate.key@];
                assert(shorter =~= keys.take(i as int + 1));
                if keys.no_duplicates() {
                    assert forall|a: int, b: int| 0 <= a < shorter.len() && 0 <= b < shorter.len()
                        && a != b implies shorter[a] != shorter[b] by {
                        assert(shorter[a] == keys[a] && shorter[b] == keys[b]);
                    }
                }
            }
            return Err(VaultError::StalePreview);
        }
        assert(node_ids.deep_view() =~= keys.take(i as int + 1));
        marks.push(candidate.key.clone());
        marks.push(candidate.fingerprint.clone());
        assert(marks.deep_view() =~= before.push(candidate.key@).push(candidate.fingerprint@));
        i += 1;
    }
    proof {
        assert(all.take(i as int) =~= all);
        assert(keys.take(i as int) =~= keys);
    }
    let mut plan_key = Action::Cleanup.as_str().to_owned();
    plan_key.append("|");
    plan_key.append(plan_key_nodes(&marks).as_str());
    Ok(ExecutionPlan { action: Action::Cleanup, plan_key, node_ids })
}

/// Decides what became of each candidate of a cleanup.
pub fn settle_cleanup(
    calls: &TextMap<ItemResult>,
    rescan: &Result<ScanSnapshot, VaultError>,
    remaining: &Vec<String>,
) -> (r: TextMap<ItemResult>)
    ensures
        r@ == cleanup_outcomes(calls@, result_view(*rescan), remaining.deep_view()),
{
    let keys = calls.keys();
    let scanned = rescan.is_ok();
    let ghost want = cleanup_outcomes(calls@, result_view(*rescan), remaining.deep_view());
    let mut items: TextMap<ItemResult> = TextMap::new();
    let mut i: usize = 0;
    assert(want.dom() =~= calls@.dom());
    while i < keys.len()
        invariant
            i <= keys@.len(),
            scanned == rescan.is_ok(),
            want == cleanup_outcomes(calls@, result_view(*rescan), remaining.deep_view()),
            want.dom() == calls@.dom(),
            keys.deep_view().to_set() == calls@.dom(),
            forall|k: int| 0 <= k < i ==> items@.contains_key(#[trigger] keys.deep_view()[k]),
            forall|id: Seq<char>| #[trigger]
                items@.contains_key(id) ==> want.contains_key(id) && items@[id] == want[id],
        decreases keys.len() - i,
    {
        let ghost id = keys.deep_view()[i as int];
        proof {
            assert(keys.deep_view().to_set().contains(id));
            assert(id == keys@[i as int]@);
        }
        let key = keys[i].as_str();
        match calls.get(key) {
            Some(call) => {
                let outcome = if scanned && !crate::domain::list_has(remaining, key) {
                    ItemResult::Success
                } else {
                    call.clone()
                };
                assert(outcome.deep_view() == want[id]);
                items.insert(keys[i].clone(), outcome);
            },
            None => {},
        }
        i += 1;
    }
    proof {
        assert forall|id: Seq<char>| want.contains_key(id) implies items@.contains_key(id) by {
            assert(keys.deep_view().to_set().contains(id));
            let k = keys.deep_view().index_of(id);
            assert(items@.contains_key(keys.deep_view()[k]));
        }
        assert(items@ =~= want);
    }
    items
}

/// The keys of a list of candidates.
fn keys_of_candidates(list: &Vec<MaintenanceCandidate>) -> (r: Vec<String>)
    ensures
        r.deep_view() == candidate_keys(list.deep_view()),
{
    let mut r: Vec<String> = Vec::new();
    let ghost keys = candidate_keys(list.deep_view());
    let mut i: usize = 0;
    while i < list.len()
        invariant
            i <= list@.len(),
            keys == candidate_keys(list.deep_view()),
            r.deep_view() == keys.take(i as int),
        decreases list.len() - i,
    {
        let ghost before = r.deep_view();
        r.push(list[i].key.clone());
        proof {
            assert(list.deep_view()[i as int] == list@[i as int].deep_view());
            assert(r.deep_view() =~= before.push(keys[i as int]));
            assert(r.deep_view() =~= keys.take(i as int + 1));
        }
        i += 1;
    }
    assert(keys.take(i as int) =~= keys);
    r
}

/// The trees that a filter shows.
pub open spec fn shown(
    trees: Seq<SessionTreeView>,
    filter: crate::domain::FilterView,
    now: int,
) -> Seq<SessionTreeView> {
    trees.filter(|t: SessionTreeView| filter_matches(filter, t, now))
}

/// The trees that a filter shows at a second.
pub fn filter_trees<'a>(trees: &'a Vec<SessionTree>, filter: &Filter, now: i64) -> (r: Vec<
    &'a SessionTree,
>)
    ensures
        r.deep_view() == shown(trees.deep_view(), filter.deep_view(), now as int),
{
    let ghost all = trees.deep_view();
    let ghost keep = |t: SessionTreeView| filter_matches(filter.deep_view(), t, now as int);
    let mut r: Vec<&'a SessionTree> = Vec::new();
    let mut i: usize = 0;
    proof {
        reveal(Seq::filter);
        assert(r.deep_view() =~= all.take(0).filter(keep));
    }
    while i < trees.len()
        invariant
            i <= trees@.len(),
            all == trees.deep_view(),
            keep == (|t: SessionTreeView| filter_matches(filter.deep_view(), t, now as int)),
            r.deep_view() == all.take(i as int).filter(keep),
        decreases trees.len() - i,
    {
        let ghost before = r.deep_view();
        proof {
            reveal(Seq::filter);
            assert(all.take(i as int + 1).drop_last() =~= all.take(i as int));
            assert(all.take(i as int + 1).last() == all[i as int]);
        }
        if filter.matches(&trees[i], now) {
            r.push(&trees[i]);
            assert(r.deep_view() =~= before.push(all[i as int]));
        }
        i += 1;
    }
    assert(all.take(i as int) =~= all);
    r
}

/// Previews an action on the trees that `roots` chooses. Trees that something
/// speaks against are listed with the reasons, and are not planned.
pub fn preview_trees(
    trees: &Vec<SessionTree>,
    roots: &TextSet,
    action: Action,
    storage_ready: bool,
) -> (r: OperationPreview)
    ensures
        previews(r.deep_view(), trees.deep_view(), roots@, action, storage_ready),
{
    let (planned, blocked) = plan_trees(trees, roots, action, storage_ready);
    let ghost all = planned.deep_view();
    let mut impacted_count: usize = 0;
    let mut i: usize = 0;
    while i < planned.len()
        invariant
            i <= planned@.len(),
            all == planned.deep_view(),
            impacted_count == planned_count(all.take(i as int)),
        decreases planned.len() - i,
    {
        proof {
            assert(all.take(i as int + 1).drop_last() =~= all.take(i as int));
            assert(all.take(i as int + 1).last() == planned@[i as int].deep_view());
        }
        impacted_count = impacted_count.saturating_add(planned[i].node_ids.len());
        i += 1;
    }
    assert(all.take(i as int) =~= all);
    OperationPreview { action, trees: planned, impacted_count, blocked }
}

/// Sorts the chosen trees into those that are planned and those that are not.
fn plan_trees(trees: &Vec<SessionTree>, roots: &TextSet, action: Action, storage_ready: bool) -> (r:
    (Vec<PlannedTree>, Vec<(String, Vec<ProtectionReason>)>))
    ensures
        r.0.deep_view() == plans(chosen(trees.deep_view(), roots@), action, storage_ready),
        r.1.deep_view() == refusals(chosen(trees.deep_view(), roots@), action, storage_ready),
{
    let ghost all = trees.deep_view();
    let mut planned: Vec<PlannedTree> = Vec::new();
    let mut blocked: Vec<(String, Vec<ProtectionReason>)> = Vec::new();
    let mut i: usize = 0;
    proof {
        reveal(Seq::filter);
        assert(planned.deep_view() =~= plans(chosen(all.take(0), roots@), action, storage_ready));
        assert(blocked.deep_view() =~= refusals(
            chosen(all.take(0), roots@),
            action,
            storage_ready,
        ));
    }
    while i < trees.len()
        invariant
            i <= trees@.len(),
            all == trees.deep_view(),
            planned.deep_view() == plans(
                chosen(all.take(i as int), roots@),
                action,
                storage_ready,
            ),
            blocked.deep_view() == refusals(
                chosen(all.take(i as int), roots@),
                action,
                storage_ready,
            ),
        decreases trees.len() - i,
    {
        let tree = &trees[i];
        let ghost tv = all[i as int];
        let ghost before = chosen(all.take(i as int), roots@);
        proof {
            reveal(Seq::filter);
            assert(all.take(i as int + 1).drop_last() =~= all.take(i as int));
            assert(all.take(i as int + 1).last() == tv);
            assert(tree.deep_view() == tv);
        }
        if roots.contains(tree.root_id.as_str()) {
            let mut reasons = copy_list(&tree.protection);
            let ghost first = reasons.deep_view();
            if !storage_ready {
                reasons.push(ProtectionReason::StorageUnavailable);
            }
            let ghost second = reasons.deep_view();
            assert(second =~= first + (if storage_ready {
                Seq::empty()
            } else {
                seq![ProtectionReasonView::StorageUnavailable]
            }));
            if action == Action::Delete && !tree.is_fully_archived() {
                reasons.push(
                    ProtectionReason::UnsafeStatus(
                        "delete requires a fully archived tree".to_owned(),
                    ),
                );
            }
            assert(reasons.deep_view() =~= reasons_against(tv, action, storage_ready));
            proof {
                let now = before.push(tv);
                assert(chosen(all.take(i as int + 1), roots@) == now);
                assert(now.drop_last() =~= before);
                assert(reasons@.len() == reasons.deep_view().len());
            }
            if reasons.len() == 0 {
                let ghost old_plans = planned.deep_view();
                let plan = PlannedTree {
                    root_id: tree.root_id.clone(),
                    signature: plan_signature(tree, action),
                    node_ids: tree.impacted_ids(action),
                };
                planned.push(plan);
                proof {
                    assert(plan.deep_view() == plan_of_tree(tv, action));
                    assert(planned.deep_view() =~= old_plans.push(plan_of_tree(tv, action)));
                    assert(plans(before.push(tv), action, storage_ready) =~= old_plans.push(
                        plan_of_tree(tv, action),
                    ));
                }
            } else {
                let ghost old_refusals = blocked.deep_view();
                let entry = (tree.root_id.clone(), reasons);
                blocked.push(entry);
                proof {
                    assert(entry.deep_view() == (
                        tv.root_id,
                        reasons_against(tv, action, storage_ready),
                    ));
                    assert(blocked.deep_view() =~= old_refusals.push(entry.deep_view()));
                    assert(refusals(before.push(tv), action, storage_ready) =~= old_refusals.push(
                        entry.deep_view(),
                    ));
                }
            }
        } else {
            assert(chosen(all.take(i as int + 1), roots@) == before);
        }
        i += 1;
    }
    assert(all.take(i as int) =~= all);
    (planned, blocked)
}

fn find_session_tree<'a>(trees: &'a Vec<SessionTree>, root_id: &str) -> (r: Option<&'a SessionTree>)
    ensures
        match r {
            Some(tree) => find_tree(trees.deep_view(), root_id@) == Some(tree.deep_view()),
            None => find_tree(trees.deep_view(), root_id@) is None,
        },
{
    let ghost all = trees.deep_view();
    let mut i: usize = trees.len();
    assert(all.take(i as int) =~= all);
    while i > 0
        invariant
            i <= trees@.len(),
            all == trees.deep_view(),
            find_tree(all, root_id@) == find_tree(all.take(i as int), root_id@),
        decreases i,
    {
        proof {
            assert(all.take(i as int).last() == all[i - 1]);
            assert(all.take(i as int).drop_last() =~= all.take(i - 1));
        }
        if same(trees[i - 1].root_id.as_str(), root_id) {
            return Some(&trees[i - 1]);
        }
        i -= 1;
    }
    None
}

fn is_fresh_tree(trees: &Vec<SessionTree>, action: Action, planned: &PlannedTree) -> (r: bool)
    ensures
        r == fresh_tree(trees.deep_view(), action, planned.deep_view()),
{
    match find_session_tree(trees, planned.root_id.as_str()) {
        None => false,
        Some(tree) => {
            let node_ids = tree.impacted_ids(action);
            proof {
                lemma_tree_root(trees.deep_view(), planned.root_id@);
                assert(tree.protection@.len() == tree.deep_view().protection.len());
                assert(planned.node_ids@.len() == planned.deep_view().node_ids.len());
            }
            let r = same(plan_signature(tree, action).as_str(), planned.signature.as_str())
                && same_texts(&node_ids, &planned.node_ids) && planned.node_ids.len() > 0
                && tree.protection.len() == 0 && (action != Action::Delete
                || tree.is_fully_archived());
            proof {
                if r {
                    assert(planned.deep_view() =~= plan_of_tree(tree.deep_view(), action));
                }
            }
            r
        },
    }
}

proof fn lemma_tree_root(trees: Seq<SessionTreeView>, root_id: Seq<char>)
    ensures
        find_tree(trees, root_id) matches Some(tree) ==> tree.root_id == root_id,
    decreases trees.len(),
{
    if trees.len() > 0 {
        lemma_tree_root(trees.drop_last(), root_id);
    }
}

/// Whether all ids are new; those that are go into `seen`.
fn add_new_ids(seen: &mut TextSet, all_ids: &mut Vec<String>, ids: &Vec<String>) -> (r: bool)
    requires
        old(seen)@ == old(all_ids).deep_view().to_set(),
        old(all_ids).deep_view().no_duplicates(),
    ensures
        r == (old(all_ids).deep_view() + ids.deep_view()).no_duplicates(),
        r ==> final(all_ids).deep_view() == old(all_ids).deep_view() + ids.deep_view()
            && final(seen)@ == final(all_ids).deep_view().to_set(),
{
    let ghost start = all_ids.deep_view();
    let ghost want = start + ids.deep_view();
    let mut i: usize = 0;
    assert(start + ids.deep_view().take(0) =~= start);
    while i < ids.len()
        invariant
            i <= ids@.len(),
            start == old(all_ids).deep_view(),
            want == start + ids.deep_view(),
            all_ids.deep_view() == start + ids.deep_view().take(i as int),
            all_ids.deep_view().no_duplicates(),
            seen@ == all_ids.deep_view().to_set(),
        decreases ids.len() - i,
    {
        let ghost before = all_ids.deep_view();
        let ghost id = ids.deep_view()[i as int];
        assert(id == ids@[i as int]@);
        if !seen.insert(ids[i].clone()) {
            proof {
                assert(before.contains(id));
                let k = before.index_of(id);
                assert(want[start.len() + i] == id);
                assert(want[k] == before[k]);
                assert(!want.no_duplicates());
            }
            return false;
        }
        all_ids.push(ids[i].clone());
        proof {
            assert(all_ids.deep_view() =~= before.push(id));
            assert(all_ids.deep_view() =~= start + ids.deep_view().take(i as int + 1));
            assert(!before.contains(id));
            assert forall|x: Seq<char>| all_ids.deep_view().contains(x) <==> before.contains(x) || x
                == id by {
                if before.contains(x) {
                    let k = before.index_of(x);
                    assert(all_ids.deep_view()[k] == x);
                }
                if x == id {
                    assert(all_ids.deep_view()[before.len() as int] == x);
                }
                if all_ids.deep_view().contains(x) {
                    let k = all_ids.deep_view().index_of(x);
                    if k < before.len() {
                        assert(before[k] == x);
                    }
                }
            }
            assert(seen@ =~= all_ids.deep_view().to_set());
        }
        i += 1;
    }
    assert(ids.deep_view().take(i as int) =~= ids.deep_view());
    true
}

proof fn lemma_planned_ids_prefix(trees: Seq<PlannedTreeView>, i: int)
    requires
        0 <= i <= trees.len(),
        planned_ids(trees).no_duplicates(),
    ensures
        planned_ids(trees.take(i)).no_duplicates(),
    decreases trees.len() - i,
{
    if i < trees.len() {
        lemma_planned_ids_prefix(trees, i + 1);
        let longer = planned_ids(trees.take(i + 1));
        let shorter = planned_ids(trees.take(i));
        assert(trees.take(i + 1).drop_last() =~= trees.take(i));
        assert(longer == shorter + trees[i].node_ids);
        assert forall|a: int, b: int| 0 <= a < shorter.len() && 0 <= b < shorter.len() && a
            != b implies shorter[a] != shorter[b] by {
            assert(longer[a] == shorter[a] && longer[b] == shorter[b]);
        }
    } else {
        assert(trees.take(i) =~= trees);
    }
}

/// Decides what of a preview may run on the trees of a fresh scan.
pub fn plan_execution(
    trees: &Vec<SessionTree>,
    preview: &OperationPreview,
    delete_confirmation: Option<usize>,
) -> (r: Result<ExecutionPlan, VaultError>)
    ensures
        result_view(r) == runnable(trees.deep_view(), preview.deep_view(), delete_confirmation),
{
    let ghost forest = trees.deep_view();
    let ghost all = preview.trees.deep_view();
    let mut roots = TextSet::new();
    let mut seen = TextSet::new();
    let mut node_ids: Vec<String> = Vec::new();
    let mut i: usize = 0;
    proof {
        assert(node_ids.deep_view() =~= planned_ids(all.take(0)));
        assert(seen@ =~= node_ids.deep_view().to_set());
    }
    while i < preview.trees.len()
        invariant
            i <= preview.trees@.len(),
            forest == trees.deep_view(),
            all == preview.trees.deep_view(),
            node_ids.deep_view() == planned_ids(all.take(i as int)),
            node_ids.deep_view().no_duplicates(),
            seen@ == node_ids.deep_view().to_set(),
            forall|k: int|
                0 <= k < i ==> fresh_tree(forest, preview.action, #[trigger] all[k])
                    && roots@.contains(all[k].root_id),
            forall|root: Seq<char>| #[trigger]
                roots@.contains(root) ==> exists|k: int|
                    0 <= k < i && (#[trigger] all[k]).root_id == root,
            forall|a: int, b: int|
                0 <= a < b < i ==> (#[trigger] all[a]).root_id != (#[trigger] all[b]).root_id,
        decreases preview.trees.len() - i,
    {
        let planned = &preview.trees[i];
        let ghost before = roots@;
        proof {
            assert(all[i as int] == planned.deep_view());
            assert(all.take(i as int + 1).drop_last() =~= all.take(i as int));
            assert(all.take(i as int + 1).last() == all[i as int]);
            assert(preview.deep_view().trees == all);
        }
        if !roots.insert(planned.root_id.clone()) {
            proof {
                let k = choose|k: int|
                    0 <= k < i && (#[trigger] all[k]).root_id == planned.root_id@;
                assert(all[k].root_id == all[i as int].root_id);
            }
            return Err(VaultError::StalePreview);
        }
        if !is_fresh_tree(trees, preview.action, planned) {
            return Err(VaultError::StalePreview);
        }
        if !add_new_ids(&mut seen, &mut node_ids, &planned.node_ids) {
            proof {
                if planned_ids(all).no_duplicates() {
                    lemma_planned_ids_prefix(all, i as int + 1);
                }
            }
            return Err(VaultError::StalePreview);
        }
        proof {
            assert forall|root: Seq<char>| #[trigger] roots@.contains(root) implies exists|k: int|
                0 <= k < i + 1 && (#[trigger] all[k]).root_id == root by {
                if root == planned.root_id@ {
                    assert(all[i as int].root_id == root);
                } else {
                    assert(before.contains(root));
                    let k = choose|k: int| 0 <= k < i && (#[trigger] all[k]).root_id == root;
                    assert(all[k].root_id == root);
                }
            }
        }
        i += 1;
    }
    assert(all.take(i as int) =~= all);
    if node_ids.len() != preview.impacted_count {
        return Err(VaultError::StalePreview);
    }
    assert(fresh(forest, preview.deep_view()));
    if preview.action == Action::Delete && delete_confirmation != Some(preview.impacted_count) {
        return Err(VaultError::ConfirmationMismatch);
    }
    let plan_key = plan_key(preview.action, &preview.trees);
    Ok(ExecutionPlan { action: preview.action, plan_key, node_ids })
}

/// What the answer to a change is worth.
pub open spec fn answer_result(answer: Result<MutationAck, VaultError>) -> ItemResultView {
    call_result(
        match answer {
            Ok(_) => Ok(()),
            Err(error) => Err(error.deep_view()),
        },
    )
}

/// What the answers to changes are worth, by the id of each session.
pub open spec fn calls_of(
    ids: Seq<Seq<char>>,
    answers: Seq<Result<MutationAck, VaultError>>,
) -> Map<Seq<char>, ItemResultView>
    decreases ids.len(),
{
    if ids.len() == 0 {
        Map::empty()
    } else {
        calls_of(ids.drop_last(), answers.drop_last()).insert(
            ids.last(),
            answer_result(answers.last()),
        )
    }
}

/// A place in a list.
pub open spec fn is_place<T>(list: Seq<T>, i: int) -> bool {
    0 <= i < list.len()
}

pub proof fn lemma_calls_of(ids: Seq<Seq<char>>, answers: Seq<Result<MutationAck, VaultError>>)
    requires
        ids.len() == answers.len(),
    ensures
        calls_of(ids, answers).dom() == ids.to_set(),
        forall|id: Seq<char>| #[trigger]
            calls_of(ids, answers).contains_key(id) ==> calls_of(ids, answers)[id] is Interrupted
                || calls_of(ids, answers)[id] is Failed,
    decreases ids.len(),
{
    if ids.len() == 0 {
        assert(calls_of(ids, answers).dom() =~= ids.to_set());
    } else {
        lemma_calls_of(ids.drop_last(), answers.drop_last());
        lemma_take_set(ids, ids.len() - 1);
        assert(ids.take(ids.len() - 1) =~= ids.drop_last());
        assert(ids.take(ids.len() as int) =~= ids);
        assert(calls_of(ids, answers).dom() =~= ids.to_set());
    }
}

fn ask_change<G: SessionGateway>(gateway: &mut G, action: Action, id: &String) -> (r: Result<
    MutationAck,
    VaultError,
>)
    ensures
        exists|m: &mut G, name: &str|
            name@ == id@ && *m == *old(gateway) && *final(m) == *final(gateway)
                && #[trigger] call_ensures(G::mutate, (m, action, name), r),
{
    gateway.mutate(action, id.as_str())
}

/// Asks for each change in turn. Beside what the answers are worth it gives the
/// answers, and the server before the first change and after each.
#[verifier::spinoff_prover]
fn change_all<G: SessionGateway>(gateway: &mut G, action: Action, ids: &Vec<String>) -> (r: (
    TextMap<ItemResult>,
    Ghost<Seq<Result<MutationAck, VaultError>>>,
    Ghost<Seq<G>>,
))
    ensures
        r.0@ == calls_of(ids.deep_view(), r.1@),
        r.1@.len() == ids@.len(),
        r.2@.len() == ids@.len() + 1,
        r.2@[0] == *old(gateway),
        r.2@[ids@.len() as int] == *final(gateway),
        forall|i: int| #[trigger]
            is_place(ids.deep_view(), i) ==> exists|m: &mut G, name: &str|
                name@ == ids.deep_view()[i] && *m == r.2@[i] && *final(m) == r.2@[i + 1]
                    && #[trigger] call_ensures(G::mutate, (m, action, name), r.1@[i]),
{
    let ghost all = ids.deep_view();
    let mut calls: TextMap<ItemResult> = TextMap::new();
    let ghost mut answers: Seq<Result<MutationAck, VaultError>> = Seq::empty();
    let ghost mut servers: Seq<G> = seq![*gateway];
    let mut i: usize = 0;
    while i < ids.len()
        invariant
            i <= ids@.len(),
            all == ids.deep_view(),
            calls@ == calls_of(all.take(i as int), answers),
            answers.len() == i,
            servers.len() == i + 1,
            servers[0] == *old(gateway),
            servers[i as int] == *gateway,
            forall|k: int|
                k < i && #[trigger] is_place(all, k) ==> exists|m: &mut G, name: &str|
                    name@ == all[k] && *m == servers[k] && *final(m) == servers[k + 1]
                        && #[trigger] call_ensures(G::mutate, (m, action, name), answers[k]),
        decreases ids.len() - i,
    {
        let ghost earlier = answers;
        let ghost known = servers;
        let answer = ask_change(gateway, action, &ids[i]);
        let ghost said = answer;
        let ghost now = *gateway;
        calls.insert(ids[i].clone(), outcome_of_call(&answer));
        proof {
            answers = answers.push(said);
            servers = servers.push(now);
            let part = all.take(i + 1);
            assert(part.drop_last() =~= all.take(i as int));
            assert(answers.drop_last() =~= earlier);
            assert(part.last() == all[i as int] && all[i as int] == ids@[i as int]@);
            assert(calls@ =~= calls_of(part, answers));
            assert forall|k: int|
                k < i + 1 && #[trigger] is_place(all, k) implies exists|m: &mut G, name: &str|
                    name@ == all[k] && *m == servers[k] && *final(m) == servers[k + 1]
                        && #[trigger] call_ensures(G::mutate, (m, action, name), answers[k]) by {
                if k < i {
                    assert(is_place(all, k));
                    assert(answers[k] == earlier[k]);
                    assert(servers[k] == known[k] && servers[k + 1] == known[k + 1]);
                } else {
                    assert(answers[k] == said);
                    assert(servers[k] == known[k] && servers[k + 1] == now);
                }
            }
        }
        i += 1;
    }
    proof {
        assert(all.take(i as int) =~= all);
        assert forall|k: int| #[trigger] is_place(ids.deep_view(), k) implies exists|
            m: &mut G,
            name: &str,
        |
            name@ == ids.deep_view()[k] && *m == servers[k] && *final(m) == servers[k + 1]
                && #[trigger] call_ensures(G::mutate, (m, action, name), answers[k]) by {
            assert(is_place(all, k));
        }
    }
    (calls, Ghost(answers), Ghost(servers))
}

/// The days after which the record of an operation is forgotten.
pub const RETENTION_DAYS: u32 = 90;

/// How far a recovery came: the record before the first batch and after each
/// that was handed to it, and whether it took all of them.
pub open spec fn recovery_of<S>(
    records: Seq<S>,
    taken: Result<(), VaultError>,
    batches: nat,
) -> bool {
    &&& 1 <= records.len() <= batches + 1
    &&& taken is Ok ==> records.len() == batches + 1
    &&& taken is Err ==> records.len() > 1
}

/// The answer to the batch at a place: the last that was handed over is
/// answered with what the recovery came to, and those before it were taken.
pub open spec fn answer_at(taken: Result<(), VaultError>, i: int, records: int) -> Result<
    (),
    VaultError,
> {
    if i + 2 == records {
        taken
    } else {
        Ok(())
    }
}

fn record_recovered<S: OperationStore>(
    store: &mut S,
    snapshot: &ScanSnapshot,
    batch: &PendingBatch,
    at: i64,
) -> (r: Result<(), VaultError>)
    ensures
        exists|m: &mut S, id: &str, items: &TextMap<ItemResult>, status: &str|
            id@ == batch.batch_id@ && items@ == recovered(snapshot.deep_view(), batch.deep_view())
                && status@ == recovered_status(items@) && *m == *old(store) && *final(m)
                == *final(store) && #[trigger] call_ensures(
                S::complete_batch,
                (m, id, items, status, at),
                r,
            ),
{
    let (items, status) = reconcile(snapshot, batch);
    store.complete_batch(batch.batch_id.as_str(), &items, status, at)
}

/// Hands the batches in turn to the record until it refuses one. Beside the
/// last answer it gives the record before the first batch and after each.
#[verifier::spinoff_prover]
fn recover_all<S: OperationStore>(
    store: &mut S,
    snapshot: &ScanSnapshot,
    batches: &Vec<PendingBatch>,
    at: i64,
) -> (r: (Result<(), VaultError>, Ghost<Seq<S>>))
    ensures
        recovery_of(r.1@, r.0, batches@.len()),
        r.1@[0] == *old(store),
        r.1@.last() == *final(store),
        forall|i: int|
            i + 1 < r.1@.len() && #[trigger] is_place(batches@, i) ==> exists|
                m: &mut S,
                id: &str,
                items: &TextMap<ItemResult>,
                status: &str,
            |
                id@ == batches@[i].batch_id@ && items@ == recovered(
                    snapshot.deep_view(),
                    batches@[i].deep_view(),
                ) && status@ == recovered_status(items@) && *m == r.1@[i] && *final(m)
                    == r.1@[i + 1] && #[trigger] call_ensures(
                    S::complete_batch,
                    (m, id, items, status, at),
                    answer_at(r.0, i, r.1@.len() as int),
                ),
{
    let ghost mut records: Seq<S> = seq![*store];
    let mut i: usize = 0;
    while i < batches.len()
        invariant
            i <= batches@.len(),
            records.len() == i + 1,
            records[0] == *old(store),
            records[i as int] == *store,
            forall|k: int|
                k < i && #[trigger] is_place(batches@, k) ==> exists|
                    m: &mut S,
                    id: &str,
                    items: &TextMap<ItemResult>,
                    status: &str,
                |
                    id@ == batches@[k].batch_id@ && items@ == recovered(
                        snapshot.deep_view(),
                        batches@[k].deep_view(),
                    ) && status@ == recovered_status(items@) && *m == records[k] && *final(m)
                        == records[k + 1] && #[trigger] call_ensures(
                        S::complete_batch,
                        (m, id, items, status, at),
                        answer_at(Ok(()), k, records.len() as int),
                    ),
        decreases batches.len() - i,
    {
        let ghost known = records;
        let answer = record_recovered(store, snapshot, &batches[i], at);
        let ghost now = *store;
        proof {
            records = records.push(now);
            assert forall|k: int| k < i + 1 && #[trigger] is_place(batches@, k) implies exists|
                m: &mut S,
                id: &str,
                items: &TextMap<ItemResult>,
                status: &str,
            |
                id@ == batches@[k].batch_id@ && items@ == recovered(
                    snapshot.deep_view(),
                    batches@[k].deep_view(),
                ) && status@ == recovered_status(items@) && *m == records[k] && *final(m)
                    == records[k + 1] && #[trigger] call_ensures(
                    S::complete_batch,
                    (m, id, items, status, at),
                    answer_at(answer, k, records.len() as int),
                ) by {
                if k < i {
                    assert(is_place(batches@, k));
                    assert(records[k] == known[k] && records[k + 1] == known[k + 1]);
                    assert(answer_at(answer, k, records.len() as int) == answer_at(
                        Ok(()),
                        k,
                        known.len() as int,
                    ));
                } else {
                    assert(records[k] == known[k] && records[k + 1] == now);
                    assert(answer_at(answer, k, records.len() as int) == answer);
                }
            }
        }
        match answer {
            Ok(done) => {
                assert(done == ());
            },
            Err(error) => {
                return (Err(error), Ghost(records));
            },
        }
        i += 1;
    }
    (Ok(()), Ghost(records))
}

/// What running a preview asked of the server and of the record, and what each
/// of them was afterwards.
pub struct Run<G, S> {
    /// The scan before the changes, and the server after it.
    pub first: Result<ScanSnapshot, VaultError>,
    pub scanned: G,
    /// What came of recording the plan, and the record after it.
    pub begun: Result<String, VaultError>,
    pub opened: S,
    /// The answers to the changes; the server before them and after each.
    pub answers: Seq<Result<MutationAck, VaultError>>,
    pub servers: Seq<G>,
    /// The scan after the changes, and the server after it.
    pub rescan: Result<ScanSnapshot, VaultError>,
    pub verified: G,
    /// What came of recording the results, and the record after it.
    pub recorded: Result<(), VaultError>,
    pub closed: S,
}

/// The plan that a run may record and carry out, by its first scan.
pub open spec fn checked_plan<G, S>(
    run: Run<G, S>,
    preview: OperationPreviewView,
    confirmation: Option<usize>,
) -> Result<ExecutionPlanView, VaultErrorView> {
    if empty_preview(preview) {
        Err(VaultErrorView::Blocked("nothing eligible is selected"@))
    } else {
        match run.first {
            Ok(snapshot) => runnable(trees_of(snapshot.deep_view()), preview, confirmation),
            Err(error) => Err(error.deep_view()),
        }
    }
}

/// The results that a run hands to the record.
pub open spec fn run_items<G, S>(run: Run<G, S>, plan: ExecutionPlanView) -> Map<
    Seq<char>,
    ItemResultView,
> {
    outcomes(plan.action, calls_of(plan.node_ids, run.answers), result_view(run.rescan))
}

/// The scans that a run made.
pub open spec fn scans_of_run<G, S>(
    run: Run<G, S>,
    preview: OperationPreviewView,
    confirmation: Option<usize>,
) -> Seq<Result<ScanSnapshot, VaultError>> {
    if empty_preview(preview) {
        Seq::empty()
    } else if checked_plan(run, preview, confirmation) is Ok && run.begun is Ok {
        seq![run.first, run.rescan]
    } else {
        seq![run.first]
    }
}

/// How a run leaves the server and the record, and what it comes to: without a
/// checked plan it stops after the scan, without a recorded plan before the
/// first change.
pub open spec fn run_of<G, S>(
    run: Run<G, S>,
    preview: OperationPreviewView,
    confirmation: Option<usize>,
    before: (G, S),
    after: (G, S),
    r: Result<OperationResultView, VaultErrorView>,
) -> bool {
    match checked_plan(run, preview, confirmation) {
        Err(error) => {
            &&& r == Err::<OperationResultView, _>(error)
            &&& after.0 == if empty_preview(preview) {
                before.0
            } else {
                run.scanned
            }
            &&& after.1 == before.1
            &&& run.answers.len() == 0
        },
        Ok(plan) => match run.begun {
            Err(error) => {
                &&& r == Err::<OperationResultView, _>(error.deep_view())
                &&& after == (run.scanned, run.opened)
                &&& run.answers.len() == 0
            },
            Ok(batch_id) => {
                &&& run.answers.len() == plan.node_ids.len()
                &&& run.servers.len() == plan.node_ids.len() + 1
                &&& run.servers[0] == run.scanned
                &&& after == (run.verified, run.closed)
                &&& r == Ok::<_, VaultErrorView>(
                    report(
                        batch_id@,
                        plan.action,
                        run_items(run, plan),
                        result_view(run.rescan),
                        match run.recorded {
                            Ok(_) => Ok(()),
                            Err(error) => Err(error.deep_view()),
                        },
                    ),
                )
            },
        },
    }
}

/// What the answers to removals are worth, by the key of each candidate.
pub open spec fn removals_of(
    keys: Seq<Seq<char>>,
    answers: Seq<Result<MaintenanceAck, VaultError>>,
) -> Map<Seq<char>, ItemResultView>
    decreases keys.len(),
{
    if keys.len() == 0 {
        Map::empty()
    } else {
        removals_of(keys.drop_last(), answers.drop_last()).insert(
            keys.last(),
            call_result(
                match answers.last() {
                    Ok(_) => Ok(()),
                    Err(error) => Err(error.deep_view()),
                },
            ),
        )
    }
}

fn ask_removal<G: SessionGateway>(
    gateway: &mut G,
    batch_id: &String,
    candidate: &MaintenanceCandidate,
) -> (r: Result<MaintenanceAck, VaultError>)
    ensures
        exists|m: &mut G, id: &str|
            id@ == batch_id@ && *m == *old(gateway) && *final(m) == *final(gateway)
                && #[trigger] call_ensures(G::cleanup, (m, id, candidate), r),
{
    gateway.cleanup(batch_id.as_str(), candidate)
}

/// Asks for each removal in turn. Beside what the answers are worth it gives
/// the answers, and the server before the first removal and after each.
#[verifier::spinoff_prover]
fn remove_all<G: SessionGateway>(
    gateway: &mut G,
    batch_id: &String,
    candidates: &Vec<MaintenanceCandidate>,
) -> (r: (TextMap<ItemResult>, Ghost<Seq<Result<MaintenanceAck, VaultError>>>, Ghost<Seq<G>>))
    ensures
        r.0@ == removals_of(candidate_keys(candidates.deep_view()), r.1@),
        r.1@.len() == candidates@.len(),
        r.2@.len() == candidates@.len() + 1,
        r.2@[0] == *old(gateway),
        r.2@[candidates@.len() as int] == *final(gateway),
        forall|i: int| #[trigger]
            is_place(candidates@, i) ==> exists|m: &mut G, id: &str|
                id@ == batch_id@ && *m == r.2@[i] && *final(m) == r.2@[i + 1]
                    && #[trigger] call_ensures(G::cleanup, (m, id, &candidates@[i]), r.1@[i]),
{
    let ghost keys = candidate_keys(candidates.deep_view());
    let mut calls: TextMap<ItemResult> = TextMap::new();
    let ghost mut answers: Seq<Result<MaintenanceAck, VaultError>> = Seq::empty();
    let ghost mut servers: Seq<G> = seq![*gateway];
    let mut i: usize = 0;
    while i < candidates.len()
        invariant
            i <= candidates@.len(),
            keys == candidate_keys(candidates.deep_view()),
            calls@ == removals_of(keys.take(i as int), answers),
            answers.len() == i,
            servers.len() == i + 1,
            servers[0] == *old(gateway),
            servers[i as int] == *gateway,
            forall|k: int|
                k < i && #[trigger] is_place(candidates@, k) ==> exists|m: &mut G, id: &str|
                    id@ == batch_id@ && *m == servers[k] && *final(m) == servers[k + 1]
                        && #[trigger] call_ensures(
                        G::cleanup,
                        (m, id, &candidates@[k]),
                        answers[k],
                    ),
        decreases candidates.len() - i,
    {
        let ghost earlier = answers;
        let ghost known = servers;
        let candidate = &candidates[i];
        let answer = ask_removal(gateway, batch_id, candidate);
        let ghost said = answer;
        let ghost now = *gateway;
        let outcome = match answer {
            Ok(_) => ItemResult::Interrupted,
            Err(error) => ItemResult::Failed(error.message()),
        };
        calls.insert(candidate.key.clone(), outcome);
        proof {
            answers = answers.push(said);
            servers = servers.push(now);
            let part = keys.take(i + 1);
            assert(part.drop_last() =~= keys.take(i as int));
            assert(answers.drop_last() =~= earlier);
            assert(candidates.deep_view()[i as int] == candidate.deep_view());
            assert(part.last() == candidate.key@);
            assert(calls@ =~= removals_of(part, answers));
            assert forall|k: int| k < i + 1 && #[trigger] is_place(candidates@, k) implies exists|
                m: &mut G,
                id: &str,
            |
                id@ == batch_id@ && *m == servers[k] && *final(m) == servers[k + 1]
                    && #[trigger] call_ensures(G::cleanup, (m, id, &candidates@[k]), answers[k]) by {
                if k < i {
                    assert(is_place(candidates@, k));
                    assert(answers[k] == earlier[k]);
                    assert(servers[k] == known[k] && servers[k + 1] == known[k + 1]);
                } else {
                    assert(answers[k] == said);
                    assert(servers[k] == known[k] && servers[k + 1] == now);
                }
            }
        }
        i += 1;
    }
    assert(keys.take(i as int) =~= keys);
    (calls, Ghost(answers), Ghost(servers))
}

/// What running a cleanup asked of the server and of the record, and what each
/// of them was afterwards.
pub struct CleanupRun<G, S> {
    /// The scan before the removals, the server after it and what it found.
    pub first: Result<ScanSnapshot, VaultError>,
    pub scanned: G,
    pub current: Vec<MaintenanceCandidate>,
    /// What came of recording the plan, and the record after it.
    pub begun: Result<String, VaultError>,
    pub opened: S,
    /// The answers to the removals; the server before them and after each.
    pub answers: Seq<Result<MaintenanceAck, VaultError>>,
    pub servers: Seq<G>,
    /// The scan after the removals, the server after it and what it found.
    pub rescan: Result<ScanSnapshot, VaultError>,
    pub verified: G,
    pub remaining: Vec<MaintenanceCandidate>,
    /// What came of recording the results, and the record after it.
    pub recorded: Result<(), VaultError>,
    pub closed: S,
}

/// The plan that a cleanup may record and carry out, by its first scan.
pub open spec fn checked_cleanup<G, S>(run: CleanupRun<G, S>, plan: MaintenancePlanView) -> Result<
    ExecutionPlanView,
    VaultErrorView,
> {
    if plan.candidates.len() == 0 {
        Err(VaultErrorView::Blocked("nothing eligible is selected"@))
    } else {
        match run.first {
            Ok(_) => runnable_cleanup(run.current.deep_view(), plan.candidates),
            Err(error) => Err(error.deep_view()),
        }
    }
}

/// The results that a cleanup hands to the record.
pub open spec fn cleanup_items<G, S>(run: CleanupRun<G, S>, plan: ExecutionPlanView) -> Map<
    Seq<char>,
    ItemResultView,
> {
    cleanup_outcomes(
        removals_of(plan.node_ids, run.answers),
        result_view(run.rescan),
        candidate_keys(run.remaining.deep_view()),
    )
}

/// The scans that a cleanup made.
pub open spec fn scans_of_cleanup<G, S>(run: CleanupRun<G, S>, plan: MaintenancePlanView) -> Seq<
    Result<ScanSnapshot, VaultError>,
> {
    if plan.candidates.len() == 0 {
        Seq::empty()
    } else if checked_cleanup(run, plan) is Ok && run.begun is Ok {
        seq![run.first, run.rescan]
    } else {
        seq![run.first]
    }
}

/// How a cleanup leaves the server and the record, and what it comes to:
/// without a checked plan it stops after the scan, without a recorded plan
/// before the first removal.
pub open spec fn cleanup_of<G, S>(
    run: CleanupRun<G, S>,
    plan: MaintenancePlanView,
    before: (G, S),
    after: (G, S),
    r: Result<OperationResultView, VaultErrorView>,
) -> bool {
    match checked_cleanup(run, plan) {
        Err(error) => {
            &&& r == Err::<OperationResultView, _>(error)
            &&& after.0 == if plan.candidates.len() == 0 {
                before.0
            } else {
                run.scanned
            }
            &&& after.1 == before.1
            &&& run.answers.len() == 0
        },
        Ok(checked) => match run.begun {
            Err(error) => {
                &&& r == Err::<OperationResultView, _>(error.deep_view())
                &&& after == (run.scanned, run.opened)
                &&& run.answers.len() == 0
            },
            Ok(batch_id) => {
                &&& run.answers.len() == plan.candidates.len()
                &&& run.servers.len() == plan.candidates.len() + 1
                &&& run.servers[0] == run.scanned
                &&& after == (run.verified, run.closed)
                &&& r == Ok::<_, VaultErrorView>(
                    report(
                        batch_id@,
                        Action::Cleanup,
                        cleanup_items(run, checked),
                        result_view(run.rescan),
                        match run.recorded {
                            Ok(_) => Ok(()),
                            Err(error) => Err(error.deep_view()),
                        },
                    ),
                )
            },
        },
    }
}

/// The service over a gateway and a record.
pub struct VaultService<G, S> {
    gateway: G,
    store: S,
    snapshot: Option<ScanSnapshot>,
    trees: Vec<SessionTree>,
}

impl<G, S> VaultService<G, S> {
    /// The last scan.
    pub closed spec fn scanned(&self) -> Option<ScanSnapshotView> {
        self.snapshot.deep_view()
    }

    /// The trees that are offered.
    pub closed spec fn forest(&self) -> Seq<SessionTreeView> {
        self.trees.deep_view()
    }

    /// The server's side.
    pub closed spec fn server(&self) -> G {
        self.gateway
    }

    /// The record.
    pub closed spec fn record(&self) -> S {
        self.store
    }

    /// The trees are those of the last scan.
    pub open spec fn consistent(&self) -> bool {
        self.forest() == match self.scanned() {
            Some(snapshot) => trees_of(snapshot),
            None => Seq::empty(),
        }
    }
}

/// The scan that is kept after some scans: the last that the server did not
/// refuse.
pub open spec fn scan_kept(
    before: Option<ScanSnapshotView>,
    scans: Seq<Result<ScanSnapshot, VaultError>>,
) -> Option<ScanSnapshotView>
    decreases scans.len(),
{
    if scans.len() == 0 {
        before
    } else {
        match scans.last() {
            Ok(snapshot) => Some(snapshot.deep_view()),
            Err(_) => scan_kept(before, scans.drop_last()),
        }
    }
}

proof fn lemma_scan_kept(
    before: Option<ScanSnapshotView>,
    first: Result<ScanSnapshot, VaultError>,
    second: Result<ScanSnapshot, VaultError>,
)
    ensures
        scan_kept(before, Seq::empty()) == before,
        scan_kept(before, seq![first]) == match first {
            Ok(snapshot) => Some(snapshot.deep_view()),
            Err(_) => before,
        },
        scan_kept(before, seq![first, second]) == match second {
            Ok(snapshot) => Some(snapshot.deep_view()),
            Err(_) => scan_kept(before, seq![first]),
        },
{
    let none = Seq::<Result<ScanSnapshot, VaultError>>::empty();
    assert(seq![first].drop_last() =~= none);
    assert(seq![first, second].drop_last() =~= seq![first]);
    assert(scan_kept(before, none) == before);
}

impl<G: SessionGateway, S: OperationStore> VaultService<G, S> {
    pub fn new(gateway: G, store: S) -> (r: Self)
        ensures
            r.server() == gateway,
            r.record() == store,
            r.scanned() is None,
            r.forest() == Seq::<SessionTreeView>::empty(),
            r.consistent(),
    {
        let trees: Vec<SessionTree> = Vec::new();
        assert(trees.deep_view() =~= Seq::empty());
        VaultService { gateway, store, snapshot: None, trees }
    }

    /// The record.
    pub fn store(&self) -> (r: &S)
        ensures
            *r == self.record(),
    {
        &self.store
    }

    /// The server's side.
    pub fn gateway(&self) -> (r: &G)
        ensures
            *r == self.server(),
    {
        &self.gateway
    }

    /// What the record remembers of the preferences.
    pub fn load_preferences(&self) -> (r: Result<Preferences, VaultError>)
        ensures
            call_ensures(S::load_preferences, (&self.record(),), r),
    {
        self.store.load_preferences()
    }

    /// Hands the preferences to the record.
    pub fn save_preferences(&mut self, value: &Preferences) -> (r: Result<(), VaultError>)
        ensures
            final(self).scanned() == old(self).scanned(),
            final(self).forest() == old(self).forest(),
            final(self).server() == old(self).server(),
            exists|m: &mut S|
                *m == old(self).record() && *final(m) == final(self).record()
                    && #[trigger] call_ensures(S::save_preferences, (m, value), r),
    {
        self.store.save_preferences(value)
    }

    /// Settles the batches whose outcome was never recorded against the last
    /// scan, forgets what is older than ninety days, and says how many batches
    /// were settled and how many records forgotten.
    #[verifier::rlimit(40)]
    #[verifier::spinoff_prover]
    pub fn recover_and_prune(&mut self) -> (r: Result<(usize, usize), VaultError>)
        ensures
            old(self).scanned() is None ==> r is Err,
            final(self).scanned() == old(self).scanned(),
            final(self).forest() == old(self).forest(),
            final(self).server() == old(self).server(),
            exists|pending: Result<Vec<PendingBatch>, VaultError>| #[trigger]
                call_ensures(S::pending_batches, (&old(self).record(),), pending) && match pending {
                    Err(error) => r == Err::<(usize, usize), _>(error) && final(self).record()
                        == old(self).record(),
                    Ok(batches) => if old(self).scanned() is None {
                        result_view(r) == Err::<(usize, usize), _>(
                            VaultErrorView::Blocked("scan before recovering batches"@),
                        ) && final(self).record() == old(self).record()
                    } else {
                        exists|records: Seq<S>, at: i64, taken: Result<(), VaultError>|
                            {
                                &&& #[trigger] recovery_of(records, taken, batches@.len())
                                &&& #[trigger] call_ensures(now_epoch, (), at)
                                &&& records[0] == old(self).record()
                                &&& forall|i: int|
                                    i + 1 < records.len() && #[trigger] is_place(batches@, i)
                                        ==> exists|
                                        m: &mut S,
                                        id: &str,
                                        items: &TextMap<ItemResult>,
                                        status: &str,
                                    |
                                        id@ == batches@[i].batch_id@ && items@ == recovered(
                                            old(self).scanned()->0,
                                            batches@[i].deep_view(),
                                        ) && status@ == recovered_status(items@) && *m
                                            == records[i] && *final(m) == records[i + 1]
                                            && #[trigger] call_ensures(
                                            S::complete_batch,
                                            (m, id, items, status, at),
                                            answer_at(taken, i, records.len() as int),
                                        )
                                &&& match taken {
                                    Err(error) => r == Err::<(usize, usize), _>(error) && final(
                                        self).record() == records.last(),
                                    Ok(_) => exists|m: &mut S, pruned: Result<usize, VaultError>|
                                        *m == records.last() && *final(m) == final(self).record()
                                            && #[trigger] call_ensures(
                                            S::prune,
                                            (m, at, RETENTION_DAYS),
                                            pruned,
                                        ) && match pruned {
                                            Ok(count) => r == Ok::<_, VaultError>(
                                                (batches@.len() as usize, count),
                                            ),
                                            Err(error) => r == Err::<(usize, usize), _>(error),
                                        },
                                }
                            }
                    },
                },
    {
        let now = now_epoch();
        let answer = self.store.pending_batches();
        let ghost pending = answer;
        assert(call_ensures(S::pending_batches, (&old(self).record(),), pending));
        let batches = match answer {
            Ok(batches) => batches,
            Err(error) => {
                return Err(error);
            },
        };
        let snapshot = match &self.snapshot {
            Some(snapshot) => snapshot,
            None => {
                return Err(VaultError::Blocked("scan before recovering batches".to_owned()));
            },
        };
        let (taken, Ghost(records)) = recover_all(&mut self.store, snapshot, &batches, now);
        assert(recovery_of(records, taken, batches@.len()));
        assert(call_ensures(now_epoch, (), now));
        match taken {
            Ok(_) => {},
            Err(error) => {
                return Err(error);
            },
        }
        match self.store.prune(now, RETENTION_DAYS) {
            Ok(pruned) => Ok((batches.len(), pruned)),
            Err(error) => Err(error),
        }
    }

    /// Takes the outcome of a scan as the last scan.
    pub fn install(&mut self, snapshot: ScanSnapshot)
        ensures
            final(self).scanned() == Some(snapshot.deep_view()),
            final(self).forest() == trees_of(snapshot.deep_view()),
            final(self).consistent(),
            final(self).server() == old(self).server(),
            final(self).record() == old(self).record(),
    {
        self.trees = build_trees(&snapshot);
        self.snapshot = Some(snapshot);
    }

    /// Scans, and offers the trees of the scan. Where the server refuses, the
    /// last scan stays.
    pub fn refresh(&mut self) -> (r: Result<&Vec<SessionTree>, VaultError>)
        ensures
            final(self).record() == old(self).record(),
            exists|m: &mut G, answer: Result<ScanSnapshot, VaultError>|
                *m == old(self).server() && *final(m) == final(self).server()
                    && #[trigger] call_ensures(G::scan, (m,), answer) && match answer {
                    Ok(snapshot) => r is Ok && final(self).scanned() == Some(snapshot.deep_view()),
                    Err(error) => r == Err::<&Vec<SessionTree>, _>(error),
                },
            match r {
                Ok(trees) => final(self).scanned() is Some && final(self).consistent()
                    && trees.deep_view() == final(self).forest(),
                Err(_) => final(self).scanned() == old(self).scanned() && final(self).forest()
                    == old(self).forest(),
            },
    {
        match self.gateway.scan() {
            Ok(snapshot) => {
                self.install(snapshot);
                Ok(&self.trees)
            },
            Err(error) => Err(error),
        }
    }

    pub fn trees(&self) -> (r: &Vec<SessionTree>)
        ensures
            r.deep_view() == self.forest(),
    {
        &self.trees
    }

    /// What the last scan had to report.
    pub fn diagnostics(&self) -> (r: Vec<String>)
        ensures
            r.deep_view() == match self.scanned() {
                Some(snapshot) => snapshot.diagnostics,
                None => Seq::empty(),
            },
    {
        match &self.snapshot {
            Some(snapshot) => copy_texts(&snapshot.diagnostics),
            None => {
                let none: Vec<String> = Vec::new();
                assert(none.deep_view() =~= Seq::empty());
                none
            },
        }
    }

    /// The trees that a filter shows now.
    pub fn filtered(&self, filter: &Filter) -> (r: Vec<&SessionTree>)
        ensures
            exists|now: i64|
                call_ensures(now_epoch, (), now) && r.deep_view() == #[trigger] shown(
                    self.forest(),
                    filter.deep_view(),
                    now as int,
                ),
    {
        let now = now_epoch();
        let r = filter_trees(&self.trees, filter, now);
        assert(r.deep_view() == shown(self.forest(), filter.deep_view(), now as int));
        r
    }

    /// Previews an action on the trees that `roots` chooses.
    pub fn preview(&self, roots: &TextSet, action: Action) -> (r: OperationPreview)
        ensures
            exists|ready: Result<(), VaultError>| #[trigger]
                call_ensures(S::write_ready, (&self.record(),), ready) && previews(
                    r.deep_view(),
                    self.forest(),
                    roots@,
                    action,
                    ready is Ok,
                ),
    {
        let ready = self.store.write_ready();
        assert(call_ensures(S::write_ready, (&self.record(),), ready));
        preview_trees(&self.trees, roots, action, ready.is_ok())
    }

    /// Runs a preview. The plan is checked against a fresh scan and recorded
    /// before anything is changed; a scan after the changes decides what is
    /// reported as done.
    #[verifier::rlimit(60)]
    #[verifier::spinoff_prover]
    pub fn execute(&mut self, preview: &OperationPreview, delete_confirmation: Option<usize>) -> (r:
        Result<OperationResult, VaultError>)
        ensures
            old(self).consistent() ==> final(self).consistent(),
            exists|run: Run<G, S>|
                {
                    let checked = checked_plan(run, preview.deep_view(), delete_confirmation);
                    &&& #[trigger] run_of(
                        run,
                        preview.deep_view(),
                        delete_confirmation,
                        (old(self).server(), old(self).record()),
                        (final(self).server(), final(self).record()),
                        result_view(r),
                    )
                    &&& final(self).scanned() == scan_kept(
                        old(self).scanned(),
                        scans_of_run(run, preview.deep_view(), delete_confirmation),
                    )
                    &&& !empty_preview(preview.deep_view()) ==> exists|m: &mut G|
                        *m == old(self).server() && *final(m) == run.scanned
                            && #[trigger] call_ensures(G::scan, (m,), run.first)
                    &&& checked is Ok ==> exists|m: &mut S, key: &str, at: i64, ids: &Vec<String>|
                        key@ == checked->Ok_0.plan_key && ids.deep_view()
                            == checked->Ok_0.node_ids && call_ensures(now_epoch, (), at) && *m
                            == old(self).record() && *final(m) == run.opened
                            && #[trigger] call_ensures(
                            S::begin_batch,
                            (m, key, preview.action, at, ids),
                            run.begun,
                        )
                    &&& checked is Ok && run.begun is Ok ==> {
                        &&& forall|i: int| #[trigger]
                            is_place(checked->Ok_0.node_ids, i) ==> exists|m: &mut G, name: &str|
                                name@ == checked->Ok_0.node_ids[i] && *m == run.servers[i]
                                    && *final(m) == run.servers[i + 1] && #[trigger] call_ensures(
                                    G::mutate,
                                    (m, preview.action, name),
                                    run.answers[i],
                                )
                        &&& exists|m: &mut G|
                            *m == run.servers.last() && *final(m) == run.verified
                                && #[trigger] call_ensures(G::scan, (m,), run.rescan)
                        &&& exists|
                            m: &mut S,
                            id: &str,
                            items: &TextMap<ItemResult>,
                            status: &str,
                            at: i64,
                        |
                            id@ == run.begun->Ok_0@ && items@ == run_items(run, checked->Ok_0)
                                && status@ == batch_status(
                                result_view(run.rescan),
                                run_items(run, checked->Ok_0),
                            ) && call_ensures(now_epoch, (), at) && *m == run.opened && *final(m)
                                == run.closed && #[trigger] call_ensures(
                                S::complete_batch,
                                (m, id, items, status, at),
                                run.recorded,
                            )
                    }
                },
    {
        let ghost pv = preview.deep_view();
        let ghost server = self.gateway;
        let ghost record = self.store;
        let ghost mut run = Run {
            first: arbitrary(),
            scanned: server,
            begun: arbitrary(),
            opened: record,
            answers: Seq::empty(),
            servers: Seq::empty(),
            rescan: arbitrary(),
            verified: server,
            recorded: arbitrary(),
            closed: record,
        };
        proof {
            assert(preview.trees@.len() == pv.trees.len());
            lemma_scan_kept(old(self).scanned(), run.first, run.rescan);
        }
        if preview.trees.len() == 0 || preview.impacted_count == 0 {
            let blocked = VaultError::Blocked("nothing eligible is selected".to_owned());
            assert(run_of(
                run,
                pv,
                delete_confirmation,
                (old(self).server(), old(self).record()),
                (self.server(), self.record()),
                result_view(Err::<OperationResult, VaultError>(blocked)),
            ));
            return Err(blocked);
        }
        let first = self.gateway.scan();
        proof {
            run.first = first;
            run.scanned = self.gateway;
            lemma_scan_kept(old(self).scanned(), run.first, run.rescan);
        }
        match first {
            Ok(snapshot) => {
                self.install(snapshot);
            },
            Err(error) => {
                assert(run_of(
                    run,
                    pv,
                    delete_confirmation,
                    (old(self).server(), old(self).record()),
                    (self.server(), self.record()),
                    result_view(Err::<OperationResult, VaultError>(error)),
                ));
                return Err(error);
            },
        }
        let plan = match plan_execution(&self.trees, preview, delete_confirmation) {
            Ok(plan) => plan,
            Err(error) => {
                assert(run_of(
                    run,
                    pv,
                    delete_confirmation,
                    (old(self).server(), old(self).record()),
                    (self.server(), self.record()),
                    result_view(Err::<OperationResult, VaultError>(error)),
                ));
                return Err(error);
            },
        };
        let opened_at = now_epoch();
        let begun = self.store.begin_batch(
            plan.plan_key.as_str(),
            plan.action,
            opened_at,
            &plan.node_ids,
        );
        proof {
            run.begun = begun;
            run.opened = self.store;
        }
        let batch_id = match begun {
            Ok(batch_id) => batch_id,
            Err(error) => {
                assert(run_of(
                    run,
                    pv,
                    delete_confirmation,
                    (old(self).server(), old(self).record()),
                    (self.server(), self.record()),
                    result_view(Err::<OperationResult, VaultError>(error)),
                ));
                return Err(error);
            },
        };
        let (calls, Ghost(answers), Ghost(servers)) = change_all(
            &mut self.gateway,
            plan.action,
            &plan.node_ids,
        );
        proof {
            run.answers = answers;
            run.servers = servers;
            lemma_calls_of(plan.node_ids.deep_view(), answers);
        }
        let rescan = self.gateway.scan();
        proof {
            run.rescan = rescan;
            run.verified = self.gateway;
            lemma_scan_kept(old(self).scanned(), run.first, run.rescan);
        }
        let items = settle(plan.action, &calls, &rescan);
        let status = status_of_batch(&rescan, &items);
        let closed_at = now_epoch();
        let recorded = self.store.complete_batch(batch_id.as_str(), &items, status, closed_at);
        proof {
            run.recorded = recorded;
            run.closed = self.store;
        }
        let result = conclude(batch_id, plan.action, items, &rescan, &recorded);
        match rescan {
            Ok(snapshot) => {
                self.install(snapshot);
            },
            Err(_) => {},
        }
        proof {
            assert(run_of(
                run,
                pv,
                delete_confirmation,
                (old(self).server(), old(self).record()),
                (self.server(), self.record()),
                result_view(Ok::<OperationResult, VaultError>(result)),
            ));
        }
        Ok(result)
    }

    /// The last `limit` operations.
    pub fn history(&self, limit: usize) -> (r: Result<Vec<HistoryEntry>, VaultError>)
        ensures
            call_ensures(S::history, (&self.record(), limit), r),
    {
        self.store.history(limit)
    }

    /// Where the server's side is.
    pub fn target_summary(&self) -> (r: Option<String>)
        ensures
            call_ensures(G::target_summary, (&self.server(),), r),
    {
        self.gateway.target_summary()
    }

    /// The leftover data that the last scan found.
    pub fn maintenance_candidates(&self) -> (r: Vec<MaintenanceCandidate>)
        ensures
            call_ensures(G::maintenance_candidates, (&self.server(),), r),
    {
        self.gateway.maintenance_candidates()
    }

    /// The cleanup of the selected candidates.
    pub fn maintenance_preview(&self, selected: &TextSet) -> (r: MaintenancePlan)
        ensures
            exists|candidates: Vec<MaintenanceCandidate>| #[trigger]
                call_ensures(G::maintenance_candidates, (&self.server(),), candidates)
                    && r.deep_view().candidates == selected_candidates(
                    candidates.deep_view(),
                    selected@,
                ) && r.total_bytes == candidate_bytes(r.deep_view().candidates),
    {
        let candidates = self.gateway.maintenance_candidates();
        assert(call_ensures(G::maintenance_candidates, (&self.server(),), candidates));
        maintenance_plan(&candidates, selected)
    }

    /// Runs a cleanup. The candidates are looked up in a fresh scan and the
    /// plan is recorded before anything is removed; a scan after the removals
    /// decides what is reported as done.
    #[verifier::rlimit(60)]
    #[verifier::spinoff_prover]
    pub fn cleanup(&mut self, plan: &MaintenancePlan) -> (r: Result<OperationResult, VaultError>)
        ensures
            old(self).consistent() ==> final(self).consistent(),
            exists|run: CleanupRun<G, S>|
                {
                    let checked = checked_cleanup(run, plan.deep_view());
                    &&& #[trigger] cleanup_of(
                        run,
                        plan.deep_view(),
                        (old(self).server(), old(self).record()),
                        (final(self).server(), final(self).record()),
                        result_view(r),
                    )
                    &&& final(self).scanned() == scan_kept(
                        old(self).scanned(),
                        scans_of_cleanup(run, plan.deep_view()),
                    )
                    &&& plan.deep_view().candidates.len() > 0 ==> (exists|m: &mut G|
                        *m == old(self).server() && *final(m) == run.scanned
                            && #[trigger] call_ensures(G::scan, (m,), run.first))
                    &&& plan.deep_view().candidates.len() > 0 && run.first is Ok ==> call_ensures(
                        G::maintenance_candidates,
                        (&run.scanned,),
                        run.current,
                    )
                    &&& checked is Ok ==> exists|m: &mut S, key: &str, at: i64, ids: &Vec<String>|
                        key@ == checked->Ok_0.plan_key && ids.deep_view()
                            == checked->Ok_0.node_ids && call_ensures(now_epoch, (), at) && *m
                            == old(self).record() && *final(m) == run.opened
                            && #[trigger] call_ensures(
                            S::begin_batch,
                            (m, key, Action::Cleanup, at, ids),
                            run.begun,
                        )
                    &&& checked is Ok && run.begun is Ok ==> {
                        &&& forall|i: int| #[trigger]
                            is_place(plan.candidates@, i) ==> exists|m: &mut G, id: &str|
                                id@ == run.begun->Ok_0@ && *m == run.servers[i] && *final(m)
                                    == run.servers[i + 1] && #[trigger] call_ensures(
                                    G::cleanup,
                                    (m, id, &plan.candidates@[i]),
                                    run.answers[i],
                                )
                        &&& exists|m: &mut G|
                            *m == run.servers.last() && *final(m) == run.verified
                                && #[trigger] call_ensures(G::scan, (m,), run.rescan)
                        &&& call_ensures(
                            G::maintenance_candidates,
                            (&run.verified,),
                            run.remaining,
                        )
                        &&& exists|
                            m: &mut S,
                            id: &str,
                            items: &TextMap<ItemResult>,
                            status: &str,
                            at: i64,
                        |
                            id@ == run.begun->Ok_0@ && items@ == cleanup_items(run, checked->Ok_0)
                                && status@ == batch_status(
                                result_view(run.rescan),
                                cleanup_items(run, checked->Ok_0),
                            ) && call_ensures(now_epoch, (), at) && *m == run.opened && *final(m)
                                == run.closed && #[trigger] call_ensures(
                                S::complete_batch,
                                (m, id, items, status, at),
                                run.recorded,
                            )
                    }
                },
    {
        let ghost pv = plan.deep_view();
        let ghost server = self.gateway;
        let ghost record = self.store;
        let ghost mut run = CleanupRun {
            first: arbitrary(),
            scanned: server,
            current: arbitrary(),
            begun: arbitrary(),
            opened: record,
            answers: Seq::empty(),
            servers: Seq::empty(),
            rescan: arbitrary(),
            verified: server,
            remaining: arbitrary(),
            recorded: arbitrary(),
            closed: record,
        };
        proof {
            assert(plan.candidates@.len() == pv.candidates.len());
            lemma_scan_kept(old(self).scanned(), run.first, run.rescan);
        }
        if plan.candidates.len() == 0 {
            let blocked = VaultError::Blocked("nothing eligible is selected".to_owned());
            assert(cleanup_of(
                run,
                plan.deep_view(),
                (old(self).server(), old(self).record()),
                (self.server(), self.record()),
                result_view(Err::<OperationResult, VaultError>(blocked)),
            ));
            return Err(blocked);
        }
        let first = self.gateway.scan();
        proof {
            run.first = first;
            run.scanned = self.gateway;
            lemma_scan_kept(old(self).scanned(), run.first, run.rescan);
        }
        match first {
            Ok(snapshot) => {
                self.install(snapshot);
            },
            Err(error) => {
                assert(cleanup_of(
                    run,
                    plan.deep_view(),
                    (old(self).server(), old(self).record()),
                    (self.server(), self.record()),
                    result_view(Err::<OperationResult, VaultError>(error)),
                ));
                return Err(error);
            },
        }
        let current = self.gateway.maintenance_candidates();
        proof {
            run.current = current;
        }
        let checked = match plan_cleanup(&current, &plan.candidates) {
            Ok(checked) => checked,
            Err(error) => {
                assert(cleanup_of(
                    run,
                    plan.deep_view(),
                    (old(self).server(), old(self).record()),
                    (self.server(), self.record()),
                    result_view(Err::<OperationResult, VaultError>(error)),
                ));
                return Err(error);
            },
        };
        let opened_at = now_epoch();
        let begun = self.store.begin_batch(
            checked.plan_key.as_str(),
            Action::Cleanup,
            opened_at,
            &checked.node_ids,
        );
        proof {
            run.begun = begun;
            run.opened = self.store;
        }
        let batch_id = match begun {
            Ok(batch_id) => batch_id,
            Err(error) => {
                assert(cleanup_of(
                    run,
                    plan.deep_view(),
                    (old(self).server(), old(self).record()),
                    (self.server(), self.record()),
                    result_view(Err::<OperationResult, VaultError>(error)),
                ));
                return Err(error);
            },
        };
        let (calls, Ghost(answers), Ghost(servers)) = remove_all(
            &mut self.gateway,
            &batch_id,
            &plan.candidates,
        );
        proof {
            run.answers = answers;
            run.servers = servers;
        }
        let rescan = self.gateway.scan();
        proof {
            run.rescan = rescan;
            run.verified = self.gateway;
            lemma_scan_kept(old(self).scanned(), run.first, run.rescan);
        }
        let remaining = self.gateway.maintenance_candidates();
        proof {
            run.remaining = remaining;
        }
        let items = settle_cleanup(&calls, &rescan, &keys_of_candidates(&remaining));
        let status = status_of_batch(&rescan, &items);
        let closed_at = now_epoch();
        let recorded = self.store.complete_batch(batch_id.as_str(), &items, status, closed_at);
        proof {
            run.recorded = recorded;
            run.closed = self.store;
        }
        let result = conclude(batch_id, Action::Cleanup, items, &rescan, &recorded);
        match rescan {
            Ok(snapshot) => {
                self.install(snapshot);
            },
            Err(_) => {},
        }
        proof {
            assert(cleanup_of(
                run,
                plan.deep_view(),
                (old(self).server(), old(self).record()),
                (self.server(), self.record()),
                result_view(Ok::<OperationResult, VaultError>(result)),
            ));
        }
        Ok(result)
    }
}

proof fn lemma_take_set(s: Seq<Seq<char>>, i: int)
    requires
        0 <= i < s.len(),
    ensures
        s.take(i + 1).to_set() == s.take(i).to_set().insert(s[i]),
{
    let now = s.take(i + 1);
    let was = s.take(i);
    assert forall|x: Seq<char>| now.contains(x) <==> was.contains(x) || x == s[i] by {
        if now.contains(x) {
            let k = now.index_of(x);
            if k < i {
                assert(was[k] == x);
            }
        }
        if was.contains(x) {
            let k = was.index_of(x);
            assert(now[k] == x);
        }
        if x == s[i] {
            assert(now[i] == x);
        }
    }
    assert(now.to_set() =~= was.to_set().insert(s[i]));
}

} // verus!
