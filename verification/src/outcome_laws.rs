//! What is reported of a session or a leftover, in terms of the answers that
//! came back and of the scan that followed.

use crate::domain::{
    error_message, Action, ItemResultView, MaintenanceAck, MaintenanceCandidateView, MutationAck,
    PendingBatchView, ScanSnapshot, ScanSnapshotView, SessionNodeView, VaultError, VaultErrorView,
};
use crate::ordered::lemma_filter_member;
use crate::service::{
    batch_status, calls_of, candidate_bytes, candidate_keys, cleanup_items, find_node, outcomes,
    recovered, recovered_status, removals_of, report, run_items, scan_kept, selected_candidates,
    CleanupRun, ExecutionPlanView, Run,
};
use vstd::prelude::*;

verus! {

broadcast use vstd::group_vstd_default;

/// The last of the sessions with the id is archived, or is not.
pub open spec fn seen(nodes: Seq<SessionNodeView>, id: Seq<char>, archived: bool) -> bool {
    exists|i: int|
        {
            &&& 0 <= i < nodes.len()
            &&& (#[trigger] nodes[i]).id == id
            &&& nodes[i].archived == archived
            &&& forall|k: int| i < k < nodes.len() ==> (#[trigger] nodes[k]).id != id
        }
}

/// None of the sessions has the id.
pub open spec fn absent(nodes: Seq<SessionNodeView>, id: Seq<char>) -> bool {
    forall|i: int| 0 <= i < nodes.len() ==> (#[trigger] nodes[i]).id != id
}

/// The sessions are as an action wants the one with the id to be: archived,
/// not archived, or gone. A cleanup wants nothing of a session.
pub open spec fn as_wanted(nodes: Seq<SessionNodeView>, action: Action, id: Seq<char>) -> bool {
    ||| action is Archive && seen(nodes, id, true)
    ||| action is Restore && seen(nodes, id, false)
    ||| action is Delete && absent(nodes, id)
}

proof fn lemma_found(nodes: Seq<SessionNodeView>, id: Seq<char>)
    ensures
        match find_node(nodes, id) {
            Some(node) => seen(nodes, id, node.archived) && !seen(nodes, id, !node.archived)
                && !absent(nodes, id),
            None => absent(nodes, id) && !seen(nodes, id, true) && !seen(nodes, id, false),
        },
    decreases nodes.len(),
{
    if nodes.len() > 0 {
        let last = nodes.len() - 1;
        if nodes[last].id == id {
            assert(seen(nodes, id, nodes[last].archived));
            if seen(nodes, id, !nodes[last].archived) {
                let i = choose|i: int|
                    {
                        &&& 0 <= i < nodes.len()
                        &&& (#[trigger] nodes[i]).id == id
                        &&& nodes[i].archived == !nodes[last].archived
                        &&& forall|k: int| i < k < nodes.len() ==> (#[trigger] nodes[k]).id != id
                    };
                assert(i < last);
                assert(nodes[last].id != id);
            }
        } else {
            let rest = nodes.drop_last();
            lemma_found(rest, id);
            assert forall|archived: bool| seen(rest, id, archived) == seen(
                nodes,
                id,
                archived,
            ) by {
                if seen(rest, id, archived) {
                    let i = choose|i: int|
                        {
                            &&& 0 <= i < rest.len()
                            &&& (#[trigger] rest[i]).id == id
                            &&& rest[i].archived == archived
                            &&& forall|k: int| i < k < rest.len() ==> (#[trigger] rest[k]).id != id
                        };
                    assert(nodes[i] == rest[i]);
                    assert forall|k: int| i < k < nodes.len() implies (#[trigger] nodes[k]).id
                        != id by {
                        if k < last {
                            assert(rest[k].id != id);
                        }
                    }
                }
                if seen(nodes, id, archived) {
                    let i = choose|i: int|
                        {
                            &&& 0 <= i < nodes.len()
                            &&& (#[trigger] nodes[i]).id == id
                            &&& nodes[i].archived == archived
                            &&& forall|k: int|
                                i < k < nodes.len() ==> (#[trigger] nodes[k]).id != id
                        };
                    assert(i < last);
                    assert(rest[i] == nodes[i]);
                    assert forall|k: int| i < k < rest.len() implies (#[trigger] rest[k]).id
                        != id by {
                        assert(nodes[k].id != id);
                    }
                }
            }
            assert(absent(nodes, id) == absent(rest, id)) by {
                if absent(rest, id) {
                    assert forall|i: int| 0 <= i < nodes.len() implies (#[trigger] nodes[i]).id
                        != id by {
                        if i < last {
                            assert(rest[i].id != id);
                        }
                    }
                }
                if absent(nodes, id) {
                    assert forall|i: int| 0 <= i < rest.len() implies (#[trigger] rest[i]).id
                        != id by {
                        assert(nodes[i].id != id);
                    }
                }
            }
        }
    }
}

proof fn lemma_worth(
    ids: Seq<Seq<char>>,
    answers: Seq<Result<MutationAck, VaultError>>,
    i: int,
)
    requires
        ids.len() == answers.len(),
        ids.no_duplicates(),
        0 <= i < ids.len(),
    ensures
        calls_of(ids, answers).contains_key(ids[i]),
        answers[i] is Ok ==> calls_of(ids, answers)[ids[i]] == ItemResultView::Interrupted,
        answers[i] matches Err(error) ==> calls_of(ids, answers)[ids[i]] == ItemResultView::Failed(
            error_message(error.deep_view()),
        ),
    decreases ids.len(),
{
    let last = ids.len() - 1;
    if i < last {
        lemma_worth(ids.drop_last(), answers.drop_last(), i);
        assert(ids[i] != ids[last]);
    }
}

/// After a scan that can be relied on, a session counts as done exactly where
/// the scan shows it as the action wants it. Everywhere else what is reported
/// is what its own change was answered: a refusal with its message, and
/// nothing known where the change was accepted.
pub proof fn law_a_reliable_scan_settles_each_session<G, S>(
    run: Run<G, S>,
    plan: ExecutionPlanView,
    snapshot: ScanSnapshot,
    i: int,
)
    requires
        run.answers.len() == plan.node_ids.len(),
        plan.node_ids.no_duplicates(),
        0 <= i < plan.node_ids.len(),
        run.rescan == Ok::<ScanSnapshot, VaultError>(snapshot),
        snapshot.write_capable,
        snapshot.relation_complete,
    ensures
        ({
            let id = plan.node_ids[i];
            let item = run_items(run, plan)[id];
            let nodes = snapshot.deep_view().nodes;
            &&& run_items(run, plan).contains_key(id)
            &&& as_wanted(nodes, plan.action, id) ==> item == ItemResultView::Success
            &&& !as_wanted(nodes, plan.action, id) && run.answers[i] is Ok ==> item
                == ItemResultView::Interrupted
            &&& !as_wanted(nodes, plan.action, id) ==> (run.answers[i] matches Err(error) ==> item
                == ItemResultView::Failed(error_message(error.deep_view())))
        }),
{
    lemma_worth(plan.node_ids, run.answers, i);
    lemma_found(snapshot.deep_view().nodes, plan.node_ids[i]);
}

/// Where the scan after the changes failed or cannot be relied on, no session
/// counts as done: what was refused is reported with its message, and of the
/// rest nothing is known.
pub proof fn law_without_a_reliable_scan_only_refusals_are_known<G, S>(
    run: Run<G, S>,
    plan: ExecutionPlanView,
    i: int,
)
    requires
        run.answers.len() == plan.node_ids.len(),
        plan.node_ids.no_duplicates(),
        0 <= i < plan.node_ids.len(),
        run.rescan matches Ok(snapshot) ==> !(snapshot.write_capable
            && snapshot.relation_complete),
    ensures
        ({
            let id = plan.node_ids[i];
            let item = run_items(run, plan)[id];
            &&& run_items(run, plan).contains_key(id)
            &&& run.answers[i] is Ok ==> item == ItemResultView::Interrupted
            &&& run.answers[i] matches Err(error) ==> item == ItemResultView::Failed(
                error_message(error.deep_view()),
            )
        }),
{
    lemma_worth(plan.node_ids, run.answers, i);
}

/// A result is settled for exactly the sessions that were asked for, and the
/// result of one does not rest on what another was answered.
pub proof fn law_sessions_are_settled_one_by_one(
    action: Action,
    a: Map<Seq<char>, ItemResultView>,
    b: Map<Seq<char>, ItemResultView>,
    rescan: Result<ScanSnapshotView, VaultErrorView>,
    id: Seq<char>,
)
    requires
        a.contains_key(id),
        b.contains_key(id),
        a[id] == b[id],
    ensures
        outcomes(action, a, rescan)[id] == outcomes(action, b, rescan)[id],
        outcomes(action, a, rescan).dom() == a.dom(),
{
    assert(outcomes(action, a, rescan).dom() =~= a.dom());
}

/// What any call of the settlement gives, whatever it was handed: done where a
/// reliable scan shows the wanted state, else a failure stays the failure that
/// it was, also where the scan cannot be relied on.
pub proof fn law_a_failure_stays_unless_the_scan_shows_otherwise(
    action: Action,
    calls: Map<Seq<char>, ItemResultView>,
    rescan: Result<ScanSnapshotView, VaultErrorView>,
    id: Seq<char>,
    message: Seq<char>,
)
    requires
        calls.contains_key(id),
        calls[id] == ItemResultView::Failed(message),
    ensures
        ({
            let shown = rescan matches Ok(snapshot) && snapshot.write_capable
                && snapshot.relation_complete && as_wanted(snapshot.nodes, action, id);
            &&& shown ==> outcomes(action, calls, rescan)[id] == ItemResultView::Success
            &&& !shown ==> outcomes(action, calls, rescan)[id] == ItemResultView::Failed(message)
        }),
{
    if let Ok(snapshot) = rescan {
        lemma_found(snapshot.nodes, id);
    }
}

proof fn lemma_removal_worth(
    keys: Seq<Seq<char>>,
    answers: Seq<Result<MaintenanceAck, VaultError>>,
    i: int,
)
    requires
        keys.len() == answers.len(),
        keys.no_duplicates(),
        0 <= i < keys.len(),
    ensures
        removals_of(keys, answers).contains_key(keys[i]),
        answers[i] is Ok ==> removals_of(keys, answers)[keys[i]] == ItemResultView::Interrupted,
        answers[i] matches Err(error) ==> removals_of(keys, answers)[keys[i]]
            == ItemResultView::Failed(error_message(error.deep_view())),
    decreases keys.len(),
{
    let last = keys.len() - 1;
    if i < last {
        lemma_removal_worth(keys.drop_last(), answers.drop_last(), i);
        assert(keys[i] != keys[last]);
    }
}

/// A leftover counts as removed exactly where the scan after the removals was
/// made and none of the leftovers that are still found has its key. Everywhere
/// else what is reported is what its own removal was answered.
pub proof fn law_a_scan_settles_each_leftover<G, S>(
    run: CleanupRun<G, S>,
    plan: ExecutionPlanView,
    i: int,
)
    requires
        run.answers.len() == plan.node_ids.len(),
        plan.node_ids.no_duplicates(),
        0 <= i < plan.node_ids.len(),
    ensures
        ({
            let key = plan.node_ids[i];
            let item = cleanup_items(run, plan)[key];
            let gone = run.rescan is Ok && forall|k: int|
                0 <= k < run.remaining@.len() ==> (#[trigger] run.remaining@[k]).key@ != key;
            &&& cleanup_items(run, plan).contains_key(key)
            &&& gone ==> item == ItemResultView::Success
            &&& !gone && run.answers[i] is Ok ==> item == ItemResultView::Interrupted
            &&& !gone ==> (run.answers[i] matches Err(error) ==> item == ItemResultView::Failed(
                error_message(error.deep_view()),
            ))
        }),
{
    let key = plan.node_ids[i];
    lemma_removal_worth(plan.node_ids, run.answers, i);
    let left = candidate_keys(run.remaining.deep_view());
    if left.contains(key) {
        let k = choose|k: int| 0 <= k < left.len() && left[k] == key;
        assert(run.remaining@[k].key@ == key);
    } else {
        assert forall|k: int| 0 <= k < run.remaining@.len() implies (
        #[trigger] run.remaining@[k]).key@ != key by {
            assert(left[k] == run.remaining@[k].key@);
        }
    }
}

/// A batch is recorded as needing verification exactly where the scan after
/// the changes failed or cannot be relied on, as completed where after a
/// reliable scan no item failed and none is open, and else as partial.
pub proof fn law_status_of_a_batch(
    rescan: Result<ScanSnapshotView, VaultErrorView>,
    items: Map<Seq<char>, ItemResultView>,
)
    ensures
        ({
            let sure = rescan matches Ok(snapshot) && snapshot.write_capable
                && snapshot.relation_complete;
            let open = exists|id: Seq<char>| #[trigger]
                items.contains_key(id) && (items[id] is Failed || items[id] is Interrupted);
            &&& !sure ==> batch_status(rescan, items) == "needs_verification"@
            &&& sure && !open ==> batch_status(rescan, items) == "completed"@
            &&& sure && open ==> batch_status(rescan, items) == "partial"@
        }),
{
}

/// A report carries the batch, the action and, where the result was recorded,
/// the items as they are; it warns exactly where the scan or the record left
/// something to be said.
pub proof fn law_a_report_warns_of_what_is_unsure(
    batch_id: Seq<char>,
    action: Action,
    items: Map<Seq<char>, ItemResultView>,
    rescan: Result<ScanSnapshotView, VaultErrorView>,
    recorded: Result<(), VaultErrorView>,
)
    ensures
        ({
            let result = report(batch_id, action, items, rescan, recorded);
            let sure = rescan matches Ok(snapshot) && snapshot.write_capable
                && snapshot.relation_complete;
            let unsure_scan: int = if sure {
                0
            } else {
                1
            };
            let unsure_record: int = if recorded is Ok {
                0
            } else {
                1
            };
            &&& result.batch_id == batch_id
            &&& result.action == action
            &&& result.items.dom() == items.dom()
            &&& result.warnings.len() == unsure_scan + unsure_record
            &&& recorded is Ok || !sure ==> result.items == items
            &&& recorded is Err && sure ==> forall|id: Seq<char>| #[trigger]
                items.contains_key(id) ==> result.items[id] == ItemResultView::Interrupted
            &&& rescan matches Err(error) ==> {
                let message = error_message(error);
                let said = result.warnings[0];
                &&& said.len() >= message.len()
                &&& said.skip(said.len() - message.len()) == message
            }
            &&& recorded matches Err(error) ==> {
                let message = error_message(error);
                let said = result.warnings.last();
                &&& said.len() >= message.len()
                &&& said.skip(said.len() - message.len()) == message
            }
        }),
{
    let result = report(batch_id, action, items, rescan, recorded);
    assert(result.items.dom() =~= items.dom());
    if let Err(error) = rescan {
        let message = error_message(error);
        let said = result.warnings[0];
        assert(said == "final app-server rescan failed: "@ + message);
        assert(said.skip(said.len() - message.len()) =~= message);
    }
    if let Err(error) = recorded {
        let message = error_message(error);
        let said = result.warnings.last();
        assert(said.skip(said.len() - message.len()) =~= message);
    }
}

/// A scan can be relied on and shows the session as the action wants it.
pub open spec fn surely_done(snapshot: ScanSnapshotView, action: Action, id: Seq<char>) -> bool {
    &&& snapshot.write_capable
    &&& snapshot.relation_complete
    &&& as_wanted(snapshot.nodes, action, id)
}

/// A recovery takes each session of an open batch as done exactly where the
/// scan can be relied on and shows it as the action wants it, and as
/// interrupted everywhere else; the batch is completed exactly where every one
/// of its sessions is done.
pub proof fn law_recovery_goes_by_the_scan(snapshot: ScanSnapshotView, batch: PendingBatchView)
    ensures
        ({
            let items = recovered(snapshot, batch);
            let all = forall|i: int|
                0 <= i < batch.node_ids.len() ==> surely_done(
                    snapshot,
                    batch.action,
                    #[trigger] batch.node_ids[i],
                );
            &&& forall|id: Seq<char>| #[trigger]
                items.contains_key(id) <==> batch.node_ids.contains(id)
            &&& forall|i: int|
                0 <= i < batch.node_ids.len() ==> items[#[trigger] batch.node_ids[i]]
                    == if surely_done(snapshot, batch.action, batch.node_ids[i]) {
                    ItemResultView::Success
                } else {
                    ItemResultView::Interrupted
                }
            &&& all ==> recovered_status(items) == "completed"@
            &&& !all ==> recovered_status(items) == "interrupted"@
        }),
{
    let items = recovered(snapshot, batch);
    assert forall|i: int| 0 <= i < batch.node_ids.len() implies items[#[trigger] batch.node_ids[i]]
        == if surely_done(snapshot, batch.action, batch.node_ids[i]) {
        ItemResultView::Success
    } else {
        ItemResultView::Interrupted
    } by {
        lemma_found(snapshot.nodes, batch.node_ids[i]);
        assert(batch.node_ids.contains(batch.node_ids[i]));
    }
    if forall|id: Seq<char>| #[trigger] items.contains_key(id) ==> items[id] is Success {
        assert forall|i: int| 0 <= i < batch.node_ids.len() implies surely_done(
            snapshot,
            batch.action,
            #[trigger] batch.node_ids[i],
        ) by {
            assert(batch.node_ids.contains(batch.node_ids[i]));
            assert(items.contains_key(batch.node_ids[i]));
        }
    } else {
        let id = choose|id: Seq<char>| #[trigger]
            items.contains_key(id) && !(items[id] is Success);
        let i = choose|i: int| 0 <= i < batch.node_ids.len() && batch.node_ids[i] == id;
        assert(batch.node_ids[i] == id);
        assert(!surely_done(snapshot, batch.action, batch.node_ids[i]));
    }
}

/// The bytes of a cleanup are the sum of what its leftovers take, held below
/// the largest number: nothing takes nothing, one takes its own bytes, and two
/// lists take together what each of them takes.
pub proof fn law_bytes_add_up(
    a: Seq<MaintenanceCandidateView>,
    b: Seq<MaintenanceCandidateView>,
    c: MaintenanceCandidateView,
)
    ensures
        candidate_bytes(Seq::empty()) == 0,
        candidate_bytes(seq![c]) == c.bytes,
        ({
            let sum = candidate_bytes(a) + candidate_bytes(b);
            candidate_bytes(a + b) == if sum > u64::MAX {
                u64::MAX as int
            } else {
                sum
            }
        }),
    decreases b.len(),
{
    reveal_with_fuel(candidate_bytes, 2);
    assert(seq![c].drop_last() =~= Seq::empty());
    lemma_bytes_bounded(a);
    if b.len() == 0 {
        assert(a + b =~= a);
    } else {
        law_bytes_add_up(a, b.drop_last(), c);
        assert((a + b).drop_last() =~= a + b.drop_last());
        assert((a + b).last() == b.last());
    }
}

proof fn lemma_bytes_bounded(a: Seq<MaintenanceCandidateView>)
    ensures
        0 <= candidate_bytes(a) <= u64::MAX,
    decreases a.len(),
{
    if a.len() > 0 {
        lemma_bytes_bounded(a.drop_last());
    }
}

/// A cleanup plans exactly the leftovers that are found and whose key was
/// selected, as they are found.
pub proof fn law_the_selected_leftovers_are_planned(
    found: Seq<MaintenanceCandidateView>,
    selected: Set<Seq<char>>,
    c: MaintenanceCandidateView,
)
    ensures
        selected_candidates(found, selected).contains(c) <==> found.contains(c)
            && selected.contains(c.key),
{
    lemma_filter_member(
        found,
        |x: MaintenanceCandidateView| selected.contains(x.key),
        c,
    );
}

/// The scan that is kept is the last that came back: a failed scan leaves the
/// one before it in place.
pub proof fn law_a_failed_scan_keeps_the_last(
    before: Option<ScanSnapshotView>,
    scans: Seq<Result<ScanSnapshot, VaultError>>,
    i: int,
)
    requires
        0 <= i < scans.len() ==> scans[i] is Ok,
        forall|k: int| i < k < scans.len() && 0 <= k ==> (#[trigger] scans[k]) is Err,
        -1 <= i < scans.len(),
    ensures
        i >= 0 ==> scan_kept(before, scans) == Some(scans[i]->Ok_0.deep_view()),
        i < 0 ==> scan_kept(before, scans) == before,
    decreases scans.len(),
{
    if scans.len() > 0 && i < scans.len() - 1 {
        assert(scans[scans.len() - 1] is Err);
        law_a_failed_scan_keeps_the_last(before, scans.drop_last(), i);
    }
}

} // verus!
