//! What the record of operations holds after a plan is begun and completed, in
//! terms of what was planned and of the results.

use crate::domain::{
    action_name, action_of, stored_result, Action, Cutoff, ItemResultView, PreferencesView,
    VaultErrorView,
};
use crate::ordered::{lemma_filter_member, lemma_ordered_members, ordered_texts};
use crate::storage::{
    batch_id_of, begun, completed, conflicts, grouped, hex, hex_digit, items_begun,
    items_completed, may_replace, pending_of, preference_row, preferences_of, probed_write,
    required_columns, says_failed, schema_problem, PendingRowView, PreferenceRowView,
    StoredBatchView, StoredItemView,
};
use crate::text::{ascii_lower, decimal, has_text, occurs_at, signed_decimal, text_lt};
use vstd::prelude::*;

verus! {

broadcast use vstd::group_vstd_default;

/// A plan that is not yet recorded is recorded under its new id, with one open
/// item for each of its sessions, exactly where no session is planned twice.
pub proof fn law_a_new_plan_is_recorded_in_full(
    new_id: Seq<char>,
    action: Action,
    ids: Seq<Seq<char>>,
)
    requires
        ids.len() <= usize::MAX,
    ensures
        begun(None, new_id, action, ids) is Ok <==> ids.no_duplicates(),
        begun(None, new_id, action, ids) matches Ok(batch) ==> {
            &&& batch.id == new_id
            &&& batch.action == action_name(action)
            &&& batch.planned_count == ids.len()
            &&& batch.status == "executing"@
            &&& forall|id: Seq<char>| #[trigger] batch.items.contains_key(id) <==> ids.contains(id)
            &&& forall|id: Seq<char>| #[trigger]
                batch.items.contains_key(id) ==> batch.items[id] == (StoredItemView {
                    action: action_name(action),
                    result: None,
                    completed_at: None,
                })
        },
{
    let items = items_begun(Map::empty(), ids.to_set(), action_name(action));
    assert(items.dom() =~= ids.to_set());
}

/// A plan that is taken up again keeps its id and leaves alone what is done or
/// skipped; every other item is open again, without its old result. It is
/// taken up only for the same action and the same sessions.
pub proof fn law_a_plan_taken_up_keeps_what_is_done(
    stored: StoredBatchView,
    new_id: Seq<char>,
    action: Action,
    ids: Seq<Seq<char>>,
    id: Seq<char>,
)
    requires
        stored.items.dom() == ids.to_set(),
        ids.no_duplicates(),
        stored.planned_count == ids.len(),
    ensures
        begun(Some(stored), new_id, action, ids) is Ok <==> stored.action == action_name(action),
        begun(Some(stored), new_id, action, ids) matches Ok(batch) ==> {
            &&& batch.id == stored.id
            &&& batch.action == stored.action
            &&& batch.planned_count == stored.planned_count
            &&& batch.status == "executing"@
            &&& batch.items.dom() == stored.items.dom()
            &&& ids.contains(id) ==> {
                let (was, is) = (stored.items[id], batch.items[id]);
                let done = was.result == Some("success"@) || was.result == Some("skipped"@);
                &&& is.action == was.action
                &&& done ==> is == was
                &&& !done ==> is.result is None
                &&& was.result is Some && !done ==> is.completed_at is None
            }
        },
{
    let items = items_begun(stored.items, ids.to_set(), action_name(action));
    assert(items.dom() =~= ids.to_set());
    if ids.contains(id) {
        assert(ids.to_set().contains(id));
        assert(stored.items.dom().contains(id));
    }
}

/// A stored text says that something failed: it begins so, in either case.
pub open spec fn tells_of_failure(text: Seq<char>) -> bool {
    text.len() >= 7 && forall|i: int|
        0 <= i < 7 ==> ascii_lower(#[trigger] text[i]) == ascii_lower("failed:"@[i])
}

/// Results are recorded exactly where the plan is on record, the results are
/// those of its sessions and of no other, and none of them would replace what
/// is on record as done or skipped by something else. Each session then has its own
/// result and the time of the recording.
pub proof fn law_results_are_recorded_for_their_sessions(
    batch_id: Seq<char>,
    stored: Option<Map<Seq<char>, StoredItemView>>,
    results: Map<Seq<char>, ItemResultView>,
    completed_at: i64,
)
    requires
        results.dom().finite(),
    ensures
        completed(batch_id, stored, results, completed_at) is Ok <==> {
            &&& stored is Some
            &&& stored->0.dom() == results.dom()
            &&& forall|id: Seq<char>| #[trigger]
                results.contains_key(id) ==> {
                    let old = stored->0[id].result;
                    ||| old is None
                    ||| old == Some("interrupted"@)
                    ||| tells_of_failure(old->0)
                    ||| old == Some(stored_result(results[id]))
                }
        },
        completed(batch_id, stored, results, completed_at) matches Ok(items) ==> {
            &&& items.dom() == results.dom()
            &&& forall|id: Seq<char>| #[trigger]
                results.contains_key(id) ==> {
                    &&& items[id].completed_at == Some(completed_at)
                    &&& items[id].action == stored->0[id].action
                    &&& results[id] is Success ==> items[id].result == Some("success"@)
                    &&& results[id] is Skipped ==> items[id].result == Some("skipped"@)
                    &&& results[id] is Interrupted ==> items[id].result == Some("interrupted"@)
                    &&& results[id] matches ItemResultView::Failed(message) ==> items[id].result
                        == Some("failed:"@ + message)
                }
        },
{
    let items = match stored {
        Some(items) => items,
        None => Map::empty(),
    };
    let bad = |id: Seq<char>|
        !(items.contains_key(id) && may_replace(
            items[id].result,
            stored_result(results[id]),
        ));
    let order = ordered_texts(results.dom());
    lemma_ordered_members(results.dom());
    assert(conflicts(items, results) == order.filter(bad));
    assert forall|id: Seq<char>| #[trigger] results.contains_key(id) implies order.contains(id) by {
        assert(order.to_set().contains(id));
    }
    assert forall|text: Seq<char>| #[trigger] says_failed(text) == tells_of_failure(text) by {
        lemma_tells_of_failure(text);
    }
    if items.dom() == results.dom() {
        if conflicts(items, results).len() > 0 {
            let id = conflicts(items, results)[0];
            assert(order.filter(bad).contains(id));
            lemma_filter_member(order, bad, id);
            assert(order.to_set().contains(id));
            assert(results.contains_key(id));
            assert(items.dom().contains(id));
        } else {
            assert forall|id: Seq<char>| #[trigger] results.contains_key(id) implies !bad(id) by {
                lemma_filter_member(order, bad, id);
                if bad(id) {
                    assert(order.filter(bad).contains(id));
                }
            }
        }
        assert(items_completed(items, results, completed_at).dom() =~= results.dom());
    }
}

proof fn lemma_tells_of_failure(text: Seq<char>)
    ensures
        says_failed(text) == tells_of_failure(text),
{
    reveal_strlit("failed:");
    assert("failed:"@.len() == 7);
    if text.len() >= 7 {
        let head = text.take(7);
        if tells_of_failure(text) {
            assert forall|i: int| 0 <= i < head.len() implies ascii_lower(#[trigger] head[i])
                == ascii_lower("failed:"@[i]) by {
                assert(head[i] == text[i]);
            }
        }
        if says_failed(text) {
            assert forall|i: int| 0 <= i < 7 implies ascii_lower(#[trigger] text[i])
                == ascii_lower("failed:"@[i]) by {
                assert(head[i] == text[i]);
            }
        }
    }
}

/// The rows of one plan.
pub open spec fn rows_of(
    rows: Seq<Result<PendingRowView, Seq<char>>>,
    id: Seq<char>,
) -> Seq<Result<PendingRowView, Seq<char>>> {
    rows.filter(|row: Result<PendingRowView, Seq<char>>| row->Ok_0.batch_id == id)
}

/// The open plans of the record are one for each id that its rows have; each
/// has the sessions of its own rows in their order, and the action that each
/// of its rows names.
pub proof fn law_open_plans_hold_their_rows(rows: Seq<Result<PendingRowView, Seq<char>>>)
    requires
        grouped(rows) is Ok,
    ensures
        ({
            let batches = grouped(rows)->Ok_0;
            &&& forall|i: int|
                0 <= i < rows.len() ==> {
                    &&& (#[trigger] rows[i]) is Ok
                    &&& batches.contains_key(rows[i]->Ok_0.batch_id)
                    &&& action_of(rows[i]->Ok_0.action) == Some(
                        batches[rows[i]->Ok_0.batch_id].action,
                    )
                }
            &&& forall|id: Seq<char>| #[trigger]
                batches.contains_key(id) ==> {
                    &&& batches[id].batch_id == id
                    &&& rows_of(rows, id).len() > 0
                    &&& batches[id].node_ids == rows_of(rows, id).map_values(
                        |row: Result<PendingRowView, Seq<char>>| row->Ok_0.node_id,
                    )
                }
        }),
    decreases rows.len(), 0int,
{
    reveal(Seq::filter);
    if rows.len() > 0 {
        let head = rows.drop_last();
        let last = rows.len() - 1;
        law_open_plans_hold_their_rows(head);
        let before = grouped(head)->Ok_0;
        let batches = grouped(rows)->Ok_0;
        let row = rows[last]->Ok_0;
        let node_of = |row: Result<PendingRowView, Seq<char>>| row->Ok_0.node_id;
        assert forall|i: int| 0 <= i < rows.len() implies {
            &&& (#[trigger] rows[i]) is Ok
            &&& batches.contains_key(rows[i]->Ok_0.batch_id)
            &&& action_of(rows[i]->Ok_0.action) == Some(batches[rows[i]->Ok_0.batch_id].action)
        } by {
            if i < last {
                assert(head[i] == rows[i]);
                assert(before.contains_key(rows[i]->Ok_0.batch_id));
            }
        }
        assert forall|id: Seq<char>| #[trigger] batches.contains_key(id) implies {
            &&& batches[id].batch_id == id
            &&& rows_of(rows, id).len() > 0
            &&& batches[id].node_ids == rows_of(rows, id).map_values(node_of)
        } by {
            if id == row.batch_id {
                assert(rows_of(rows, id) == rows_of(head, id).push(rows[last]));
                if !before.contains_key(id) {
                    lemma_no_rows(head, id);
                }
                assert(batches[id].node_ids =~= rows_of(rows, id).map_values(node_of));
            } else {
                assert(rows_of(rows, id) == rows_of(head, id));
                assert(before.contains_key(id));
            }
        }
    }
}

proof fn lemma_no_rows(rows: Seq<Result<PendingRowView, Seq<char>>>, id: Seq<char>)
    requires
        grouped(rows) is Ok,
        !grouped(rows)->Ok_0.contains_key(id),
    ensures
        rows_of(rows, id) == Seq::<Result<PendingRowView, Seq<char>>>::empty(),
    decreases rows.len(), 1int,
{
    law_open_plans_hold_their_rows(rows);
    let found = rows_of(rows, id);
    if found.len() > 0 {
        let keep = |row: Result<PendingRowView, Seq<char>>| row->Ok_0.batch_id == id;
        lemma_filter_member(rows, keep, found[0]);
        assert(found.contains(found[0]));
        let i = rows.index_of(found[0]);
        assert(rows[i] == found[0]);
    }
    assert(found =~= Seq::empty());
}

/// The open plans can be read exactly where every row can be read, names an
/// action, and names the same action as every other row of its plan; they come
/// in the order of their ids.
pub proof fn law_open_plans_are_read_whole(rows: Seq<Result<PendingRowView, Seq<char>>>)
    ensures
        pending_of(rows) is Ok <==> {
            &&& forall|i: int|
                0 <= i < rows.len() ==> (#[trigger] rows[i]) is Ok && action_of(
                    rows[i]->Ok_0.action,
                ) is Some
            &&& forall|i: int, k: int|
                0 <= i < k < rows.len() && (#[trigger] rows[i])->Ok_0.batch_id == (
                #[trigger] rows[k])->Ok_0.batch_id ==> action_of(rows[i]->Ok_0.action)
                    == action_of(rows[k]->Ok_0.action)
        },
        pending_of(rows) matches Ok(plans) ==> {
            &&& forall|i: int, k: int|
                0 <= i < k < plans.len() ==> text_lt(
                    (#[trigger] plans[i]).batch_id,
                    (#[trigger] plans[k]).batch_id,
                )
            &&& forall|i: int|
                0 <= i < rows.len() ==> exists|k: int|
                    0 <= k < plans.len() && (#[trigger] plans[k]).batch_id == (
                    #[trigger] rows[i])->Ok_0.batch_id
        },
{
    lemma_readable(rows);
    if pending_of(rows) is Ok {
        let batches = grouped(rows)->Ok_0;
        let plans = pending_of(rows)->Ok_0;
        let ids = ordered_texts(batches.dom());
        law_open_plans_hold_their_rows(rows);
        lemma_grouped_finite(rows);
        lemma_ordered_members(batches.dom());
        assert forall|k: int| 0 <= k < plans.len() implies (#[trigger] plans[k]).batch_id
            == ids[k] by {
            assert(ids.to_set().contains(ids[k]));
            assert(batches.contains_key(ids[k]));
        }
        assert forall|i: int| 0 <= i < rows.len() implies exists|k: int|
            0 <= k < plans.len() && (#[trigger] plans[k]).batch_id == (
            #[trigger] rows[i])->Ok_0.batch_id by {
            let id = rows[i]->Ok_0.batch_id;
            assert(batches.contains_key(id));
            assert(ids.to_set().contains(id));
            let k = ids.index_of(id);
            assert(plans[k].batch_id == id);
        }
    }
}

proof fn lemma_grouped_finite(rows: Seq<Result<PendingRowView, Seq<char>>>)
    ensures
        grouped(rows) matches Ok(batches) ==> batches.dom().finite(),
    decreases rows.len(),
{
    if rows.len() > 0 {
        lemma_grouped_finite(rows.drop_last());
        if grouped(rows) is Ok {
            let before = grouped(rows.drop_last())->Ok_0;
            let id = rows.last()->Ok_0.batch_id;
            assert(grouped(rows)->Ok_0.dom() =~= before.dom().insert(id));
        }
    }
}

proof fn lemma_readable(rows: Seq<Result<PendingRowView, Seq<char>>>)
    ensures
        grouped(rows) is Ok <==> {
            &&& forall|i: int|
                0 <= i < rows.len() ==> (#[trigger] rows[i]) is Ok && action_of(
                    rows[i]->Ok_0.action,
                ) is Some
            &&& forall|i: int, k: int|
                0 <= i < k < rows.len() && (#[trigger] rows[i])->Ok_0.batch_id == (
                #[trigger] rows[k])->Ok_0.batch_id ==> action_of(rows[i]->Ok_0.action)
                    == action_of(rows[k]->Ok_0.action)
        },
    decreases rows.len(),
{
    if rows.len() > 0 {
        let head = rows.drop_last();
        let last = rows.len() - 1;
        lemma_readable(head);
        if grouped(rows) is Ok {
            law_open_plans_hold_their_rows(rows);
        } else if (forall|i: int|
            0 <= i < rows.len() ==> (#[trigger] rows[i]) is Ok && action_of(rows[i]->Ok_0.action)
                is Some) && (forall|i: int, k: int|
            0 <= i < k < rows.len() && (#[trigger] rows[i])->Ok_0.batch_id == (
            #[trigger] rows[k])->Ok_0.batch_id ==> action_of(rows[i]->Ok_0.action) == action_of(
                rows[k]->Ok_0.action,
            )) {
            assert forall|i: int| 0 <= i < head.len() implies (#[trigger] head[i]) is Ok
                && action_of(head[i]->Ok_0.action) is Some by {
                assert(rows[i] is Ok);
            }
            assert forall|i: int, k: int|
                0 <= i < k < head.len() && (#[trigger] head[i])->Ok_0.batch_id == (
                #[trigger] head[k])->Ok_0.batch_id implies action_of(head[i]->Ok_0.action)
                == action_of(head[k]->Ok_0.action) by {
                assert(rows[i]->Ok_0.batch_id == rows[k]->Ok_0.batch_id);
            }
            law_open_plans_hold_their_rows(head);
            let before = grouped(head)->Ok_0;
            let row = rows[last]->Ok_0;
            assert(rows[last] is Ok && action_of(row.action) is Some);
            if before.contains_key(row.batch_id) {
                let mine = rows_of(head, row.batch_id);
                let keep = |r: Result<PendingRowView, Seq<char>>| r->Ok_0.batch_id == row.batch_id;
                lemma_filter_member(head, keep, mine[0]);
                assert(mine.contains(mine[0]));
                let i = head.index_of(mine[0]);
                assert(head[i] == rows[i]);
                assert(rows[i]->Ok_0.batch_id == rows[last]->Ok_0.batch_id);
            }
        }
    }
}

proof fn lemma_hex_digits(a: int, b: int)
    requires
        0 <= a < 16,
        0 <= b < 16,
        hex_digit(a) == hex_digit(b),
    ensures
        a == b,
{
}

proof fn lemma_hex_len(n: int)
    requires
        n >= 0,
    ensures
        hex(n).len() > 0,
        n >= 16 ==> hex(n).len() > 1,
        !hex(n).contains('-'),
    decreases n,
{
    if n >= 16 {
        lemma_hex_len(n / 16);
    }
    if hex(n).contains('-') {
        let k = hex(n).index_of('-');
        if n >= 16 && k < hex(n / 16).len() {
            assert(hex(n / 16)[k] == '-');
            assert(hex(n / 16).contains('-'));
        }
    }
}

proof fn lemma_hex_injective(a: int, b: int)
    requires
        a >= 0,
        b >= 0,
        hex(a) == hex(b),
    ensures
        a == b,
    decreases a,
{
    lemma_hex_len(a);
    lemma_hex_len(b);
    if a >= 16 && b >= 16 {
        assert(hex(a).drop_last() =~= hex(a / 16));
        assert(hex(b).drop_last() =~= hex(b / 16));
        lemma_hex_injective(a / 16, b / 16);
        assert(hex(a).last() == hex_digit(a % 16));
        assert(hex(b).last() == hex_digit(b % 16));
        lemma_hex_digits(a % 16, b % 16);
    } else {
        lemma_hex_len(a / 16);
        lemma_hex_len(b / 16);
        if a < 16 && b < 16 {
            assert(hex(a)[0] == hex_digit(a) && hex(b)[0] == hex_digit(b));
            lemma_hex_digits(a, b);
        }
    }
}

/// Batches that are begun at different times, or by different processes, have
/// different ids.
pub proof fn law_batch_ids_differ(nanos: u128, process: u32, other: u128, another: u32)
    requires
        batch_id_of(nanos, process) == batch_id_of(other, another),
    ensures
        nanos == other,
        process == another,
{
    reveal_strlit("-");
    let (a, b, c, d) = (
        hex(nanos as int),
        hex(process as int),
        hex(other as int),
        hex(another as int),
    );
    lemma_hex_len(nanos as int);
    lemma_hex_len(process as int);
    lemma_hex_len(other as int);
    lemma_hex_len(another as int);
    let head = "batch-"@;
    let (s, t) = (a + "-"@ + b, c + "-"@ + d);
    assert(batch_id_of(nanos, process) =~= head + s);
    assert(batch_id_of(other, another) =~= head + t);
    assert(s =~= (head + s).skip(head.len() as int));
    assert(t =~= (head + t).skip(head.len() as int));
    if a.len() < c.len() {
        assert(s[a.len() as int] == '-');
        assert(t[a.len() as int] == c[a.len() as int]);
        assert(c.contains(c[a.len() as int]));
    }
    if c.len() < a.len() {
        assert(t[c.len() as int] == '-');
        assert(s[c.len() as int] == a[c.len() as int]);
        assert(a.contains(a[c.len() as int]));
    }
    assert(a =~= s.take(a.len() as int));
    assert(c =~= t.take(c.len() as int));
    assert(b =~= s.skip(a.len() as int + 1));
    assert(d =~= t.skip(c.len() as int + 1));
    lemma_hex_injective(nanos as int, other as int);
    lemma_hex_injective(process as int, another as int);
}

/// The record counts as writable exactly where the probe was written, undone
/// and released; what failed is told, whatever else failed with it.
pub proof fn law_a_probe_must_be_written_and_undone(
    probe: Result<(), Seq<char>>,
    rollback: Result<(), Seq<char>>,
    release: Result<(), Seq<char>>,
)
    ensures
        probed_write(probe, rollback, release) is Ok <==> probe is Ok && rollback is Ok
            && release is Ok,
        probed_write(probe, rollback, release) matches Err(error) ==> {
            error matches VaultErrorView::Storage(told) && {
                &&& probe matches Err(problem) ==> has_text(told, problem)
                &&& rollback matches Err(problem) ==> has_text(told, problem)
                &&& release matches Err(problem) ==> has_text(told, problem)
            }
        },
{
    if let Err(error) = probed_write(probe, rollback, release) {
        let told = error->Storage_0;
        if let Err(problem) = probe {
            if rollback is Ok && release is Ok {
                assert(told.subrange(0, problem.len() as int) =~= problem);
                assert(occurs_at(told, problem, 0));
            } else {
                let at = "write probe failed: "@.len() as int;
                assert(told.subrange(at, at + problem.len()) =~= problem);
                assert(occurs_at(told, problem, at));
            }
        }
        let head = match probe {
            Ok(_) => "write probe cleanup failed: "@,
            Err(problem) => "write probe failed: "@ + problem + "; cleanup failed: "@,
        };
        if let Err(problem) = rollback {
            let at = (head + "rollback failed: "@).len() as int;
            assert(told.subrange(at, at + problem.len()) =~= problem);
            assert(occurs_at(told, problem, at));
        }
        if let Err(problem) = release {
            let at = told.len() - problem.len();
            assert(told.subrange(at, at + problem.len()) =~= problem);
            assert(occurs_at(told, problem, at));
        }
    }
}

/// A row of preferences says in words what was chosen: the kind of the bound
/// on time and its number, and a state as one, zero or nothing. A row whose
/// number cannot be read stands for thirty days, or for the epoch.
pub proof fn law_preferences_are_told_apart(value: PreferencesView, row: PreferenceRowView)
    ensures
        preference_row(value).project == value.project,
        preference_row(value).archived == match value.archived {
            None => None::<i64>,
            Some(archived) => if archived {
                Some(1i64)
            } else {
                Some(0i64)
            },
        },
        value.cutoff is All <==> preference_row(value).cutoff_kind == "all"@,
        value.cutoff is RollingDays <==> preference_row(value).cutoff_kind == "rolling_days"@,
        value.cutoff is Absolute <==> preference_row(value).cutoff_kind == "absolute"@,
        value.cutoff matches Cutoff::RollingDays(days) ==> preference_row(value).cutoff_value
            == decimal(days as int),
        value.cutoff matches Cutoff::Absolute(second) ==> preference_row(value).cutoff_value
            == signed_decimal(second as int),
        row.cutoff_kind == "rolling_days"@ && row.cutoff_value.len() == 0 ==> preferences_of(
            row,
        ).cutoff == Cutoff::RollingDays(30),
        row.cutoff_kind == "absolute"@ && row.cutoff_value.len() == 0 ==> preferences_of(
            row,
        ).cutoff == Cutoff::Absolute(0),
        preferences_of(row).project == row.project,
        preferences_of(row).archived is Some <==> row.archived is Some,
        row.archived matches Some(n) ==> preferences_of(row).archived == Some(n != 0),
{
    reveal_strlit("all");
    reveal_strlit("rolling_days");
    reveal_strlit("absolute");
    assert("all"@.len() == 3 && "rolling_days"@.len() == 12 && "absolute"@.len() == 8);
    if let Some(archived) = value.archived {
        assert(archived == true || archived == false);
    }
}

/// A record of an earlier run can be used exactly where its three tables have
/// all of their columns; the key of a plan is asked for in the present layout
/// alone.
pub proof fn law_a_record_must_have_its_columns(
    tables: Map<Seq<char>, Set<Seq<char>>>,
    version: i64,
)
    ensures
        schema_problem(tables, version) is None <==> {
            let preferences = tables["preferences"@];
            let batches = tables["operation_batches"@];
            let items = tables["operation_items"@];
            &&& tables.contains_key("preferences"@)
            &&& preferences.contains("singleton"@)
            &&& preferences.contains("language"@)
            &&& preferences.contains("cutoff_kind"@)
            &&& preferences.contains("cutoff_value"@)
            &&& preferences.contains("project"@)
            &&& preferences.contains("archived"@)
            &&& preferences.contains("updated_at"@)
            &&& tables.contains_key("operation_batches"@)
            &&& batches.contains("id"@)
            &&& batches.contains("action"@)
            &&& batches.contains("created_at"@)
            &&& batches.contains("planned_count"@)
            &&& batches.contains("status"@)
            &&& version == 2 ==> batches.contains("plan_key"@)
            &&& tables.contains_key("operation_items"@)
            &&& items.contains("batch_id"@)
            &&& items.contains("session_id"@)
            &&& items.contains("action"@)
            &&& items.contains("result"@)
            &&& items.contains("completed_at"@)
        },
{
    reveal_strlit("preferences");
    reveal_strlit("operation_batches");
    reveal_strlit("operation_items");
    assert("preferences"@.len() == 11 && "operation_batches"@.len() == 17 && "operation_items"@.len()
        == 15);
    let p = required_columns("preferences"@, version);
    let b = required_columns("operation_batches"@, version);
    let i = required_columns("operation_items"@, version);
    assert(p[0] == "singleton"@ && p[1] == "language"@ && p[2] == "cutoff_kind"@ && p[3]
        == "cutoff_value"@ && p[4] == "project"@ && p[5] == "archived"@ && p[6] == "updated_at"@);
    assert(b[0] == "id"@ && b[1] == "action"@ && b[2] == "created_at"@ && b[3] == "planned_count"@
        && b[4] == "status"@);
    assert(version == 2 ==> b[5] == "plan_key"@);
    assert(i[0] == "batch_id"@ && i[1] == "session_id"@ && i[2] == "action"@ && i[3] == "result"@
        && i[4] == "completed_at"@);
}

} // verus!
