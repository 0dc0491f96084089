//! What the interface says of actions, reasons and results.

use crate::domain::{
    action_name, all_settled, copy_list, Action, Cutoff, ItemResult, ItemResultView,
    MaintenanceKind, OperationResult, OperationResultView, ProtectionReason,
    ProtectionReasonView, SessionTree, SessionTreeView,
};
use crate::i18n::{text_under, Catalog};
use crate::ordered::{ordered_texts, TextMap, TextSet};
use crate::text::{chars_of, decimal, decimal_text, join, joined, signed_decimal, signed_decimal_text};
use crate::ui::scope::{ScopeSummary, ScopeView};
use vstd::prelude::*;
use vstd::string::*;

verus! {

broadcast use vstd::group_vstd_default;

/// The texts of the interface by their keys.
pub type Texts = Map<Seq<char>, Seq<char>>;

/// What an action is called.
pub open spec fn action_word(texts: Texts, action: Action) -> Seq<char> {
    text_under(texts, action_name(action))
}

pub fn action_text(catalog: &Catalog, action: Action) -> (r: &str)
    ensures
        r@ == action_word(catalog.texts(), action),
{
    catalog.text(action.as_str())
}

/// What a kind of leftovers is called.
pub open spec fn kind_word(texts: Texts, kind: MaintenanceKind) -> Seq<char> {
    match kind {
        MaintenanceKind::UnreferencedRollout => text_under(texts, "maintenance_rollout"@),
        MaintenanceKind::StaleSpawnEdge => text_under(texts, "maintenance_edge"@),
        MaintenanceKind::MissingRolloutThread => text_under(texts, "maintenance_thread"@),
    }
}

pub fn maintenance_kind_text(catalog: &Catalog, kind: MaintenanceKind) -> (r: &str)
    ensures
        r@ == kind_word(catalog.texts(), kind),
{
    match kind {
        MaintenanceKind::UnreferencedRollout => catalog.text("maintenance_rollout"),
        MaintenanceKind::StaleSpawnEdge => catalog.text("maintenance_edge"),
        MaintenanceKind::MissingRolloutThread => catalog.text("maintenance_thread"),
    }
}

/// What a view is called.
pub open spec fn view_word(texts: Texts, archived: Option<bool>) -> Seq<char> {
    match archived {
        None => text_under(texts, "all"@),
        Some(false) => text_under(texts, "active"@),
        Some(true) => text_under(texts, "archived"@),
    }
}

pub fn view_text(catalog: &Catalog, archived: Option<bool>) -> (r: &str)
    ensures
        r@ == view_word(catalog.texts(), archived),
{
    match archived {
        None => catalog.text("all"),
        Some(archived) => if archived {
            catalog.text("archived")
        } else {
            catalog.text("active")
        },
    }
}

/// What a cutoff is called. How a second reads on the local clock is given; a
/// second that has no reading is shown as a number.
pub open spec fn cutoff_word(cutoff: Cutoff, local: Option<Seq<char>>) -> Seq<char> {
    match cutoff {
        Cutoff::All => "*"@,
        Cutoff::RollingDays(days) => decimal(days as int) + "d"@,
        Cutoff::Absolute(epoch) => match local {
            Some(text) => text,
            None => signed_decimal(epoch as int),
        },
    }
}

pub fn cutoff_text(cutoff: Cutoff, local: &Option<String>) -> (r: String)
    ensures
        r@ == cutoff_word(cutoff, local.deep_view()),
{
    match cutoff {
        Cutoff::All => "*".to_owned(),
        Cutoff::RollingDays(days) => decimal_text(days as u64).concat("d"),
        Cutoff::Absolute(epoch) => match local {
            Some(text) => text.clone(),
            None => signed_decimal_text(epoch),
        },
    }
}

/// What a reason is called.
pub open spec fn reason_word(texts: Texts, reason: ProtectionReasonView) -> Seq<char> {
    match reason {
        ProtectionReasonView::Pinned => text_under(texts, "reason_pinned"@),
        ProtectionReasonView::PinnedUnknown => text_under(texts, "reason_pin_unknown"@),
        ProtectionReasonView::Running => text_under(texts, "reason_running"@),
        ProtectionReasonView::WaitingApproval => text_under(texts, "reason_waiting_approval"@),
        ProtectionReasonView::WaitingInput => text_under(texts, "reason_waiting_input"@),
        ProtectionReasonView::UnsafeStatus(value) => text_under(texts, "reason_unsafe_status"@)
            + ": "@ + value,
        ProtectionReasonView::UnverifiableSource => text_under(
            texts,
            "reason_unverifiable_source"@,
        ),
        ProtectionReasonView::MissingTimestamp => text_under(
            texts,
            "reason_missing_timestamp"@,
        ),
        ProtectionReasonView::IncompleteRelations => text_under(
            texts,
            "reason_incomplete_relations"@,
        ),
        ProtectionReasonView::WriteCapabilityMissing => text_under(
            texts,
            "reason_capability_missing"@,
        ),
        ProtectionReasonView::StorageUnavailable => text_under(
            texts,
            "reason_storage_unavailable"@,
        ),
    }
}

pub fn protection_text(catalog: &Catalog, reason: &ProtectionReason) -> (r: String)
    ensures
        r@ == reason_word(catalog.texts(), reason.deep_view()),
{
    match reason {
        ProtectionReason::Pinned => catalog.text("reason_pinned").to_owned(),
        ProtectionReason::PinnedUnknown => catalog.text("reason_pin_unknown").to_owned(),
        ProtectionReason::Running => catalog.text("reason_running").to_owned(),
        ProtectionReason::WaitingApproval => catalog.text("reason_waiting_approval").to_owned(),
        ProtectionReason::WaitingInput => catalog.text("reason_waiting_input").to_owned(),
        ProtectionReason::UnsafeStatus(value) => catalog.text(
            "reason_unsafe_status",
        ).to_owned().concat(": ").concat(value.as_str()),
        ProtectionReason::UnverifiableSource => catalog.text(
            "reason_unverifiable_source",
        ).to_owned(),
        ProtectionReason::MissingTimestamp => catalog.text("reason_missing_timestamp").to_owned(),
        ProtectionReason::IncompleteRelations => catalog.text(
            "reason_incomplete_relations",
        ).to_owned(),
        ProtectionReason::WriteCapabilityMissing => catalog.text(
            "reason_capability_missing",
        ).to_owned(),
        ProtectionReason::StorageUnavailable => catalog.text(
            "reason_storage_unavailable",
        ).to_owned(),
    }
}

/// Reasons, put behind one another.
pub open spec fn reasons_words(texts: Texts, reasons: Seq<ProtectionReasonView>) -> Seq<char> {
    joined(
        reasons.map_values(|reason: ProtectionReasonView| reason_word(texts, reason)),
        ", "@,
    )
}

pub fn reasons_text(catalog: &Catalog, reasons: &Vec<ProtectionReason>) -> (r: String)
    ensures
        r@ == reasons_words(catalog.texts(), reasons.deep_view()),
{
    let ghost texts = catalog.texts();
    let ghost want = reasons.deep_view().map_values(
        |reason: ProtectionReasonView| reason_word(texts, reason),
    );
    let mut parts: Vec<String> = Vec::new();
    let mut i: usize = 0;
    assert(parts.deep_view() =~= want.take(0));
    while i < reasons.len()
        invariant
            i <= reasons@.len(),
            texts == catalog.texts(),
            want == reasons.deep_view().map_values(
                |reason: ProtectionReasonView| reason_word(texts, reason),
            ),
            parts.deep_view() == want.take(i as int),
        decreases reasons.len() - i,
    {
        let ghost before = parts.deep_view();
        let part = protection_text(catalog, &reasons[i]);
        assert(reasons.deep_view()[i as int] == reasons@[i as int].deep_view());
        parts.push(part);
        assert(parts.deep_view() =~= before.push(part@));
        assert(parts.deep_view() =~= want.take(i as int + 1));
        i += 1;
    }
    assert(want.take(i as int) =~= want);
    join(&parts, ", ")
}

/// A reason that is about the tree itself, and not about the whole scan.
pub open spec fn specific(reason: ProtectionReasonView) -> bool {
    !(reason is PinnedUnknown || reason is IncompleteRelations || reason is WriteCapabilityMissing
        || reason is StorageUnavailable)
}

/// The reasons that are about the tree itself.
pub open spec fn specific_words(texts: Texts, reasons: Seq<ProtectionReasonView>) -> Seq<char> {
    reasons_words(texts, reasons.filter(|reason: ProtectionReasonView| specific(reason)))
}

pub fn specific_protection_message(catalog: &Catalog, reasons: &Vec<ProtectionReason>) -> (r:
    String)
    ensures
        r@ == specific_words(catalog.texts(), reasons.deep_view()),
{
    let ghost all = reasons.deep_view();
    let ghost keep = |reason: ProtectionReasonView| specific(reason);
    let mut kept: Vec<ProtectionReason> = Vec::new();
    let mut i: usize = 0;
    proof {
        reveal(Seq::filter);
        assert(kept.deep_view() =~= all.take(0).filter(keep));
    }
    while i < reasons.len()
        invariant
            i <= reasons@.len(),
            all == reasons.deep_view(),
            keep == (|reason: ProtectionReasonView| specific(reason)),
            kept.deep_view() == all.take(i as int).filter(keep),
        decreases reasons.len() - i,
    {
        let ghost before = kept.deep_view();
        proof {
            reveal(Seq::filter);
            assert(all.take(i as int + 1).drop_last() =~= all.take(i as int));
            assert(all.take(i as int + 1).last() == reasons@[i as int].deep_view());
        }
        let general = match &reasons[i] {
            ProtectionReason::PinnedUnknown => true,
            ProtectionReason::IncompleteRelations => true,
            ProtectionReason::WriteCapabilityMissing => true,
            ProtectionReason::StorageUnavailable => true,
            _ => false,
        };
        if !general {
            let reason = reasons[i].clone();
            kept.push(reason);
            assert(kept.deep_view() =~= before.push(reason.deep_view()));
        }
        i += 1;
    }
    assert(all.take(i as int) =~= all);
    reasons_text(catalog, &kept)
}

/// The reasons against a tree: those of the scope, else its own.
pub open spec fn reasons_for(tree: SessionTreeView, scope: ScopeView) -> Seq<
    ProtectionReasonView,
> {
    if scope.blocked.contains_key(tree.root_id) {
        scope.blocked[tree.root_id]
    } else {
        tree.protection
    }
}

fn find_reasons(tree: &SessionTree, scope: &ScopeSummary) -> (r: Vec<ProtectionReason>)
    ensures
        r.deep_view() == reasons_for(tree.deep_view(), scope.deep_view()),
{
    match scope.blocked.get(tree.root_id.as_str()) {
        Some(reasons) => copy_list(reasons),
        None => copy_list(&tree.protection),
    }
}

/// Why a tree that nothing speaks against is none for an action.
pub open spec fn unfit_word(texts: Texts, action: Action) -> Seq<char> {
    match action {
        Action::Archive => text_under(texts, "reason_already_archived"@),
        Action::Restore => text_under(texts, "reason_restore_requires_archived"@),
        Action::Delete => text_under(texts, "reason_delete_requires_archived"@),
        Action::Cleanup => text_under(texts, "maintenance_title"@),
    }
}

fn unfit_text(catalog: &Catalog, action: Action) -> (r: String)
    ensures
        r@ == unfit_word(catalog.texts(), action),
{
    match action {
        Action::Archive => catalog.text("reason_already_archived").to_owned(),
        Action::Restore => catalog.text("reason_restore_requires_archived").to_owned(),
        Action::Delete => catalog.text("reason_delete_requires_archived").to_owned(),
        Action::Cleanup => catalog.text("maintenance_title").to_owned(),
    }
}

/// Why a tree cannot be chosen.
pub open spec fn blocked_words(
    texts: Texts,
    tree: SessionTreeView,
    action: Action,
    scope: ScopeView,
) -> Seq<char> {
    let reasons = reasons_for(tree, scope);
    if reasons.len() > 0 {
        reasons_words(texts, reasons)
    } else {
        unfit_word(texts, action)
    }
}

pub fn blocked_message(
    catalog: &Catalog,
    tree: &SessionTree,
    action: Action,
    scope: &ScopeSummary,
) -> (r: String)
    ensures
        r@ == blocked_words(catalog.texts(), tree.deep_view(), action, scope.deep_view()),
{
    let reasons = find_reasons(tree, scope);
    assert(reasons.deep_view().len() == reasons@.len());
    if reasons.len() > 0 {
        reasons_text(catalog, &reasons)
    } else {
        unfit_text(catalog, action)
    }
}

/// Why a tree cannot be chosen, as its row says it: what is true of the whole
/// scan is left out.
pub open spec fn row_words(
    texts: Texts,
    tree: SessionTreeView,
    action: Action,
    scope: ScopeView,
) -> Seq<char> {
    let reasons = reasons_for(tree, scope);
    let own = specific_words(texts, reasons);
    if own.len() > 0 {
        own
    } else if reasons.len() > 0 {
        Seq::empty()
    } else {
        unfit_word(texts, action)
    }
}

pub fn row_blocked_message(
    catalog: &Catalog,
    tree: &SessionTree,
    action: Action,
    scope: &ScopeSummary,
) -> (r: String)
    ensures
        r@ == row_words(catalog.texts(), tree.deep_view(), action, scope.deep_view()),
{
    let reasons = find_reasons(tree, scope);
    assert(reasons.deep_view().len() == reasons@.len());
    let own = specific_protection_message(catalog, &reasons);
    if chars_of(own.as_str()).len() > 0 {
        return own;
    }
    if reasons.len() > 0 {
        let empty = String::new();
        assert(empty@ =~= Seq::empty());
        return empty;
    }
    unfit_text(catalog, action)
}

/// The mark of a selected entry.
pub open spec fn mark_of(selected: Set<Seq<char>>, root: Seq<char>) -> Seq<char> {
    if selected.contains(root) {
        "[x]"@
    } else {
        "[ ]"@
    }
}

pub fn selection_marker(selected: &TextSet, root: &str) -> (r: &'static str)
    ensures
        r@ == mark_of(selected@, root@),
{
    if selected.contains(root) {
        "[x]"
    } else {
        "[ ]"
    }
}

/// The kinds of results.
#[derive(Debug, Clone, Copy, PartialEq, Eq, Structural)]
pub enum ResultKind {
    Success,
    Skipped,
    Failed,
    Interrupted,
}

pub open spec fn result_kind(result: ItemResultView) -> ResultKind {
    match result {
        ItemResultView::Success => ResultKind::Success,
        ItemResultView::Skipped => ResultKind::Skipped,
        ItemResultView::Failed(_) => ResultKind::Failed,
        ItemResultView::Interrupted => ResultKind::Interrupted,
    }
}

fn kind_of_result(result: &ItemResult) -> (r: ResultKind)
    ensures
        r == result_kind(result.deep_view()),
{
    match result {
        ItemResult::Success => ResultKind::Success,
        ItemResult::Skipped => ResultKind::Skipped,
        ItemResult::Failed(_) => ResultKind::Failed,
        ItemResult::Interrupted => ResultKind::Interrupted,
    }
}

/// The sessions with a kind of result.
pub open spec fn with_result(items: Map<Seq<char>, ItemResultView>, kind: ResultKind) -> Seq<
    Seq<char>,
> {
    ordered_texts(items.dom()).filter(|id: Seq<char>| result_kind(items[id]) == kind)
}

fn count_results(items: &TextMap<ItemResult>, kind: ResultKind) -> (r: usize)
    ensures
        r == with_result(items@, kind).len(),
{
    let ids = items.keys();
    let ghost all = ids.deep_view();
    let ghost map = items@;
    let ghost keep = |id: Seq<char>| result_kind(map[id]) == kind;
    let mut n: usize = 0;
    let mut i: usize = 0;
    proof {
        reveal(Seq::filter);
        assert(all.take(0).filter(keep) =~= Seq::empty());
    }
    while i < ids.len()
        invariant
            i <= ids@.len(),
            n <= i,
            map == items@,
            all == ids.deep_view(),
            all.to_set() == map.dom(),
            keep == (|id: Seq<char>| result_kind(map[id]) == kind),
            n == all.take(i as int).filter(keep).len(),
        decreases ids.len() - i,
    {
        proof {
            reveal(Seq::filter);
            assert(all[i as int] == ids@[i as int]@);
            assert(all.to_set().contains(all[i as int]));
            assert(all.take(i as int + 1).drop_last() =~= all.take(i as int));
            assert(all.take(i as int + 1).last() == all[i as int]);
        }
        match items.get(ids[i].as_str()) {
            Some(result) => {
                if kind_of_result(result) == kind {
                    n += 1;
                }
            },
            None => {},
        }
        i += 1;
    }
    assert(all.take(i as int) =~= all);
    n
}

/// A text, an equals sign and a number.
pub open spec fn counted_word(texts: Texts, key: Seq<char>, n: int) -> Seq<char> {
    text_under(texts, key) + "="@ + decimal(n)
}

pub fn counted_text(catalog: &Catalog, key: &str, n: usize) -> (r: String)
    ensures
        r@ == counted_word(catalog.texts(), key@, n as int),
{
    catalog.text(key).to_owned().concat("=").concat(decimal_text(n as u64).as_str())
}

/// The counts of an operation.
pub open spec fn counts_line(texts: Texts, items: Map<Seq<char>, ItemResultView>) -> Seq<char> {
    text_under(
        texts,
        if all_settled(items) {
            "completed"@
        } else {
            "partial"@
        },
    ) + " · "@ + counted_word(
        texts,
        "success"@,
        with_result(items, ResultKind::Success).len() as int,
    ) + " · "@ + counted_word(
        texts,
        "skipped"@,
        with_result(items, ResultKind::Skipped).len() as int,
    ) + " · "@ + counted_word(
        texts,
        "failed"@,
        with_result(items, ResultKind::Failed).len() as int,
    ) + " · "@ + counted_word(
        texts,
        "interrupted"@,
        with_result(items, ResultKind::Interrupted).len() as int,
    )
}

/// Which operation it was.
pub open spec fn batch_line(texts: Texts, batch_id: Seq<char>, action: Action) -> Seq<char> {
    text_under(texts, "batch"@) + ": "@ + batch_id + " · "@ + text_under(texts, "action"@) + ": "@
        + action_word(texts, action)
}

/// What became of one session.
pub open spec fn item_word(texts: Texts, result: ItemResultView) -> Seq<char> {
    match result {
        ItemResultView::Success => text_under(texts, "success"@),
        ItemResultView::Skipped => text_under(texts, "skipped"@),
        ItemResultView::Interrupted => text_under(texts, "interrupted"@),
        ItemResultView::Failed(message) => text_under(texts, "failed"@) + ": "@ + message,
    }
}

/// The lines of the sessions.
pub open spec fn item_lines(texts: Texts, items: Map<Seq<char>, ItemResultView>) -> Seq<Seq<char>> {
    ordered_texts(items.dom()).map_values(
        |id: Seq<char>| id + ": "@ + item_word(texts, items[id]),
    )
}

/// The lines of the warnings.
pub open spec fn warning_lines(texts: Texts, warnings: Seq<Seq<char>>) -> Seq<Seq<char>> {
    warnings.map_values(|warning: Seq<char>| text_under(texts, "warning"@) + ": "@ + warning)
}

/// What is said of an operation: the counts, which one it was, each session and
/// each warning.
pub open spec fn result_lines(texts: Texts, result: OperationResultView) -> Seq<Seq<char>> {
    seq![
        counts_line(texts, result.items),
        batch_line(texts, result.batch_id, result.action),
    ] + item_lines(texts, result.items) + warning_lines(texts, result.warnings)
}

fn item_text(catalog: &Catalog, result: &ItemResult) -> (r: String)
    ensures
        r@ == item_word(catalog.texts(), result.deep_view()),
{
    match result {
        ItemResult::Success => catalog.text("success").to_owned(),
        ItemResult::Skipped => catalog.text("skipped").to_owned(),
        ItemResult::Interrupted => catalog.text("interrupted").to_owned(),
        ItemResult::Failed(message) => catalog.text("failed").to_owned().concat(": ").concat(
            message.as_str(),
        ),
    }
}

/// What is said of an operation.
pub fn operation_lines(catalog: &Catalog, result: &OperationResult) -> (r: Vec<String>)
    ensures
        r.deep_view() == result_lines(catalog.texts(), result.deep_view()),
{
    let ghost texts = catalog.texts();
    let ghost items = result.items@;
    let ghost want = result_lines(texts, result.deep_view());
    let mut r: Vec<String> = Vec::new();
    let counts = catalog.text(
        if result.is_complete_success() {
            "completed"
        } else {
            "partial"
        },
    ).to_owned().concat(" · ").concat(
        counted_text(
            catalog,
            "success",
            count_results(&result.items, ResultKind::Success),
        ).as_str(),
    ).concat(" · ").concat(
        counted_text(
            catalog,
            "skipped",
            count_results(&result.items, ResultKind::Skipped),
        ).as_str(),
    ).concat(" · ").concat(
        counted_text(
            catalog,
            "failed",
            count_results(&result.items, ResultKind::Failed),
        ).as_str(),
    ).concat(" · ").concat(
        counted_text(
            catalog,
            "interrupted",
            count_results(&result.items, ResultKind::Interrupted),
        ).as_str(),
    );
    let batch = catalog.text("batch").to_owned().concat(": ").concat(
        result.batch_id.as_str(),
    ).concat(" · ").concat(catalog.text("action")).concat(": ").concat(
        action_text(catalog, result.action),
    );
    proof {
        assert(counts@ == counts_line(texts, items));
        assert(batch@ == batch_line(texts, result.batch_id@, result.action));
    }
    r.push(counts);
    r.push(batch);
    let ids = result.items.keys();
    let ghost all = ids.deep_view();
    let mut i: usize = 0;
    assert(r.deep_view() =~= want.take(2));
    while i < ids.len()
        invariant
            i <= ids@.len(),
            texts == catalog.texts(),
            items == result.items@,
            all == ids.deep_view(),
            all == ordered_texts(items.dom()),
            all.to_set() == items.dom(),
            want == result_lines(texts, result.deep_view()),
            r.deep_view() == want.take(i as int + 2),
        decreases ids.len() - i,
    {
        let ghost before = r.deep_view();
        proof {
            assert(all[i as int] == ids@[i as int]@);
            assert(all.to_set().contains(all[i as int]));
        }
        match result.items.get(ids[i].as_str()) {
            Some(value) => {
                let line = ids[i].clone().concat(": ").concat(item_text(catalog, value).as_str());
                r.push(line);
                proof {
                    assert(line@ == item_lines(texts, items)[i as int]);
                    assert(want[i as int + 2] == line@);
                    assert(r.deep_view() =~= before.push(line@));
                    assert(r.deep_view() =~= want.take(i as int + 3));
                }
            },
            None => {},
        }
        i += 1;
    }
    let mut k: usize = 0;
    while k < result.warnings.len()
        invariant
            k <= result.warnings@.len(),
            texts == catalog.texts(),
            items == result.items@,
            all == ordered_texts(items.dom()),
            want == result_lines(texts, result.deep_view()),
            r.deep_view() == want.take(all.len() + 2 + k),
        decreases result.warnings.len() - k,
    {
        let ghost before = r.deep_view();
        let line = catalog.text("warning").to_owned().concat(": ").concat(
            result.warnings[k].as_str(),
        );
        r.push(line);
        proof {
            assert(result.warnings.deep_view()[k as int] == result.warnings@[k as int]@);
            assert(line@ == warning_lines(texts, result.warnings.deep_view())[k as int]);
            assert(want[all.len() + 2 + k] == line@);
            assert(r.deep_view() =~= before.push(line@));
            assert(r.deep_view() =~= want.take(all.len() + 3 + k));
        }
        k += 1;
    }
    assert(want.take(all.len() + 2 + k) =~= want);
    r
}

} // verus!
