//! What the pages show of trees, results and previews, in terms of what they
//! are about.

use crate::domain::{
    Action, ItemResultView, OperationPreviewView, OperationResultView, ProtectionReasonView,
    SessionNodeView, SessionTreeView,
};
use crate::filter::fully_archived;
use crate::i18n::text_under;
use crate::ordered::{lemma_filter_member, lemma_ordered_members, ordered_texts};
use crate::path::{lemma_split_last, split_by};
use crate::text::{
    decimal, has_text, joined, lemma_first_of, occurs_at, one, signed_decimal,
};
use crate::tree::total_size;
use crate::ui::measure::{clamped, fitted, id_start, law_window_shows_index, window_at};
use crate::ui::overview::{
    archived_trees, footer_lines, header_counts, protected_trees, scan_lines,
};
use crate::ui::page::{plain, PieceView};
use crate::ui::review::{
    history_lines, preview_line, preview_lines, result_page_lines, result_start, title_under,
};
use crate::ui::scope::{preview_of, scope_of, visible, FactsView, ScopeView};
use crate::ui::state::{said, UiView};
use crate::ui::table::{
    first_with_id, row_of, rows_of, scope_for, tab_label, without_end_slashes,
};
use crate::ui::words::{
    batch_line, blocked_words, item_lines, item_word, mark_of, reason_word, reasons_for, reasons_words,
    result_kind, result_lines, unfit_word, warning_lines, with_result, ResultKind, Texts,
};
use vstd::prelude::*;

verus! {

broadcast use vstd::group_vstd_default;

/// The results of an operation are counted under four headings: each item
/// counts under the one that its result is of, and under no other, so the four
/// numbers make up the number of items.
pub proof fn law_each_result_counts_once(items: Map<Seq<char>, ItemResultView>, id: Seq<char>)
    requires
        items.dom().finite(),
    ensures
        with_result(items, ResultKind::Success).contains(id) <==> items.contains_key(id)
            && items[id] is Success,
        with_result(items, ResultKind::Skipped).contains(id) <==> items.contains_key(id)
            && items[id] is Skipped,
        with_result(items, ResultKind::Failed).contains(id) <==> items.contains_key(id)
            && items[id] is Failed,
        with_result(items, ResultKind::Interrupted).contains(id) <==> items.contains_key(id)
            && items[id] is Interrupted,
        with_result(items, ResultKind::Success).len() + with_result(
            items,
            ResultKind::Skipped,
        ).len() + with_result(items, ResultKind::Failed).len() + with_result(
            items,
            ResultKind::Interrupted,
        ).len() == ordered_texts(items.dom()).len(),
{
    let order = ordered_texts(items.dom());
    lemma_ordered_members(items.dom());
    assert(order.to_set().contains(id) == order.contains(id));
    lemma_filter_member(order, |x: Seq<char>| result_kind(items[x]) == ResultKind::Success, id);
    lemma_filter_member(order, |x: Seq<char>| result_kind(items[x]) == ResultKind::Skipped, id);
    lemma_filter_member(order, |x: Seq<char>| result_kind(items[x]) == ResultKind::Failed, id);
    lemma_filter_member(
        order,
        |x: Seq<char>| result_kind(items[x]) == ResultKind::Interrupted,
        id,
    );
    lemma_four_parts(order, items);
}

proof fn lemma_four_parts(s: Seq<Seq<char>>, items: Map<Seq<char>, ItemResultView>)
    ensures
        s.filter(|x: Seq<char>| result_kind(items[x]) == ResultKind::Success).len() + s.filter(
            |x: Seq<char>| result_kind(items[x]) == ResultKind::Skipped,
        ).len() + s.filter(|x: Seq<char>| result_kind(items[x]) == ResultKind::Failed).len()
            + s.filter(|x: Seq<char>| result_kind(items[x]) == ResultKind::Interrupted).len()
            == s.len(),
    decreases s.len(),
{
    reveal(Seq::filter);
    if s.len() > 0 {
        lemma_four_parts(s.drop_last(), items);
    }
}

proof fn lemma_front(head: Seq<char>, tail: Seq<char>)
    ensures
        has_text(head + tail, head),
        has_text(head + tail, tail),
{
    let s = head + tail;
    assert(s.subrange(0, head.len() as int) =~= head);
    assert(occurs_at(s, head, 0));
    let at = head.len() as int;
    assert(s.subrange(at, at + tail.len()) =~= tail);
    assert(occurs_at(s, tail, at));
}

/// Each item of a result has one line, in the order of the ids, that tells its
/// id and, where it failed, why; each warning has one line that tells it.
pub proof fn law_a_result_tells_each_item(texts: Texts, result: OperationResultView, i: int)
    requires
        result.items.dom().finite(),
    ensures
        ({
            let ids = ordered_texts(result.items.dom());
            let lines = result_lines(texts, result);
            &&& lines.len() == 2 + ids.len() + result.warnings.len()
            &&& 0 <= i < ids.len() ==> {
                &&& has_text(lines[2 + i], ids[i])
                &&& result.items.contains_key(ids[i])
                &&& result.items[ids[i]] matches ItemResultView::Failed(message) ==> has_text(
                    lines[2 + i],
                    message,
                )
            }
            &&& 0 <= i < result.warnings.len() ==> has_text(
                lines[2 + ids.len() + i],
                result.warnings[i],
            )
            &&& has_text(lines[1], result.batch_id)
        }),
{
    let ids = ordered_texts(result.items.dom());
    let lines = result_lines(texts, result);
    let (items, warned) = (
        item_lines(texts, result.items),
        warning_lines(texts, result.warnings),
    );
    lemma_ordered_members(result.items.dom());
    lemma_batch_line(texts, result.batch_id, result.action);
    if 0 <= i < ids.len() {
        assert(ids.to_set().contains(ids[i]));
        assert(lines[2 + i] == items[i]);
        lemma_item_line(texts, ids[i], result.items[ids[i]]);
    }
    if 0 <= i < result.warnings.len() {
        assert(lines[2 + ids.len() + i] == warned[i]);
        lemma_front(text_under(texts, "warning"@) + ": "@, result.warnings[i]);
    }
}

proof fn lemma_item_line(texts: Texts, id: Seq<char>, result: ItemResultView)
    ensures
        has_text(id + ": "@ + item_word(texts, result), id),
        result matches ItemResultView::Failed(message) ==> has_text(
            id + ": "@ + item_word(texts, result),
            message,
        ),
{
    let word = item_word(texts, result);
    lemma_parts(id, ": "@, word);
    if let ItemResultView::Failed(message) = result {
        let head = text_under(texts, "failed"@) + ": "@;
        assert(word == head + message);
        lemma_ending(id + ": "@, head, message);
    }
}

proof fn lemma_parts(a: Seq<char>, b: Seq<char>, c: Seq<char>)
    ensures
        has_text(a + b + c, a),
{
    assert(a + b + c =~= a + (b + c));
    lemma_front(a, b + c);
}

proof fn lemma_ending(a: Seq<char>, b: Seq<char>, c: Seq<char>)
    ensures
        has_text(a + (b + c), c),
{
    assert(a + (b + c) =~= (a + b) + c);
    lemma_front(a + b, c);
}

proof fn lemma_batch_line(texts: Texts, batch_id: Seq<char>, action: Action)
    ensures
        has_text(batch_line(texts, batch_id, action), batch_id),
{
    let line = batch_line(texts, batch_id, action);
    let at = (text_under(texts, "batch"@) + ": "@).len() as int;
    assert(line.subrange(at, at + batch_id.len()) =~= batch_id);
    assert(occurs_at(line, batch_id, at));
}

/// What is selected is marked, and nothing else is.
pub proof fn law_what_is_selected_is_marked(selected: Set<Seq<char>>, root: Seq<char>)
    ensures
        mark_of(selected, root) == "[x]"@ <==> selected.contains(root),
        mark_of(selected, root) == "[ ]"@ <==> !selected.contains(root),
{
    reveal_strlit("[x]");
    reveal_strlit("[ ]");
    assert("[x]"@[1] == 'x' && "[ ]"@[1] == ' ');
}

proof fn lemma_joined_holds(parts: Seq<Seq<char>>, sep: Seq<char>, i: int)
    requires
        0 <= i < parts.len(),
    ensures
        has_text(joined(parts, sep), parts[i]),
    decreases parts.len(),
{
    if parts.len() == 1 {
        assert(parts[0].subrange(0, parts[0].len() as int) =~= parts[0]);
        assert(occurs_at(joined(parts, sep), parts[0], 0));
    } else {
        let head = parts.drop_last();
        let rest = joined(head, sep);
        let whole = joined(parts, sep);
        if i == parts.len() - 1 {
            assert(whole =~= (rest + sep) + parts.last());
            lemma_front(rest + sep, parts.last());
        } else {
            lemma_joined_holds(head, sep, i);
            let at = choose|at: int| #[trigger] occurs_at(rest, head[i], at);
            assert(whole.subrange(at, at + parts[i].len()) =~= rest.subrange(
                at,
                at + parts[i].len(),
            ));
            assert(occurs_at(whole, parts[i], at));
        }
    }
}

/// Why a tree cannot be chosen is told in full: each reason against it with
/// its words, and, where nothing speaks against it, that the action is not for
/// it.
pub proof fn law_every_reason_is_told(
    texts: Texts,
    tree: SessionTreeView,
    action: Action,
    scope: ScopeView,
    i: int,
)
    ensures
        ({
            let reasons = if scope.blocked.contains_key(tree.root_id) {
                scope.blocked[tree.root_id]
            } else {
                tree.protection
            };
            &&& 0 <= i < reasons.len() ==> has_text(
                blocked_words(texts, tree, action, scope),
                reason_word(texts, reasons[i]),
            )
            &&& reasons.len() == 0 ==> blocked_words(texts, tree, action, scope) == unfit_word(
                texts,
                action,
            )
        }),
{
    let reasons = reasons_for(tree, scope);
    if 0 <= i < reasons.len() {
        let words = reasons.map_values(|reason: ProtectionReasonView| reason_word(texts, reason));
        lemma_joined_holds(words, ", "@, i);
        assert(words[i] == reason_word(texts, reasons[i]));
    }
}

/// A status that is not safe is told with its name.
pub proof fn law_an_unsafe_status_is_named(texts: Texts, value: Seq<char>)
    ensures
        has_text(reason_word(texts, ProtectionReasonView::UnsafeStatus(value)), value),
{
    lemma_front(text_under(texts, "reason_unsafe_status"@) + ": "@, value);
}

proof fn lemma_first_node(nodes: Seq<SessionNodeView>, id: Seq<char>, i: int)
    requires
        0 <= i <= nodes.len(),
        i < nodes.len() ==> nodes[i].id == id,
        forall|k: int| 0 <= k < i ==> (#[trigger] nodes[k]).id != id,
    ensures
        first_with_id(nodes, id) == if i < nodes.len() {
            Some(nodes[i])
        } else {
            None
        },
    decreases nodes.len(),
{
    if nodes.len() > 0 && i > 0 {
        let rest = nodes.drop_first();
        assert(nodes[0].id != id);
        assert forall|k: int| 0 <= k < i - 1 implies (#[trigger] rest[k]).id != id by {
            assert(nodes[k + 1].id != id);
        }
        lemma_first_node(rest, id, i - 1);
    }
}

/// A row shows the title and the place of the session at the root of its tree,
/// how many sessions the tree has and how much they take, whether all of them
/// are archived, whether the tree is selected and whether it can be chosen.
pub proof fn law_a_row_shows_its_tree(
    ui: UiView,
    tree: SessionTreeView,
    scope: Option<ScopeView>,
    focused: bool,
    i: int,
)
    requires
        0 <= i < tree.nodes.len(),
        tree.nodes[i].id == tree.root_id,
        forall|k: int| 0 <= k < i ==> (#[trigger] tree.nodes[k]).id != tree.root_id,
    ensures
        ({
            let (row, root) = (row_of(ui, tree, scope, focused), tree.nodes[i]);
            let live = exists|k: int|
                0 <= k < tree.nodes.len() && !(#[trigger] tree.nodes[k]).archived;
            &&& row.title == root.title
            &&& row.location == if root.project is Some {
                root.project->0
            } else {
                root.cwd
            }
            &&& row.nodes == decimal(tree.nodes.len() as int)
            &&& row.last_activity == tree.last_activity
            &&& row.focused == focused
            &&& live ==> row.status == text_under(ui.texts, "active"@)
            &&& !live ==> row.status == text_under(ui.texts, "archived"@)
            &&& row.eligible <==> scope is Some && scope->0.eligible.contains(tree.root_id)
            &&& has_text(row.mark, mark_of(ui.selected, tree.root_id))
            &&& row.id == id_start(tree.root_id)
            &&& total_size(tree.nodes) is None ==> row.storage == "?"@
        }),
{
    lemma_first_node(tree.nodes, tree.root_id, i);
    assert(fully_archived(tree.nodes) == !exists|k: int|
        0 <= k < tree.nodes.len() && !(#[trigger] tree.nodes[k]).archived);
    let mark = if focused {
        "›"@
    } else {
        " "@
    };
    lemma_front(mark, mark_of(ui.selected, tree.root_id));
}

/// The rows on a page are of trees that follow each other in what the filter
/// shows, as many as there are lines for; the tree at the cursor is among them
/// and is the only one in focus.
pub proof fn law_rows_show_the_cursor(ui: UiView, facts: FactsView, lines: int)
    requires
        lines > 0,
        visible(facts, ui.filter).len() > 0,
    ensures
        ({
            let (rows, trees) = (rows_of(ui, facts, lines), visible(facts, ui.filter));
            let index = if ui.index < trees.len() {
                ui.index as int
            } else {
                trees.len() - 1
            };
            let count = trees.len() as int;
            &&& rows.len() == if lines < count {
                lines
            } else {
                count
            }
            &&& exists|start: int|
                {
                    &&& 0 <= start <= index < start + rows.len()
                    &&& forall|k: int|
                        0 <= k < rows.len() ==> #[trigger] rows[k] == row_of(
                            ui,
                            trees[start + k],
                            scope_for(ui, facts),
                            start + k == index,
                        )
                    &&& #[trigger] begins_at(start)
                }
        }),
{
    let trees = visible(facts, ui.filter);
    let index = clamped(ui.index as int, trees.len() as int);
    law_window_shows_index(index, trees.len() as int, lines);
    let start = window_at(index, trees.len() as int, lines);
    assert(begins_at(start));
}

/// A place at which rows begin.
pub open spec fn begins_at(start: int) -> bool {
    start >= 0
}

/// A preview lists every tree that is planned, with the number of its ids, and
/// every one that is blocked, with the reasons; on a page that is high enough
/// every line is shown, and on a lower one as many as it is high.
pub proof fn law_a_preview_lists_every_tree(
    ui: UiView,
    trees: Seq<SessionTreeView>,
    preview: OperationPreviewView,
    local: Option<Seq<char>>,
    height: int,
    i: int,
)
    requires
        height >= 0,
    ensures
        ({
            let total = 3 + preview.trees.len() + preview.blocked.len();
            let lines = preview_lines(ui, trees, preview, local, height);
            &&& height >= total ==> lines.len() == total && forall|k: int|
                0 <= k < total ==> #[trigger] lines[k] == preview_line(
                    ui,
                    trees,
                    preview,
                    local,
                    k,
                )
            &&& height < total ==> lines.len() == height
            &&& 0 <= i < preview.trees.len() ==> {
                let text = preview_line(ui, trees, preview, local, 3 + i)[0].text;
                &&& has_text(text, id_start(preview.trees[i].root_id))
                &&& has_text(text, decimal(preview.trees[i].node_ids.len() as int))
            }
            &&& 0 <= i < preview.blocked.len() ==> {
                let text = preview_line(
                    ui,
                    trees,
                    preview,
                    local,
                    3 + preview.trees.len() + i,
                )[0].text;
                &&& has_text(text, id_start(preview.blocked[i].0))
                &&& has_text(text, reasons_words(ui.texts, preview.blocked[i].1))
            }
        }),
{
    if 0 <= i < preview.trees.len() {
        let planned = preview.trees[i];
        let text = preview_line(ui, trees, preview, local, 3 + i)[0].text;
        let title = fitted(
            title_under(trees, planned.root_id),
            36,
        );
        let head = "✓ "@ + title + " · "@;
        let id = id_start(planned.root_id);
        let n = decimal(planned.node_ids.len() as int);
        let at = head.len() as int;
        assert(text.subrange(at, at + id.len()) =~= id);
        assert(occurs_at(text, id, at));
        let next = (head + id + " · "@).len() as int;
        assert(text.subrange(next, next + n.len()) =~= n);
        assert(occurs_at(text, n, next));
    }
    if 0 <= i < preview.blocked.len() {
        let text = preview_line(ui, trees, preview, local, 3 + preview.trees.len() + i)[0].text;
        let (root, reasons) = preview.blocked[i];
        let id = id_start(root);
        let words = reasons_words(ui.texts, reasons);
        let at = "✗ "@.len() as int;
        assert(text.subrange(at, at + id.len()) =~= id);
        assert(occurs_at(text, id, at));
        assert(text =~= ("✗ "@ + id + ": "@) + words);
        lemma_front("✗ "@ + id + ": "@, words);
    }
}

/// A page of results shows as many lines as it is high, or all of them, that
/// follow each other in the result, and no page begins behind the last full
/// one.
pub proof fn law_a_page_of_results(ui: UiView, height: int, k: int)
    requires
        height >= 0,
    ensures
        ({
            let (lines, start) = (result_page_lines(ui, height), result_start(ui, height));
            let all = ui.result.len() as int;
            &&& lines.len() == if height < all {
                height
            } else {
                all
            }
            &&& 0 <= start && start + lines.len() <= all
            &&& 0 <= k < lines.len() ==> lines[k].len() == 1 && lines[k][0].text
                == ui.result[start + k]
            &&& ui.result_offset + height <= all ==> start == ui.result_offset
        }),
{
}

/// The counts above the pages: what can be chosen and what cannot are together
/// what the filter shows, as far as no root is shown twice; and what would
/// change is counted over what is selected.
pub proof fn law_counts_make_up_what_is_shown(ui: UiView, facts: FactsView)
    ensures
        ({
            let (eligible, blocked, impacted) = header_counts(ui, facts);
            &&& ui.action is None ==> eligible == 0 && blocked == 0 && impacted == 0
            &&& ui.action matches Some(action) ==> {
                let scope = scope_of(facts, ui.filter, action);
                &&& eligible == scope.eligible.len()
                &&& scope.eligible.len() <= visible(facts, ui.filter).len() ==> eligible + blocked
                    == visible(facts, ui.filter).len()
                &&& impacted == preview_of(facts, ui.selected, action).impacted_count
            }
        }),
{
}

/// The page of the scan tells every diagnostic, in its order, at its end; the
/// foot of every page tells the message, where there is one, and the first
/// diagnostic, where there is one.
pub proof fn law_diagnostics_are_told(
    ui: UiView,
    facts: FactsView,
    target: Option<Seq<char>>,
    diagnostics: Seq<Seq<char>>,
    i: int,
)
    requires
        0 <= i < diagnostics.len(),
    ensures
        ({
            let lines = scan_lines(ui, facts, target, diagnostics);
            let at = lines.len() - diagnostics.len() + i;
            lines.len() >= diagnostics.len() && lines[at].len() == 1 && has_text(
                lines[at][0].text,
                diagnostics[i],
            )
        }),
        ({
            let foot = footer_lines(ui, diagnostics);
            &&& ui.message.len() > 0 ==> foot[0][0].text == ui.message
            &&& has_text(foot[foot.len() - 2][0].text, diagnostics[0])
        }),
{
    lemma_front("• "@, diagnostics[i]);
    lemma_front("⚠ "@ + said(ui, "readonly_banner"@) + " "@, diagnostics[0]);
    let lines = scan_lines(ui, facts, target, diagnostics);
    let told = diagnostics.map_values(
        |diagnostic: Seq<char>| plain("• "@ + diagnostic),
    );
    let at = lines.len() - diagnostics.len() + i;
    assert(lines[at] == told[i]);
}

/// The page of the scan counts as protected the trees that something protects,
/// and as archived those of which every session is archived.
pub proof fn law_what_the_scan_counts(trees: Seq<SessionTreeView>, tree: SessionTreeView)
    ensures
        protected_trees(trees).contains(tree) <==> trees.contains(tree) && tree.protection.len()
            > 0,
        archived_trees(trees).contains(tree) <==> trees.contains(tree) && forall|i: int|
            0 <= i < tree.nodes.len() ==> (#[trigger] tree.nodes[i]).archived,
{
    lemma_filter_member(trees, |t: SessionTreeView| t.protection.len() > 0, tree);
    lemma_filter_member(trees, |t: SessionTreeView| fully_archived(t.nodes), tree);
}

/// A tab of a project that is a path is labelled with the last name of the
/// path, and one without a separator with all of it.
pub proof fn law_a_tab_is_labelled_with_a_name(texts: Texts, base: Seq<char>, name: Seq<char>)
    requires
        name.len() > 0,
        !name.contains('/'),
    ensures
        tab_label(texts, Some(base + one('/') + name)) == name,
        tab_label(texts, Some(name)) == name,
        tab_label(texts, None) == text_under(texts, "all"@),
{
    let whole = base + one('/') + name;
    assert(name.contains(name.last()));
    assert(whole.last() == name.last());
    assert(without_end_slashes(whole) == whole);
    assert(without_end_slashes(name) == name);
    lemma_split_last(base, '/', name);
    assert(split_by(whole, '/').last() == name);
    assert forall|k: int| 0 <= k < name.len() implies name[k] != '/' by {
        assert(name.contains(name[k]));
    }
    lemma_first_of(name, '/', name.len() as int);
    assert(split_by(name, '/') == seq![name]);
}

/// The history has one line for each recorded operation, in the order in which
/// they are given, and each shows the batch, its time, its action, how many
/// sessions it was for and what became of it.
pub proof fn law_the_history_tells_each_operation(ui: UiView, i: int)
    requires
        0 <= i < ui.history.len(),
    ensures
        history_lines(ui).len() == ui.history.len(),
        exists|piece: PieceView|
            {
                let entry = ui.history[i];
                &&& history_lines(ui)[i].contains(piece)
                &&& occurs_at(#[trigger] piece.text, entry.batch_id, 0)
                &&& has_text(piece.text, signed_decimal(entry.created_at as int))
                &&& has_text(piece.text, entry.action)
                &&& has_text(piece.text, decimal(entry.planned_count as int))
                &&& has_text(piece.text, entry.status)
            },
{
    let entry = ui.history[i];
    let dot = " · "@;
    let nodes = text_under(ui.texts, "nodes"@);
    let (at, count) = (signed_decimal(entry.created_at as int), decimal(entry.planned_count as int));
    let text = entry.batch_id + dot + at + dot + entry.action + dot + count + " "@ + nodes + dot
        + entry.status;
    let piece = history_lines(ui)[i][0];
    assert(piece.text == text);
    assert(history_lines(ui)[i].contains(piece));
    let a = entry.batch_id.len() as int;
    assert(text.subrange(0, a) =~= entry.batch_id);
    let b = a + dot.len();
    assert(text.subrange(b, b + at.len()) =~= at);
    assert(occurs_at(text, at, b));
    let c = b + at.len() + dot.len();
    assert(text.subrange(c, c + entry.action.len()) =~= entry.action);
    assert(occurs_at(text, entry.action, c));
    let d = c + entry.action.len() + dot.len();
    assert(text.subrange(d, d + count.len()) =~= count);
    assert(occurs_at(text, count, d));
    let e = d + count.len() + " "@.len() + nodes.len() + dot.len();
    assert(text.subrange(e, e + entry.status.len()) =~= entry.status);
    assert(occurs_at(text, entry.status, e));
}

} // verus!
