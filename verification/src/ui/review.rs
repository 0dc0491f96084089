//! The pages of the previews, the leftovers, the results and the history.

use crate::domain::{
    Action, HistoryEntryView, MaintenanceCandidate, MaintenanceCandidateView, MaintenanceKind,
    MaintenancePlan, MaintenancePlanView, OperationPreview, OperationPreviewView, SessionTree,
    SessionTreeView,
};
use crate::i18n::text_under;
use crate::service::{candidate_bytes, maintenance_plan, selected_candidates};
use crate::text::{decimal, decimal_text, push_decimal, same, signed_decimal, signed_decimal_text};
use crate::ui::measure::{
    clamp_index, clamped, fit_to_width, fitted, human_bytes, id_start, less_by, short_id,
    shown_bytes, smaller, window_at, window_start,
};
use crate::ui::page::{add_gap, add_line, add_piece, add_pieces, gap, line, plain, Piece, PieceView, Tone};
use crate::ui::state::{said, UiState, UiView};
use crate::ui::words::{
    action_text, action_word, counted_text, counted_word, cutoff_text, cutoff_word, kind_word,
    maintenance_kind_text, mark_of, reasons_text, reasons_words, selection_marker, view_text,
    view_word, Texts,
};
use vstd::prelude::*;
use vstd::string::*;

verus! {

broadcast use vstd::group_vstd_default;

/// The title of the last tree with a root that has sessions.
pub open spec fn title_under(trees: Seq<SessionTreeView>, root: Seq<char>) -> Seq<char>
    decreases trees.len(),
{
    if trees.len() == 0 {
        "-"@
    } else if trees.last().root_id == root && trees.last().nodes.len() > 0 {
        trees.last().nodes[0].title
    } else {
        title_under(trees.drop_last(), root)
    }
}

fn find_title(trees: &Vec<SessionTree>, root: &str) -> (r: String)
    ensures
        r@ == title_under(trees.deep_view(), root@),
{
    let ghost all = trees.deep_view();
    let mut i: usize = trees.len();
    assert(all.take(i as int) =~= all);
    while i > 0
        invariant
            i <= trees@.len(),
            all == trees.deep_view(),
            title_under(all, root@) == title_under(all.take(i as int), root@),
        decreases i,
    {
        let tree = &trees[i - 1];
        proof {
            assert(all.take(i as int).last() == tree.deep_view());
            assert(all.take(i as int).drop_last() =~= all.take(i as int - 1));
            assert(tree.nodes.deep_view().len() == tree.nodes@.len());
        }
        if tree.nodes.len() > 0 && same(tree.root_id.as_str(), root) {
            assert(tree.nodes.deep_view()[0] == tree.nodes@[0].deep_view());
            return tree.nodes[0].title.clone();
        }
        i -= 1;
    }
    "-".to_owned()
}

/// A line of the page of a preview: what is planned, what the filter is, a gap,
/// the trees that are planned and those that are not.
pub open spec fn preview_line(
    ui: UiView,
    trees: Seq<SessionTreeView>,
    preview: OperationPreviewView,
    local: Option<Seq<char>>,
    index: int,
) -> Seq<PieceView> {
    if index == 0 {
        line(
            action_word(ui.texts, preview.action) + " · "@ + counted_word(
                ui.texts,
                "trees"@,
                preview.trees.len() as int,
            ) + " · "@ + counted_word(ui.texts, "impacted"@, preview.impacted_count as int),
            Tone::Strong,
        )
    } else if index == 1 {
        plain(
            said(ui, "cutoff"@) + ": "@ + cutoff_word(ui.filter.cutoff, local) + " · "@ + said(
                ui,
                "view"@,
            ) + ": "@ + view_word(ui.texts, ui.filter.archived) + " · "@ + said(ui, "query"@)
                + ": "@ + match ui.filter.query {
                Some(query) => query,
                None => "*"@,
            },
        )
    } else if index == 2 {
        gap()
    } else if index < 3 + preview.trees.len() {
        let planned = preview.trees[index - 3];
        plain(
            "✓ "@ + fitted(title_under(trees, planned.root_id), 36) + " · "@ + id_start(
                planned.root_id,
            ) + " · "@ + decimal(planned.node_ids.len() as int) + said(ui, "nodes"@),
        )
    } else {
        let (root, reasons) = preview.blocked[index - 3 - preview.trees.len()];
        plain("✗ "@ + id_start(root) + ": "@ + reasons_words(ui.texts, reasons))
    }
}

/// The lines of the page of a preview that so many lines show.
pub open spec fn preview_lines(
    ui: UiView,
    trees: Seq<SessionTreeView>,
    preview: OperationPreviewView,
    local: Option<Seq<char>>,
    height: int,
) -> Seq<Seq<PieceView>> {
    let total = (3 + preview.trees.len() + preview.blocked.len()) as int;
    let offset = smaller(ui.preview_offset as int, less_by(total, height));
    let end = smaller(offset + height, total);
    Seq::new(
        (end - offset) as nat,
        |k: int| preview_line(ui, trees, preview, local, offset + k),
    )
}

fn make_preview_line(
    state: &UiState,
    trees: &Vec<SessionTree>,
    preview: &OperationPreview,
    local: &Option<String>,
    index: u128,
) -> (r: Vec<Piece>)
    requires
        index < 3 + preview.trees@.len() + preview.blocked@.len(),
    ensures
        r.deep_view() == preview_line(
            state.deep_view(),
            trees.deep_view(),
            preview.deep_view(),
            local.deep_view(),
            index as int,
        ),
{
    let catalog = &state.catalog;
    proof {
        assert(preview.trees.deep_view().len() == preview.trees@.len());
        assert(preview.blocked.deep_view().len() == preview.blocked@.len());
    }
    let mut r: Vec<Piece> = Vec::new();
    if index == 0 {
        add_piece(
            &mut r,
            action_text(catalog, preview.action).to_owned().concat(" · ").concat(
                counted_text(catalog, "trees", preview.trees.len()).as_str(),
            ).concat(" · ").concat(
                counted_text(catalog, "impacted", preview.impacted_count).as_str(),
            ),
            Tone::Strong,
        );
    } else if index == 1 {
        let query = match &state.filter.query {
            Some(query) => query.as_str(),
            None => "*",
        };
        add_piece(
            &mut r,
            catalog.text("cutoff").to_owned().concat(": ").concat(
                cutoff_text(state.filter.cutoff, local).as_str(),
            ).concat(" · ").concat(catalog.text("view")).concat(": ").concat(
                view_text(catalog, state.filter.archived),
            ).concat(" · ").concat(catalog.text("query")).concat(": ").concat(query),
            Tone::Plain,
        );
    } else if index == 2 {
        let empty = String::new();
        assert(empty@ =~= Seq::<char>::empty());
        add_piece(&mut r, empty, Tone::Plain);
    } else if index < 3 + preview.trees.len() as u128 {
        let at: usize = (index - 3) as usize;
        let planned = &preview.trees[at];
        proof {
            assert(preview.trees.deep_view()[at as int] == planned.deep_view());
            assert(planned.node_ids.deep_view().len() == planned.node_ids@.len());
        }
        add_piece(
            &mut r,
            "✓ ".to_owned().concat(
                fit_to_width(find_title(trees, planned.root_id.as_str()).as_str(), 36).as_str(),
            ).concat(" · ").concat(short_id(planned.root_id.as_str()).as_str()).concat(
                " · ",
            ).concat(decimal_text(planned.node_ids.len() as u64).as_str()).concat(
                catalog.text("nodes"),
            ),
            Tone::Plain,
        );
        assert(r.deep_view() =~= preview_line(
            state.deep_view(),
            trees.deep_view(),
            preview.deep_view(),
            local.deep_view(),
            index as int,
        ));
    } else {
        let rest: u128 = index - 3 - preview.trees.len() as u128;
        assert(rest < preview.blocked.len());
        let at: usize = rest as usize;
        let entry = &preview.blocked[at];
        proof {
            assert(preview.blocked.deep_view()[at as int] == entry.deep_view());
        }
        add_piece(
            &mut r,
            "✗ ".to_owned().concat(short_id(entry.0.as_str()).as_str()).concat(": ").concat(
                reasons_text(catalog, &entry.1).as_str(),
            ),
            Tone::Plain,
        );
    }
    assert(r.deep_view() =~= preview_line(
        state.deep_view(),
        trees.deep_view(),
        preview.deep_view(),
        local.deep_view(),
        index as int,
    ));
    r
}

/// The page of a preview. How the cutoff reads on the local clock is given.
pub fn preview_page(
    state: &UiState,
    trees: &Vec<SessionTree>,
    preview: &OperationPreview,
    local: &Option<String>,
    height: usize,
) -> (r: Vec<Vec<Piece>>)
    ensures
        r.deep_view() == preview_lines(
            state.deep_view(),
            trees.deep_view(),
            preview.deep_view(),
            local.deep_view(),
            height as int,
        ),
{
    let ghost ui = state.deep_view();
    let ghost want = preview_lines(
        ui,
        trees.deep_view(),
        preview.deep_view(),
        local.deep_view(),
        height as int,
    );
    proof {
        assert(preview.trees.deep_view().len() == preview.trees@.len());
        assert(preview.blocked.deep_view().len() == preview.blocked@.len());
    }
    let total: u128 = 3 + preview.trees.len() as u128 + preview.blocked.len() as u128;
    let last: u128 = if total >= height as u128 {
        total - height as u128
    } else {
        0
    };
    let offset: u128 = if state.preview_offset as u128 <= last {
        state.preview_offset as u128
    } else {
        last
    };
    let end: u128 = if offset + height as u128 <= total {
        offset + height as u128
    } else {
        total
    };
    let mut r: Vec<Vec<Piece>> = Vec::new();
    let mut i: u128 = offset;
    assert(r.deep_view() =~= want.take(0));
    while i < end
        invariant
            offset <= i <= end <= total,
            total == 3 + preview.trees@.len() + preview.blocked@.len(),
            preview.deep_view().trees.len() == preview.trees@.len(),
            preview.deep_view().blocked.len() == preview.blocked@.len(),
            ui == state.deep_view(),
            offset == smaller(ui.preview_offset as int, less_by(total as int, height as int)),
            end == smaller(offset + height, total as int),
            want == preview_lines(
                ui,
                trees.deep_view(),
                preview.deep_view(),
                local.deep_view(),
                height as int,
            ),
            r.deep_view() == want.take(i - offset),
        decreases end - i,
    {
        let pieces = make_preview_line(state, trees, preview, local, i);
        proof {
            assert(want[i - offset] == preview_line(
                ui,
                trees.deep_view(),
                preview.deep_view(),
                local.deep_view(),
                offset + (i - offset),
            ));
        }
        add_pieces(&mut r, pieces);
        assert(r.deep_view() =~= want.take(i - offset + 1));
        i += 1;
    }
    assert(want.take(end - offset) =~= want);
    r
}

/// What is asked below a preview: a deletion wants the number of its sessions.
pub open spec fn confirmation_line(ui: UiView, preview: OperationPreviewView) -> Seq<PieceView> {
    if preview.action == Action::Delete {
        seq![
            PieceView {
                text: said(ui, "delete_confirm_prefix"@) + " "@ + decimal(
                    preview.impacted_count as int,
                ) + ": "@,
                tone: Tone::Plain,
            },
            PieceView { text: ui.input + "_"@, tone: Tone::Title },
        ]
    } else {
        plain(said(ui, "confirm"@))
    }
}

pub open spec fn confirmation_head(ui: UiView, action: Action) -> Seq<char> {
    said(
        ui,
        if action == Action::Delete {
            "delete_confirmation_title"@
        } else {
            "confirmation_title"@
        },
    )
}

/// What is asked below a preview, and its title.
pub fn confirmation_page(state: &UiState, preview: &OperationPreview) -> (r: (
    String,
    Vec<Piece>,
))
    ensures
        r.0@ == confirmation_head(state.deep_view(), preview.action),
        r.1.deep_view() == confirmation_line(state.deep_view(), preview.deep_view()),
{
    let catalog = &state.catalog;
    let mut pieces: Vec<Piece> = Vec::new();
    let title = if preview.action == Action::Delete {
        add_piece(
            &mut pieces,
            catalog.text("delete_confirm_prefix").to_owned().concat(" ").concat(
                decimal_text(preview.impacted_count as u64).as_str(),
            ).concat(": "),
            Tone::Plain,
        );
        add_piece(&mut pieces, state.input.clone().concat("_"), Tone::Title);
        catalog.text("delete_confirmation_title").to_owned()
    } else {
        add_piece(&mut pieces, catalog.text("confirm").to_owned(), Tone::Plain);
        catalog.text("confirmation_title").to_owned()
    };
    assert(pieces.deep_view() =~= confirmation_line(state.deep_view(), preview.deep_view()));
    (title, pieces)
}

/// The candidates of a kind.
pub open spec fn of_kind(
    candidates: Seq<MaintenanceCandidateView>,
    kind: MaintenanceKind,
) -> Seq<MaintenanceCandidateView> {
    candidates.filter(|c: MaintenanceCandidateView| c.kind == kind)
}

fn count_kind(candidates: &Vec<MaintenanceCandidate>, kind: MaintenanceKind) -> (r: usize)
    ensures
        r == of_kind(candidates.deep_view(), kind).len(),
{
    let ghost all = candidates.deep_view();
    let ghost keep = |c: MaintenanceCandidateView| c.kind == kind;
    let mut n: usize = 0;
    let mut i: usize = 0;
    proof {
        reveal(Seq::filter);
        assert(all.take(0).filter(keep) =~= Seq::empty());
    }
    while i < candidates.len()
        invariant
            i <= candidates@.len(),
            n <= i,
            all == candidates.deep_view(),
            keep == (|c: MaintenanceCandidateView| c.kind == kind),
            n == all.take(i as int).filter(keep).len(),
        decreases candidates.len() - i,
    {
        proof {
            reveal(Seq::filter);
            assert(all.take(i as int + 1).drop_last() =~= all.take(i as int));
            assert(all.take(i as int + 1).last() == candidates@[i as int].deep_view());
        }
        if candidates[i].kind == kind {
            n += 1;
        }
        i += 1;
    }
    assert(all.take(i as int) =~= all);
    n
}

/// The head of the page of the leftovers.
pub open spec fn maintenance_head(ui: UiView, candidates: Seq<MaintenanceCandidateView>) -> Seq<
    Seq<PieceView>,
> {
    seq![
        line(said(ui, "maintenance_intro"@), Tone::Strong),
        plain(
            "1 "@ + counted_word(
                ui.texts,
                "maintenance_rollouts"@,
                of_kind(candidates, MaintenanceKind::UnreferencedRollout).len() as int,
            ) + "  2 "@ + counted_word(
                ui.texts,
                "maintenance_edges"@,
                of_kind(candidates, MaintenanceKind::StaleSpawnEdge).len() as int,
            ) + "  3 "@ + counted_word(
                ui.texts,
                "maintenance_threads"@,
                of_kind(candidates, MaintenanceKind::MissingRolloutThread).len() as int,
            ) + "  ·  "@ + counted_word(
                ui.texts,
                "selected"@,
                ui.maintenance_selected.len() as int,
            ) + " · "@ + shown_bytes(
                candidate_bytes(selected_candidates(candidates, ui.maintenance_selected)),
            ),
        ),
    ]
}

pub fn maintenance_head_page(state: &UiState, candidates: &Vec<MaintenanceCandidate>) -> (r: Vec<
    Vec<Piece>,
>)
    ensures
        r.deep_view() == maintenance_head(state.deep_view(), candidates.deep_view()),
{
    let catalog = &state.catalog;
    let plan = maintenance_plan(candidates, &state.maintenance_selected);
    let mut r: Vec<Vec<Piece>> = Vec::new();
    add_line(&mut r, catalog.text("maintenance_intro").to_owned(), Tone::Strong);
    add_line(
        &mut r,
        "1 ".to_owned().concat(
            counted_text(
                catalog,
                "maintenance_rollouts",
                count_kind(candidates, MaintenanceKind::UnreferencedRollout),
            ).as_str(),
        ).concat("  2 ").concat(
            counted_text(
                catalog,
                "maintenance_edges",
                count_kind(candidates, MaintenanceKind::StaleSpawnEdge),
            ).as_str(),
        ).concat("  3 ").concat(
            counted_text(
                catalog,
                "maintenance_threads",
                count_kind(candidates, MaintenanceKind::MissingRolloutThread),
            ).as_str(),
        ).concat("  ·  ").concat(
            counted_text(catalog, "selected", state.maintenance_selected.len()).as_str(),
        ).concat(" · ").concat(human_bytes(plan.total_bytes).as_str()),
        Tone::Plain,
    );
    assert(r.deep_view() =~= maintenance_head(state.deep_view(), candidates.deep_view()));
    r
}

/// The row of a piece of leftovers, cut to a width.
pub open spec fn leftover_row(
    ui: UiView,
    candidate: MaintenanceCandidateView,
    focused: bool,
    width: int,
) -> Seq<PieceView> {
    let project = match candidate.project {
        Some(project) => project,
        None => "-"@,
    };
    line(
        fitted(
            (if focused {
                "›"@
            } else {
                " "@
            }) + mark_of(ui.maintenance_selected, candidate.key) + " "@ + kind_word(
                ui.texts,
                candidate.kind,
            ) + " · "@ + shown_bytes(candidate.bytes as int) + " · "@ + fitted(project, 26)
                + " · "@ + candidate.label,
            width,
        ),
        if focused {
            Tone::Value
        } else {
            Tone::Plain
        },
    )
}

/// The rows of leftovers that so many lines show.
pub open spec fn leftover_rows(
    ui: UiView,
    candidates: Seq<MaintenanceCandidateView>,
    lines: int,
    width: int,
) -> Seq<Seq<PieceView>> {
    let count = candidates.len() as int;
    let index = clamped(ui.maintenance_index as int, count);
    let start = window_at(index, count, lines);
    let end = smaller(start + lines, count);
    Seq::new(
        (end - start) as nat,
        |k: int| leftover_row(ui, candidates[start + k], start + k == index, width),
    )
}

fn make_leftover_row(
    state: &UiState,
    candidate: &MaintenanceCandidate,
    focused: bool,
    width: usize,
) -> (r: Vec<Piece>)
    ensures
        r.deep_view() == leftover_row(
            state.deep_view(),
            candidate.deep_view(),
            focused,
            width as int,
        ),
{
    let project = match &candidate.project {
        Some(project) => project.as_str(),
        None => "-",
    };
    let row = (if focused {
        "›"
    } else {
        " "
    }).to_owned().concat(
        selection_marker(&state.maintenance_selected, candidate.key.as_str()),
    ).concat(" ").concat(maintenance_kind_text(&state.catalog, candidate.kind)).concat(
        " · ",
    ).concat(human_bytes(candidate.bytes).as_str()).concat(" · ").concat(
        fit_to_width(project, 26).as_str(),
    ).concat(" · ").concat(candidate.label.as_str());
    let mut r: Vec<Piece> = Vec::new();
    add_piece(
        &mut r,
        fit_to_width(row.as_str(), width),
        if focused {
            Tone::Value
        } else {
            Tone::Plain
        },
    );
    assert(r.deep_view() =~= leftover_row(
        state.deep_view(),
        candidate.deep_view(),
        focused,
        width as int,
    ));
    r
}

/// The rows of leftovers that so many lines show.
pub fn maintenance_rows(
    state: &UiState,
    candidates: &Vec<MaintenanceCandidate>,
    lines: usize,
    width: usize,
) -> (r: Vec<Vec<Piece>>)
    ensures
        r.deep_view() == leftover_rows(
            state.deep_view(),
            candidates.deep_view(),
            lines as int,
            width as int,
        ),
{
    let ghost ui = state.deep_view();
    let ghost all = candidates.deep_view();
    let ghost want = leftover_rows(ui, all, lines as int, width as int);
    assert(all.len() == candidates@.len());
    let index: usize = clamp_index(state.maintenance_index, candidates.len());
    let start: usize = window_start(index, candidates.len(), lines);
    let end: usize = if lines <= candidates.len() - start {
        start + lines
    } else {
        candidates.len()
    };
    let mut r: Vec<Vec<Piece>> = Vec::new();
    let mut i: usize = start;
    assert(r.deep_view() =~= want.take(0));
    while i < end
        invariant
            start <= i <= end <= candidates@.len(),
            ui == state.deep_view(),
            all == candidates.deep_view(),
            all.len() == candidates@.len(),
            index == clamped(ui.maintenance_index as int, all.len() as int),
            start == window_at(index as int, all.len() as int, lines as int),
            end == smaller(start + lines, all.len() as int),
            want == leftover_rows(ui, all, lines as int, width as int),
            r.deep_view() == want.take(i - start),
        decreases end - i,
    {
        let candidate = &candidates[i];
        assert(all[i as int] == candidate.deep_view());
        let row = make_leftover_row(state, candidate, i == index, width);
        proof {
            assert(want[i - start] == leftover_row(
                ui,
                all[start + (i - start)],
                start + (i - start) == index,
                width as int,
            ));
        }
        add_pieces(&mut r, row);
        assert(r.deep_view() =~= want.take(i - start + 1));
        i += 1;
    }
    assert(want.take(end - start) =~= want);
    r
}

/// A line of the plan of a cleanup.
pub open spec fn cleanup_line(texts: Texts, candidate: MaintenanceCandidateView) -> Seq<
    PieceView,
> {
    plain(
        "✓ "@ + kind_word(texts, candidate.kind) + " · "@ + shown_bytes(candidate.bytes as int)
            + " · "@ + candidate.label,
    )
}

/// The page of the plan of a cleanup. So many candidates are shown, and how many
/// more there are.
pub open spec fn cleanup_lines(ui: UiView, plan: MaintenancePlanView, height: int) -> Seq<
    Seq<PieceView>,
> {
    let shown = smaller(height, plan.candidates.len() as int);
    seq![
        line(
            counted_word(
                ui.texts,
                "maintenance_candidates"@,
                plan.candidates.len() as int,
            ) + " · "@ + said(ui, "maintenance_space"@) + "="@ + shown_bytes(
                plan.total_bytes as int,
            ) + " · "@ + said(ui, "maintenance_backup_notice"@),
            Tone::Notice,
        ),
        gap(),
    ] + plan.candidates.take(shown).map_values(
        |c: MaintenanceCandidateView| cleanup_line(ui.texts, c),
    ) + (if plan.candidates.len() > height {
        seq![plain("… +"@ + decimal(plan.candidates.len() - height))]
    } else {
        Seq::empty()
    }) + seq![gap(), line(said(ui, "maintenance_confirm"@), Tone::Title)]
}

/// The page of the plan of a cleanup.
pub fn cleanup_page(state: &UiState, plan: &MaintenancePlan, height: usize) -> (r: Vec<
    Vec<Piece>,
>)
    ensures
        r.deep_view() == cleanup_lines(state.deep_view(), plan.deep_view(), height as int),
{
    let catalog = &state.catalog;
    let ghost ui = state.deep_view();
    let ghost all = plan.candidates.deep_view();
    let ghost texts = ui.texts;
    let ghost render = |c: MaintenanceCandidateView| cleanup_line(texts, c);
    assert(all.len() == plan.candidates@.len());
    let shown: usize = if height <= plan.candidates.len() {
        height
    } else {
        plan.candidates.len()
    };
    let mut r: Vec<Vec<Piece>> = Vec::new();
    add_line(
        &mut r,
        counted_text(catalog, "maintenance_candidates", plan.candidates.len()).concat(
            " · ",
        ).concat(catalog.text("maintenance_space")).concat("=").concat(
            human_bytes(plan.total_bytes).as_str(),
        ).concat(" · ").concat(catalog.text("maintenance_backup_notice")),
        Tone::Notice,
    );
    add_gap(&mut r);
    let ghost head = r.deep_view();
    let mut i: usize = 0;
    assert(r.deep_view() =~= head + all.take(0).map_values(render));
    while i < shown
        invariant
            i <= shown <= plan.candidates@.len(),
            all == plan.candidates.deep_view(),
            texts == catalog.texts(),
            render == (|c: MaintenanceCandidateView| cleanup_line(texts, c)),
            r.deep_view() == head + all.take(i as int).map_values(render),
        decreases shown - i,
    {
        let candidate = &plan.candidates[i];
        let ghost before = r.deep_view();
        assert(all[i as int] == candidate.deep_view());
        add_line(
            &mut r,
            "✓ ".to_owned().concat(maintenance_kind_text(catalog, candidate.kind)).concat(
                " · ",
            ).concat(human_bytes(candidate.bytes).as_str()).concat(" · ").concat(
                candidate.label.as_str(),
            ),
            Tone::Plain,
        );
        assert(r.deep_view() =~= head + all.take(i as int + 1).map_values(render));
        i += 1;
    }
    if plan.candidates.len() > height {
        add_line(
            &mut r,
            "… +".to_owned().concat(
                decimal_text((plan.candidates.len() - height) as u64).as_str(),
            ),
            Tone::Plain,
        );
    }
    add_gap(&mut r);
    add_line(&mut r, catalog.text("maintenance_confirm").to_owned(), Tone::Title);
    assert(r.deep_view() =~= cleanup_lines(ui, plan.deep_view(), height as int));
    r
}

/// Where the lines of the results begin that are shown.
pub open spec fn result_start(ui: UiView, height: int) -> int {
    smaller(ui.result_offset as int, less_by(ui.result.len() as int, height))
}

/// The lines of the results that so many lines show.
pub open spec fn result_page_lines(ui: UiView, height: int) -> Seq<Seq<PieceView>> {
    let start = result_start(ui, height);
    ui.result.subrange(start, smaller(start + height, ui.result.len() as int)).map_values(
        |text: Seq<char>| plain(text),
    )
}

/// The title of the page of the results.
pub open spec fn result_head(ui: UiView, height: int) -> Seq<char> {
    said(ui, "step_result"@) + " · "@ + decimal(
        if ui.result.len() == 0 {
            0
        } else {
            result_start(ui, height) + 1
        },
    ) + "/"@ + decimal(ui.result.len() as int)
}

/// The page of the results, and its title.
pub fn result_page(state: &UiState, height: usize) -> (r: (String, Vec<Vec<Piece>>))
    ensures
        r.0@ == result_head(state.deep_view(), height as int),
        r.1.deep_view() == result_page_lines(state.deep_view(), height as int),
{
    let ghost ui = state.deep_view();
    let ghost all = ui.result;
    let ghost want = result_page_lines(ui, height as int);
    assert(all.len() == state.result@.len());
    let last: usize = if state.result.len() >= height {
        state.result.len() - height
    } else {
        0
    };
    let start: usize = if state.result_offset <= last {
        state.result_offset
    } else {
        last
    };
    let end: usize = if height <= state.result.len() - start {
        start + height
    } else {
        state.result.len()
    };
    let mut r: Vec<Vec<Piece>> = Vec::new();
    let mut i: usize = start;
    assert(r.deep_view() =~= want.take(0));
    while i < end
        invariant
            start <= i <= end <= state.result@.len(),
            ui == state.deep_view(),
            all == ui.result,
            all.len() == state.result@.len(),
            start == result_start(ui, height as int),
            end == smaller(start + height, all.len() as int),
            want == result_page_lines(ui, height as int),
            r.deep_view() == want.take(i - start),
        decreases end - i,
    {
        proof {
            assert(all[i as int] == state.result@[i as int]@);
            assert(want[i - start] == plain(all[start + (i - start)]));
        }
        add_line(&mut r, state.result[i].clone(), Tone::Plain);
        assert(r.deep_view() =~= want.take(i - start + 1));
        i += 1;
    }
    assert(want.take(end - start) =~= want);
    let first: u128 = if state.result.len() == 0 {
        0
    } else {
        start as u128 + 1
    };
    let mut title = state.catalog.text("step_result").to_owned().concat(" · ");
    push_decimal(&mut title, first);
    let title = title.concat("/").concat(decimal_text(state.result.len() as u64).as_str());
    (title, r)
}

/// A line of the history.
pub open spec fn history_line(texts: Texts, entry: HistoryEntryView) -> Seq<PieceView> {
    plain(
        entry.batch_id + " · "@ + signed_decimal(entry.created_at as int) + " · "@ + entry.action
            + " · "@ + decimal(entry.planned_count as int) + " "@ + text_under(texts, "nodes"@)
            + " · "@ + entry.status,
    )
}

/// The page of the history.
pub open spec fn history_lines(ui: UiView) -> Seq<Seq<PieceView>> {
    ui.history.map_values(|entry: HistoryEntryView| history_line(ui.texts, entry))
}

pub fn history_page(state: &UiState) -> (r: Vec<Vec<Piece>>)
    ensures
        r.deep_view() == history_lines(state.deep_view()),
{
    let catalog = &state.catalog;
    let ghost ui = state.deep_view();
    let ghost want = history_lines(ui);
    let mut r: Vec<Vec<Piece>> = Vec::new();
    let mut i: usize = 0;
    assert(r.deep_view() =~= want.take(0));
    while i < state.history.len()
        invariant
            i <= state.history@.len(),
            ui == state.deep_view(),
            ui.texts == catalog.texts(),
            want == history_lines(ui),
            r.deep_view() == want.take(i as int),
        decreases state.history.len() - i,
    {
        let entry = &state.history[i];
        proof {
            assert(ui.history[i as int] == entry.deep_view());
        }
        add_line(
            &mut r,
            entry.batch_id.clone().concat(" · ").concat(
                signed_decimal_text(entry.created_at).as_str(),
            ).concat(" · ").concat(entry.action.as_str()).concat(" · ").concat(
                decimal_text(entry.planned_count as u64).as_str(),
            ).concat(" ").concat(catalog.text("nodes")).concat(" · ").concat(
                entry.status.as_str(),
            ),
            Tone::Plain,
        );
        assert(r.deep_view() =~= want.take(i as int + 1));
        i += 1;
    }
    assert(want.take(i as int) =~= want);
    r
}

} // verus!
