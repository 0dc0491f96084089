//! The header and the footer, and the pages of the scan, the filter, the help
//! and the progress.

use crate::domain::{Action, Cutoff, MaintenanceCandidate, SessionTree, SessionTreeView};
use crate::filter::fully_archived;
use crate::i18n::{text_under, Catalog};
use crate::service::candidate_bytes;
use crate::text::{chars_of, decimal, decimal_text};
use crate::ui::measure::{
    human_bytes, less_by, shown_bytes, smaller, MIN_TERMINAL_HEIGHT, MIN_TERMINAL_WIDTH,
};
use crate::ui::page::{add_gap, add_line, add_piece, add_pieces, gap, line, plain, Piece, PieceView, Tone};
use crate::ui::scope::{preview_of, scope_of, scope_summary, visible, Facts, FactsView};
use crate::ui::state::{said, Screen, UiState, UiView};
use crate::ui::words::{
    action_text, action_word, counted_text, counted_word, cutoff_text, cutoff_word, Texts,
};
use vstd::prelude::*;
use vstd::string::*;

verus! {

broadcast use vstd::group_vstd_default;

/// The step that a page belongs to; the pages of the history and the help stand
/// where they were opened.
pub open spec fn step_of(screen: Screen, return_screen: Screen) -> int {
    match screen {
        Screen::History => own_step(return_screen),
        Screen::Help => own_step(return_screen),
        _ => own_step(screen),
    }
}

/// The step of a page itself.
pub open spec fn own_step(screen: Screen) -> int {
    match screen {
        Screen::Scan => 0,
        Screen::Filter => 1,
        Screen::Search => 1,
        Screen::CustomCutoff => 1,
        Screen::Maintenance => 1,
        Screen::Select => 2,
        Screen::Preview => 3,
        Screen::MaintenancePreview => 3,
        Screen::Result => 4,
        Screen::History => 0,
        Screen::Help => 0,
    }
}

fn step_itself(screen: Screen) -> (r: usize)
    ensures
        r == own_step(screen),
{
    match screen {
        Screen::Scan => 0,
        Screen::Filter => 1,
        Screen::Search => 1,
        Screen::CustomCutoff => 1,
        Screen::Maintenance => 1,
        Screen::Select => 2,
        Screen::Preview => 3,
        Screen::MaintenancePreview => 3,
        Screen::Result => 4,
        Screen::History => 0,
        Screen::Help => 0,
    }
}

/// The step that a page belongs to.
pub fn screen_step(screen: Screen, return_screen: Screen) -> (r: usize)
    ensures
        r == step_of(screen, return_screen),
{
    match screen {
        Screen::History => step_itself(return_screen),
        Screen::Help => step_itself(return_screen),
        _ => step_itself(screen),
    }
}

/// The key under which the keys of a page are explained.
pub open spec fn help_key(screen: Screen) -> Seq<char> {
    match screen {
        Screen::Scan => "keys_scan"@,
        Screen::Filter => "keys_filter"@,
        Screen::Select => "keys_select"@,
        Screen::Preview => "keys_preview"@,
        Screen::Maintenance => "keys_maintenance"@,
        Screen::MaintenancePreview => "keys_maintenance_preview"@,
        Screen::Result => "keys_result"@,
        Screen::History => "keys_history"@,
        Screen::Help => "keys_help"@,
        Screen::Search => "keys_input"@,
        Screen::CustomCutoff => "keys_input"@,
    }
}

pub fn screen_help_key(screen: Screen) -> (r: &'static str)
    ensures
        r@ == help_key(screen),
{
    match screen {
        Screen::Scan => "keys_scan",
        Screen::Filter => "keys_filter",
        Screen::Select => "keys_select",
        Screen::Preview => "keys_preview",
        Screen::Maintenance => "keys_maintenance",
        Screen::MaintenancePreview => "keys_maintenance_preview",
        Screen::Result => "keys_result",
        Screen::History => "keys_history",
        Screen::Help => "keys_help",
        Screen::Search => "keys_input",
        Screen::CustomCutoff => "keys_input",
    }
}

/// How a step stands out.
pub open spec fn step_tone(index: int, step: int) -> Tone {
    if index == step {
        Tone::Current
    } else if index < step {
        Tone::Done
    } else {
        Tone::Faint
    }
}

/// A step, with its number.
pub open spec fn step_piece(texts: Texts, index: int, key: Seq<char>, step: int) -> PieceView {
    PieceView {
        text: decimal(index + 1) + " "@ + text_under(texts, key),
        tone: step_tone(index, step),
    }
}

pub open spec fn between_steps() -> PieceView {
    PieceView { text: "  ›  "@, tone: Tone::Plain }
}

/// The line of the steps.
pub open spec fn steps_line(texts: Texts, step: int) -> Seq<PieceView> {
    seq![
        PieceView { text: text_under(texts, "title"@) + "  "@, tone: Tone::Title },
        step_piece(texts, 0, "step_scan"@, step),
        between_steps(),
        step_piece(texts, 1, "step_filter"@, step),
        between_steps(),
        step_piece(texts, 2, "step_select"@, step),
        between_steps(),
        step_piece(texts, 3, "step_preview"@, step),
        between_steps(),
        step_piece(texts, 4, "step_result"@, step),
    ]
}

/// How many trees can be chosen, how many cannot, and how many sessions the
/// selection holds.
pub open spec fn header_counts(ui: UiView, facts: FactsView) -> (int, int, int) {
    match ui.action {
        None => (0, 0, 0),
        Some(action) => {
            let scope = scope_of(facts, ui.filter, action);
            (
                scope.eligible.len() as int,
                less_by(scope.matched as int, scope.eligible.len() as int),
                preview_of(facts, ui.selected, action).impacted_count as int,
            )
        },
    }
}

/// The name of the chosen action.
pub open spec fn chosen_word(ui: UiView) -> Seq<char> {
    match ui.action {
        Some(action) => action_word(ui.texts, action),
        None => said(ui, "not_chosen"@),
    }
}

/// The header.
pub open spec fn header_lines(ui: UiView, facts: FactsView) -> Seq<Seq<PieceView>> {
    let (eligible, blocked, impacted) = header_counts(ui, facts);
    seq![
        steps_line(ui.texts, step_of(ui.screen, ui.return_screen)),
        plain(
            said(ui, "action"@) + "="@ + chosen_word(ui) + "  "@ + counted_word(
                ui.texts,
                "matched"@,
                visible(facts, ui.filter).len() as int,
            ) + "  "@ + counted_word(ui.texts, "eligible"@, eligible) + "  "@ + counted_word(
                ui.texts,
                "blocked"@,
                blocked,
            ),
        ),
        plain(
            counted_word(ui.texts, "selected"@, ui.selected.len() as int) + "  "@ + counted_word(
                ui.texts,
                "impacted"@,
                impacted,
            ),
        ),
    ]
}

fn add_step(pieces: &mut Vec<Piece>, catalog: &Catalog, index: usize, key: &str, step: usize)
    requires
        index < 5,
    ensures
        final(pieces).deep_view() == old(pieces).deep_view().push(
            step_piece(catalog.texts(), index as int, key@, step as int),
        ),
{
    let tone = if index == step {
        Tone::Current
    } else if index < step {
        Tone::Done
    } else {
        Tone::Faint
    };
    add_piece(
        pieces,
        decimal_text((index + 1) as u64).concat(" ").concat(catalog.text(key)),
        tone,
    );
}

fn steps(catalog: &Catalog, step: usize) -> (r: Vec<Piece>)
    ensures
        r.deep_view() == steps_line(catalog.texts(), step as int),
{
    let mut r: Vec<Piece> = Vec::new();
    add_piece(&mut r, catalog.text("title").to_owned().concat("  "), Tone::Title);
    add_step(&mut r, catalog, 0, "step_scan", step);
    add_piece(&mut r, "  ›  ".to_owned(), Tone::Plain);
    add_step(&mut r, catalog, 1, "step_filter", step);
    add_piece(&mut r, "  ›  ".to_owned(), Tone::Plain);
    add_step(&mut r, catalog, 2, "step_select", step);
    add_piece(&mut r, "  ›  ".to_owned(), Tone::Plain);
    add_step(&mut r, catalog, 3, "step_preview", step);
    add_piece(&mut r, "  ›  ".to_owned(), Tone::Plain);
    add_step(&mut r, catalog, 4, "step_result", step);
    assert(r.deep_view() =~= steps_line(catalog.texts(), step as int));
    r
}

/// The header.
pub fn header_page(state: &UiState, facts: &Facts) -> (r: Vec<Vec<Piece>>)
    ensures
        r.deep_view() == header_lines(state.deep_view(), facts.deep_view()),
{
    let catalog = &state.catalog;
    let trees = facts.filtered(&state.filter);
    assert(trees.deep_view().len() == trees@.len());
    let (eligible, blocked, impacted): (usize, usize, usize) = match state.action {
        None => (0, 0, 0),
        Some(action) => {
            let scope = scope_summary(facts, &state.filter, action);
            let preview = facts.preview(&state.selected, action);
            let eligible: usize = scope.eligible.len();
            (
                eligible,
                if scope.matched >= eligible {
                    scope.matched - eligible
                } else {
                    0
                },
                preview.impacted_count,
            )
        },
    };
    let chosen = match state.action {
        Some(action) => action_text(catalog, action),
        None => catalog.text("not_chosen"),
    };
    let mut r: Vec<Vec<Piece>> = Vec::new();
    add_pieces(&mut r, steps(catalog, screen_step(state.screen, state.return_screen)));
    add_line(
        &mut r,
        catalog.text("action").to_owned().concat("=").concat(chosen).concat("  ").concat(
            counted_text(catalog, "matched", trees.len()).as_str(),
        ).concat("  ").concat(counted_text(catalog, "eligible", eligible).as_str()).concat(
            "  ",
        ).concat(counted_text(catalog, "blocked", blocked).as_str()),
        Tone::Plain,
    );
    add_line(
        &mut r,
        counted_text(catalog, "selected", state.selected.len()).concat("  ").concat(
            counted_text(catalog, "impacted", impacted).as_str(),
        ),
        Tone::Plain,
    );
    assert(r.deep_view() =~= header_lines(state.deep_view(), facts.deep_view()));
    r
}

/// The trees that are protected.
pub open spec fn protected_trees(trees: Seq<SessionTreeView>) -> Seq<SessionTreeView> {
    trees.filter(|t: SessionTreeView| t.protection.len() > 0)
}

/// The trees that are archived as a whole.
pub open spec fn archived_trees(trees: Seq<SessionTreeView>) -> Seq<SessionTreeView> {
    trees.filter(|t: SessionTreeView| fully_archived(t.nodes))
}

fn count_protected(trees: &Vec<SessionTree>) -> (r: usize)
    ensures
        r == protected_trees(trees.deep_view()).len(),
{
    let ghost all = trees.deep_view();
    let ghost keep = |t: SessionTreeView| t.protection.len() > 0;
    let mut n: usize = 0;
    let mut i: usize = 0;
    proof {
        reveal(Seq::filter);
        assert(all.take(0).filter(keep) =~= Seq::empty());
    }
    while i < trees.len()
        invariant
            i <= trees@.len(),
            n <= i,
            all == trees.deep_view(),
            keep == (|t: SessionTreeView| t.protection.len() > 0),
            n == all.take(i as int).filter(keep).len(),
        decreases trees.len() - i,
    {
        proof {
            reveal(Seq::filter);
            assert(all.take(i as int + 1).drop_last() =~= all.take(i as int));
            assert(all.take(i as int + 1).last() == trees@[i as int].deep_view());
            assert(trees@[i as int].protection.deep_view().len() == trees@[i as int].protection@.len());
        }
        if trees[i].protection.len() > 0 {
            n += 1;
        }
        i += 1;
    }
    assert(all.take(i as int) =~= all);
    n
}

fn count_archived(trees: &Vec<SessionTree>) -> (r: usize)
    ensures
        r == archived_trees(trees.deep_view()).len(),
{
    let ghost all = trees.deep_view();
    let ghost keep = |t: SessionTreeView| fully_archived(t.nodes);
    let mut n: usize = 0;
    let mut i: usize = 0;
    proof {
        reveal(Seq::filter);
        assert(all.take(0).filter(keep) =~= Seq::empty());
    }
    while i < trees.len()
        invariant
            i <= trees@.len(),
            n <= i,
            all == trees.deep_view(),
            keep == (|t: SessionTreeView| fully_archived(t.nodes)),
            n == all.take(i as int).filter(keep).len(),
        decreases trees.len() - i,
    {
        proof {
            reveal(Seq::filter);
            assert(all.take(i as int + 1).drop_last() =~= all.take(i as int));
            assert(all.take(i as int + 1).last() == trees@[i as int].deep_view());
        }
        if trees[i].is_fully_archived() {
            n += 1;
        }
        i += 1;
    }
    assert(all.take(i as int) =~= all);
    n
}

/// How many bytes leftovers take, as far as a machine can count.
pub fn total_bytes(candidates: &Vec<MaintenanceCandidate>) -> (r: u64)
    ensures
        r == candidate_bytes(candidates.deep_view()),
{
    let ghost all = candidates.deep_view();
    let mut total: u64 = 0;
    let mut i: usize = 0;
    assert(all.take(0) =~= Seq::empty());
    while i < candidates.len()
        invariant
            i <= candidates@.len(),
            all == candidates.deep_view(),
            total == candidate_bytes(all.take(i as int)),
        decreases candidates.len() - i,
    {
        proof {
            assert(all.take(i as int + 1).drop_last() =~= all.take(i as int));
            assert(all.take(i as int + 1).last() == candidates@[i as int].deep_view());
        }
        let bytes: u64 = candidates[i].bytes;
        total = if bytes <= u64::MAX - total {
            total + bytes
        } else {
            u64::MAX
        };
        i += 1;
    }
    assert(all.take(i as int) =~= all);
    total
}

/// The page of the scan.
pub open spec fn scan_lines(
    ui: UiView,
    facts: FactsView,
    target: Option<Seq<char>>,
    diagnostics: Seq<Seq<char>>,
) -> Seq<Seq<PieceView>> {
    let head = seq![
        line(said(ui, "scan_ready"@), Tone::Strong),
        gap(),
        plain(
            said(ui, "target"@) + ": "@ + match target {
                Some(target) => target,
                None => "?"@,
            },
        ),
        plain(
            said(ui, "trees"@) + ": "@ + decimal(facts.trees.len() as int) + "    "@ + said(
                ui,
                "archived"@,
            ) + ": "@ + decimal(archived_trees(facts.trees).len() as int) + "    "@ + said(
                ui,
                "protected"@,
            ) + ": "@ + decimal(protected_trees(facts.trees).len() as int),
        ),
        plain(
            said(ui, "maintenance_candidates"@) + ": "@ + decimal(facts.candidates.len() as int)
                + " · "@ + shown_bytes(candidate_bytes(facts.candidates)),
        ),
    ];
    let hint = if facts.candidates.len() > 0 {
        seq![line(said(ui, "maintenance_open_hint"@), Tone::Hint)]
    } else {
        Seq::empty()
    };
    let banner = if diagnostics.len() > 0 {
        seq![gap(), line(said(ui, "readonly_banner"@), Tone::Notice)]
            + diagnostics.map_values(|diagnostic: Seq<char>| plain("• "@ + diagnostic))
    } else {
        Seq::empty()
    };
    head + hint + banner
}

/// The page of the scan.
pub fn scan_page(
    state: &UiState,
    facts: &Facts,
    target: &Option<String>,
    diagnostics: &Vec<String>,
) -> (r: Vec<Vec<Piece>>)
    ensures
        r.deep_view() == scan_lines(
            state.deep_view(),
            facts.deep_view(),
            target.deep_view(),
            diagnostics.deep_view(),
        ),
{
    let catalog = &state.catalog;
    let ghost ui = state.deep_view();
    let ghost fv = facts.deep_view();
    let ghost want = scan_lines(ui, fv, target.deep_view(), diagnostics.deep_view());
    proof {
        assert(facts.trees.deep_view().len() == facts.trees@.len());
        assert(facts.candidates.deep_view().len() == facts.candidates@.len());
        assert(diagnostics.deep_view().len() == diagnostics@.len());
    }
    let mut r: Vec<Vec<Piece>> = Vec::new();
    add_line(&mut r, catalog.text("scan_ready").to_owned(), Tone::Strong);
    add_gap(&mut r);
    let place = match target {
        Some(target) => target.as_str(),
        None => "?",
    };
    add_line(
        &mut r,
        catalog.text("target").to_owned().concat(": ").concat(place),
        Tone::Plain,
    );
    add_line(
        &mut r,
        catalog.text("trees").to_owned().concat(": ").concat(
            decimal_text(facts.trees.len() as u64).as_str(),
        ).concat("    ").concat(catalog.text("archived")).concat(": ").concat(
            decimal_text(count_archived(facts.trees) as u64).as_str(),
        ).concat("    ").concat(catalog.text("protected")).concat(": ").concat(
            decimal_text(count_protected(facts.trees) as u64).as_str(),
        ),
        Tone::Plain,
    );
    add_line(
        &mut r,
        catalog.text("maintenance_candidates").to_owned().concat(": ").concat(
            decimal_text(facts.candidates.len() as u64).as_str(),
        ).concat(" · ").concat(human_bytes(total_bytes(facts.candidates)).as_str()),
        Tone::Plain,
    );
    assert(r.deep_view() =~= want.take(5));
    if facts.candidates.len() > 0 {
        add_line(&mut r, catalog.text("maintenance_open_hint").to_owned(), Tone::Hint);
    }
    if diagnostics.len() > 0 {
        let ghost offset = r@.len() as int;
        add_gap(&mut r);
        add_line(&mut r, catalog.text("readonly_banner").to_owned(), Tone::Notice);
        let mut i: usize = 0;
        assert(r.deep_view() =~= want.take(offset + 2));
        while i < diagnostics.len()
            invariant
                i <= diagnostics@.len(),
                diagnostics@.len() > 0,
                diagnostics.deep_view().len() == diagnostics@.len(),
                0 <= offset,
                offset == 5 + (if fv.candidates.len() > 0 {
                    1int
                } else {
                    0int
                }),
                want == scan_lines(ui, fv, target.deep_view(), diagnostics.deep_view()),
                r.deep_view() == want.take(offset + 2 + i),
            decreases diagnostics.len() - i,
        {
            let ghost before = r.deep_view();
            let text = "• ".to_owned().concat(diagnostics[i].as_str());
            add_line(&mut r, text, Tone::Plain);
            proof {
                assert(diagnostics.deep_view()[i as int] == diagnostics@[i as int]@);
                assert(want[offset + 2 + i] == plain("• "@ + diagnostics@[i as int]@));
                assert(r.deep_view() =~= want.take(offset + 3 + i));
            }
            i += 1;
        }
        assert(want.take(offset + 2 + i) =~= want);
    } else {
        assert(r.deep_view() =~= want);
    }
    r
}

/// The name of a control; the one in focus is marked.
pub open spec fn control_piece(label: Seq<char>, focused: bool) -> PieceView {
    if focused {
        PieceView { text: "› "@ + label + ": "@, tone: Tone::Title }
    } else {
        PieceView { text: "  "@ + label + ": "@, tone: Tone::Plain }
    }
}

/// A choice of a control, and the space behind it.
pub open spec fn choice_pieces(value: Seq<char>, active: bool) -> Seq<PieceView> {
    seq![
        PieceView {
            text: " "@ + value + " "@,
            tone: if active {
                Tone::Current
            } else {
                Tone::Faint
            },
        },
        PieceView { text: " "@, tone: Tone::Plain },
    ]
}

/// The line of the cutoffs.
pub open spec fn cutoff_line(ui: UiView) -> Seq<PieceView> {
    seq![control_piece(said(ui, "cutoff"@), ui.filter_focus == 0)] + choice_pieces(
        said(ui, "all"@),
        ui.filter.cutoff == Cutoff::All,
    ) + choice_pieces("> 1d"@, ui.filter.cutoff == Cutoff::RollingDays(1)) + choice_pieces(
        "> 7d"@,
        ui.filter.cutoff == Cutoff::RollingDays(7),
    ) + choice_pieces("> 30d"@, ui.filter.cutoff == Cutoff::RollingDays(30))
}

/// The line of the views.
pub open spec fn view_line(ui: UiView) -> Seq<PieceView> {
    seq![control_piece(said(ui, "view"@), ui.filter_focus == 1)] + choice_pieces(
        said(ui, "all"@),
        ui.filter.archived is None,
    ) + choice_pieces(said(ui, "active"@), ui.filter.archived == Some(false)) + choice_pieces(
        said(ui, "archived"@),
        ui.filter.archived == Some(true),
    )
}

/// The line of the project.
pub open spec fn project_line(ui: UiView) -> Seq<PieceView> {
    seq![
        control_piece(said(ui, "project"@), ui.filter_focus == 2),
        PieceView {
            text: " "@ + (match ui.filter.project {
                Some(project) => project,
                None => said(ui, "all"@),
            }) + " "@,
            tone: Tone::Value,
        },
    ]
}

/// The page of the filter.
pub open spec fn filter_lines(ui: UiView, facts: FactsView, local: Option<Seq<char>>) -> Seq<
    Seq<PieceView>,
> {
    let custom = if ui.filter.cutoff is Absolute {
        seq![
            plain(
                "  "@ + said(ui, "custom_cutoff"@) + ": "@ + cutoff_word(
                    ui.filter.cutoff,
                    local,
                ),
            ),
        ]
    } else {
        Seq::empty()
    };
    seq![line(said(ui, "filter_intro"@), Tone::Strong), gap(), cutoff_line(ui)] + custom + seq![
        view_line(ui),
        project_line(ui),
        plain(
            "  "@ + said(ui, "query"@) + ": "@ + match ui.filter.query {
                Some(query) => query,
                None => said(ui, "none"@),
            },
        ),
        gap(),
        line(
            "  "@ + said(ui, "matched"@) + "  "@ + decimal(
                visible(facts, ui.filter).len() as int,
            ) + "  "@,
            Tone::Count,
        ),
    ]
}

fn add_control(pieces: &mut Vec<Piece>, label: &str, focused: bool)
    ensures
        final(pieces).deep_view() == old(pieces).deep_view().push(control_piece(label@, focused)),
{
    if focused {
        add_piece(pieces, "› ".to_owned().concat(label).concat(": "), Tone::Title);
    } else {
        add_piece(pieces, "  ".to_owned().concat(label).concat(": "), Tone::Plain);
    }
}

fn add_choice(pieces: &mut Vec<Piece>, value: &str, active: bool)
    ensures
        final(pieces).deep_view() == old(pieces).deep_view() + choice_pieces(value@, active),
{
    let ghost before = pieces.deep_view();
    add_piece(
        pieces,
        " ".to_owned().concat(value).concat(" "),
        if active {
            Tone::Current
        } else {
            Tone::Faint
        },
    );
    add_piece(pieces, " ".to_owned(), Tone::Plain);
    assert(pieces.deep_view() =~= before + choice_pieces(value@, active));
}

/// The page of the filter. How the cutoff reads on the local clock is given.
pub fn filter_page(state: &UiState, facts: &Facts, local: &Option<String>) -> (r: Vec<Vec<Piece>>)
    ensures
        r.deep_view() == filter_lines(state.deep_view(), facts.deep_view(), local.deep_view()),
{
    let catalog = &state.catalog;
    let ghost ui = state.deep_view();
    let trees = facts.filtered(&state.filter);
    assert(trees.deep_view().len() == trees@.len());
    let days: u32 = match state.filter.cutoff {
        Cutoff::RollingDays(days) => days,
        _ => 0,
    };
    let mut r: Vec<Vec<Piece>> = Vec::new();
    add_line(&mut r, catalog.text("filter_intro").to_owned(), Tone::Strong);
    add_gap(&mut r);
    let mut cutoffs: Vec<Piece> = Vec::new();
    add_control(&mut cutoffs, catalog.text("cutoff"), state.filter_focus == 0);
    add_choice(&mut cutoffs, catalog.text("all"), state.filter.cutoff == Cutoff::All);
    add_choice(&mut cutoffs, "> 1d", days == 1);
    add_choice(&mut cutoffs, "> 7d", days == 7);
    add_choice(&mut cutoffs, "> 30d", days == 30);
    assert(cutoffs.deep_view() =~= cutoff_line(ui));
    add_pieces(&mut r, cutoffs);
    let absolute = match state.filter.cutoff {
        Cutoff::Absolute(_) => true,
        _ => false,
    };
    if absolute {
        add_line(
            &mut r,
            "  ".to_owned().concat(catalog.text("custom_cutoff")).concat(": ").concat(
                cutoff_text(state.filter.cutoff, local).as_str(),
            ),
            Tone::Plain,
        );
    }
    let mut views: Vec<Piece> = Vec::new();
    add_control(&mut views, catalog.text("view"), state.filter_focus == 1);
    add_choice(&mut views, catalog.text("all"), state.filter.archived.is_none());
    add_choice(&mut views, catalog.text("active"), state.filter.archived == Some(false));
    add_choice(&mut views, catalog.text("archived"), state.filter.archived == Some(true));
    assert(views.deep_view() =~= view_line(ui));
    add_pieces(&mut r, views);
    let mut projects: Vec<Piece> = Vec::new();
    add_control(&mut projects, catalog.text("project"), state.filter_focus == 2);
    let project = match &state.filter.project {
        Some(project) => project.as_str(),
        None => catalog.text("all"),
    };
    add_piece(&mut projects, " ".to_owned().concat(project).concat(" "), Tone::Value);
    assert(projects.deep_view() =~= project_line(ui));
    add_pieces(&mut r, projects);
    let query = match &state.filter.query {
        Some(query) => query.as_str(),
        None => catalog.text("none"),
    };
    add_line(
        &mut r,
        "  ".to_owned().concat(catalog.text("query")).concat(": ").concat(query),
        Tone::Plain,
    );
    add_gap(&mut r);
    add_line(
        &mut r,
        "  ".to_owned().concat(catalog.text("matched")).concat("  ").concat(
            decimal_text(trees.len() as u64).as_str(),
        ).concat("  "),
        Tone::Count,
    );
    assert(r.deep_view() =~= filter_lines(ui, facts.deep_view(), local.deep_view()));
    r
}

/// The footer: the message, the first diagnostic and the keys of the page.
pub open spec fn footer_lines(ui: UiView, diagnostics: Seq<Seq<char>>) -> Seq<Seq<PieceView>> {
    (if ui.message.len() > 0 {
        seq![plain(ui.message)]
    } else {
        Seq::empty()
    }) + (if diagnostics.len() > 0 {
        seq![
            line(
                "⚠ "@ + said(ui, "readonly_banner"@) + " "@ + diagnostics[0],
                Tone::Warning,
            ),
        ]
    } else {
        Seq::empty()
    }) + seq![plain(said(ui, help_key(ui.screen)))]
}

pub fn footer_page(state: &UiState, diagnostics: &Vec<String>) -> (r: Vec<Vec<Piece>>)
    ensures
        r.deep_view() == footer_lines(state.deep_view(), diagnostics.deep_view()),
{
    let mut r: Vec<Vec<Piece>> = Vec::new();
    if chars_of(state.message.as_str()).len() > 0 {
        add_line(&mut r, state.message.clone(), Tone::Plain);
    }
    proof {
        assert(diagnostics.deep_view().len() == diagnostics@.len());
    }
    if diagnostics.len() > 0 {
        assert(diagnostics.deep_view()[0] == diagnostics@[0]@);
        add_line(
            &mut r,
            "⚠ ".to_owned().concat(state.catalog.text("readonly_banner")).concat(" ").concat(
                diagnostics[0].as_str(),
            ),
            Tone::Warning,
        );
    }
    add_line(
        &mut r,
        state.catalog.text(screen_help_key(state.screen)).to_owned(),
        Tone::Plain,
    );
    assert(r.deep_view() =~= footer_lines(state.deep_view(), diagnostics.deep_view()));
    r
}

/// The page of the help.
pub open spec fn help_lines(texts: Texts) -> Seq<Seq<PieceView>> {
    seq![
        plain(text_under(texts, "help_navigation"@)),
        plain(text_under(texts, "help_scan"@)),
        plain(text_under(texts, "help_filter"@)),
        plain(text_under(texts, "help_select"@)),
        plain(text_under(texts, "help_preview"@)),
        plain(text_under(texts, "help_maintenance"@)),
        plain(text_under(texts, "help_global"@)),
    ]
}

pub fn help_page(catalog: &Catalog) -> (r: Vec<Vec<Piece>>)
    ensures
        r.deep_view() == help_lines(catalog.texts()),
{
    let mut r: Vec<Vec<Piece>> = Vec::new();
    add_line(&mut r, catalog.text("help_navigation").to_owned(), Tone::Plain);
    add_line(&mut r, catalog.text("help_scan").to_owned(), Tone::Plain);
    add_line(&mut r, catalog.text("help_filter").to_owned(), Tone::Plain);
    add_line(&mut r, catalog.text("help_select").to_owned(), Tone::Plain);
    add_line(&mut r, catalog.text("help_preview").to_owned(), Tone::Plain);
    add_line(&mut r, catalog.text("help_maintenance").to_owned(), Tone::Plain);
    add_line(&mut r, catalog.text("help_global").to_owned(), Tone::Plain);
    assert(r.deep_view() =~= help_lines(catalog.texts()));
    r
}

/// The page on which text is typed.
pub open spec fn input_lines(ui: UiView) -> Seq<Seq<PieceView>> {
    seq![
        plain(
            said(
                ui,
                if ui.screen == Screen::Search {
                    "search_prompt"@
                } else {
                    "custom_prompt"@
                },
            ),
        ),
        gap(),
        plain(ui.input + "_"@),
    ]
}

pub fn input_page(state: &UiState) -> (r: Vec<Vec<Piece>>)
    ensures
        r.deep_view() == input_lines(state.deep_view()),
{
    let mut r: Vec<Vec<Piece>> = Vec::new();
    add_line(
        &mut r,
        state.catalog.text(
            if state.screen == Screen::Search {
                "search_prompt"
            } else {
                "custom_prompt"
            },
        ).to_owned(),
        Tone::Plain,
    );
    add_gap(&mut r);
    add_line(&mut r, state.input.clone().concat("_"), Tone::Plain);
    assert(r.deep_view() =~= input_lines(state.deep_view()));
    r
}

/// What a terminal shows that is too small.
pub open spec fn small_lines(texts: Texts, width: u16, height: u16) -> Seq<Seq<PieceView>> {
    seq![
        plain(text_under(texts, "terminal_too_small"@)),
        plain(
            decimal(width as int) + "x"@ + decimal(height as int) + " · "@ + decimal(
                MIN_TERMINAL_WIDTH as int,
            ) + "x"@ + decimal(MIN_TERMINAL_HEIGHT as int),
        ),
    ]
}

pub fn small_page(catalog: &Catalog, width: u16, height: u16) -> (r: Vec<Vec<Piece>>)
    ensures
        r.deep_view() == small_lines(catalog.texts(), width, height),
{
    let mut r: Vec<Vec<Piece>> = Vec::new();
    add_line(&mut r, catalog.text("terminal_too_small").to_owned(), Tone::Plain);
    add_line(
        &mut r,
        decimal_text(width as u64).concat("x").concat(decimal_text(height as u64).as_str()).concat(
            " · ",
        ).concat(decimal_text(MIN_TERMINAL_WIDTH as u64).as_str()).concat("x").concat(
            decimal_text(MIN_TERMINAL_HEIGHT as u64).as_str(),
        ),
        Tone::Plain,
    );
    assert(r.deep_view() =~= small_lines(catalog.texts(), width, height));
    r
}

/// How far an operation is.
#[derive(Debug, Clone, Copy, PartialEq, Eq, Structural)]
pub enum ExecutionPhase {
    Validating,
    Applying,
    Verifying,
}

/// How far an operation is, and how many of its sessions are done.
#[derive(Debug, Clone, Copy, PartialEq, Eq, Structural)]
pub struct ExecutionProgress {
    pub phase: ExecutionPhase,
    pub completed: usize,
    pub total: usize,
}

/// What an operation is about to do, or has done.
#[derive(Debug, Clone, Copy, PartialEq, Eq, Structural)]
pub enum ExecutionEvent {
    /// The sessions are scanned.
    Scanning,
    /// A session is changed.
    Changing,
    /// A session was changed.
    Changed,
}

/// How far an operation is after an event: the scan before the first change
/// validates, a scan after it verifies.
pub open spec fn progressed(
    progress: ExecutionProgress,
    event: ExecutionEvent,
) -> ExecutionProgress {
    match event {
        ExecutionEvent::Scanning => if progress.phase == ExecutionPhase::Validating {
            progress
        } else {
            ExecutionProgress { phase: ExecutionPhase::Verifying, ..progress }
        },
        ExecutionEvent::Changing => ExecutionProgress {
            phase: ExecutionPhase::Applying,
            ..progress
        },
        ExecutionEvent::Changed => ExecutionProgress {
            completed: if progress.completed < progress.total {
                (progress.completed + 1) as usize
            } else {
                progress.completed
            },
            ..progress
        },
    }
}

impl ExecutionProgress {
    /// An operation on so many sessions, before it starts.
    pub fn start(total: usize) -> (r: Self)
        ensures
            r == (ExecutionProgress { phase: ExecutionPhase::Validating, completed: 0, total }),
    {
        ExecutionProgress { phase: ExecutionPhase::Validating, completed: 0, total }
    }

    /// Takes an event.
    pub fn take(self, event: ExecutionEvent) -> (r: Self)
        ensures
            r == progressed(self, event),
    {
        let mut next = self;
        match event {
            ExecutionEvent::Scanning => {
                if next.phase != ExecutionPhase::Validating {
                    next.phase = ExecutionPhase::Verifying;
                }
            },
            ExecutionEvent::Changing => {
                next.phase = ExecutionPhase::Applying;
            },
            ExecutionEvent::Changed => {
                if next.completed < next.total {
                    next.completed = next.completed + 1;
                }
            },
        }
        next
    }
}

/// The turning mark of a picture of an animation.
pub open spec fn spinner(frame: int) -> Seq<char> {
    if frame % 4 == 0 {
        "|"@
    } else if frame % 4 == 1 {
        "/"@
    } else if frame % 4 == 2 {
        "-"@
    } else {
        "\\"@
    }
}

fn spinner_text(frame: usize) -> (r: &'static str)
    ensures
        r@ == spinner(frame as int),
{
    let turn: usize = frame % 4;
    if turn == 0 {
        "|"
    } else if turn == 1 {
        "/"
    } else if turn == 2 {
        "-"
    } else {
        "\\"
    }
}

/// The sessions that are done, not more than there are.
pub open spec fn done_of(progress: ExecutionProgress) -> int {
    smaller(progress.completed as int, progress.total as int)
}

/// The share that is done, in hundredths, as far as they can be counted.
pub open spec fn percent_of(progress: ExecutionProgress) -> int {
    if progress.total == 0 {
        0
    } else {
        smaller(done_of(progress) * 100, usize::MAX as int) / progress.total as int
    }
}

/// The line above the bar of an operation.
pub open spec fn execution_line(
    texts: Texts,
    action: Action,
    progress: ExecutionProgress,
    frame: int,
) -> Seq<char> {
    spinner(frame) + " "@ + text_under(
        texts,
        match progress.phase {
            ExecutionPhase::Validating => "execution_validating"@,
            ExecutionPhase::Applying => "execution_applying"@,
            ExecutionPhase::Verifying => "execution_verifying"@,
        },
    ) + " · "@ + text_under(texts, "action"@) + "="@ + action_word(texts, action) + " · "@
        + counted_word(texts, "nodes"@, progress.total as int)
}

/// The label of the bar of an operation.
pub open spec fn execution_label(progress: ExecutionProgress) -> Seq<char> {
    decimal(done_of(progress)) + "/"@ + decimal(progress.total as int) + " · "@ + decimal(
        percent_of(progress),
    ) + "%"@
}

pub fn execution_text(
    catalog: &Catalog,
    action: Action,
    progress: ExecutionProgress,
    frame: usize,
) -> (r: String)
    ensures
        r@ == execution_line(catalog.texts(), action, progress, frame as int),
{
    let phase = match progress.phase {
        ExecutionPhase::Validating => catalog.text("execution_validating"),
        ExecutionPhase::Applying => catalog.text("execution_applying"),
        ExecutionPhase::Verifying => catalog.text("execution_verifying"),
    };
    spinner_text(frame).to_owned().concat(" ").concat(phase).concat(" · ").concat(
        catalog.text("action"),
    ).concat("=").concat(action_text(catalog, action)).concat(" · ").concat(
        counted_text(catalog, "nodes", progress.total).as_str(),
    )
}

/// The share of an operation that is done, in hundredths.
pub fn execution_percent(progress: ExecutionProgress) -> (r: u16)
    ensures
        r == percent_of(progress),
        r <= 100,
{
    if progress.total == 0 {
        return 0;
    }
    let done: usize = if progress.completed <= progress.total {
        progress.completed
    } else {
        progress.total
    };
    let whole: usize = if done <= usize::MAX / 100 {
        done * 100
    } else {
        usize::MAX
    };
    let percent: usize = whole / progress.total;
    proof {
        let total = progress.total as int;
        assert(whole <= done * 100);
        assert(done * 100 <= total * 100) by (nonlinear_arith)
            requires
                done <= total,
        ;
        vstd::arithmetic::div_mod::lemma_div_is_ordered(whole as int, total * 100, total);
        vstd::arithmetic::div_mod::lemma_div_by_multiple(100, total);
        assert(total * 100 == 100 * total) by (nonlinear_arith);
    }
    percent as u16
}

pub fn execution_label_text(progress: ExecutionProgress) -> (r: String)
    ensures
        r@ == execution_label(progress),
{
    let done: usize = if progress.completed <= progress.total {
        progress.completed
    } else {
        progress.total
    };
    decimal_text(done as u64).concat("/").concat(
        decimal_text(progress.total as u64).as_str(),
    ).concat(" · ").concat(decimal_text(execution_percent(progress) as u64).as_str()).concat("%")
}

/// The line above the bar of a scan.
pub fn scan_progress_text(catalog: &Catalog, frame: usize) -> (r: String)
    ensures
        r@ == spinner(frame as int) + " "@ + text_under(
            catalog.texts(),
            "scan_progress_detail"@,
        ),
{
    spinner_text(frame).to_owned().concat(" ").concat(catalog.text("scan_progress_detail"))
}

/// How much of the bar of a scan is filled, in twentieths.
pub fn scan_pulse(frame: usize) -> (r: usize)
    ensures
        r == frame % 20 + 1,
        1 <= r <= 20,
{
    frame % 20 + 1
}

} // verus!
