//! The state of the interface, and what each key does to it.

use crate::domain::{
    copy_option, result_view, Action, Cutoff, Filter, FilterView, HistoryEntry, HistoryEntryView,
    Language, MaintenanceCandidate, MaintenanceCandidateView, MaintenanceKind, MaintenancePlan,
    MaintenancePlanView, OperationPreview, OperationPreviewView, Preferences, PreferencesView,
    SessionTreeView,
};
use crate::i18n::{entries_of, file_of, lines_of, text_under, Catalog, Locales, LocalesView};
use crate::ordered::TextSet;
use crate::outside::{rfc3339_seconds, seconds_of_rfc3339};
use crate::service::{candidate_bytes, maintenance_plan, selected_candidates};
use crate::text::{
    chars_of, decimal, decimal_text, parse_unsigned, text_between, trim, trimmed, unsigned_value,
};
use crate::ui::measure::{
    clamp_index, clamped, cycle_index, interrupts, is_select_all_key, less_by, next_in_ring,
    result_view_height, selects_all, smaller, Key, KeyCode,
};
use crate::ui::scope::{
    choice_index, kind_toggled, place_among, preview_of, project_choices, project_options,
    scope_of, scope_summary, select_all_eligible, toggle_maintenance_kind, toggle_selection,
    toggled, visible, Facts, FactsView,
};
use crate::ui::words::{blocked_message, blocked_words, counted_text, counted_word, Texts};
use vstd::prelude::*;
use vstd::string::*;

verus! {

broadcast use vstd::group_vstd_default;

/// The pages.
#[derive(Debug, Clone, Copy, PartialEq, Eq, Structural)]
pub enum Screen {
    Scan,
    Filter,
    Select,
    Preview,
    Result,
    History,
    Help,
    Search,
    CustomCutoff,
    Maintenance,
    MaintenancePreview,
}

/// A preview that is to be run, with the count that confirms a deletion.
pub struct PendingRun {
    pub preview: OperationPreview,
    pub confirmation: Option<usize>,
}

#[verifier::ext_equal]
pub struct PendingRunView {
    pub preview: OperationPreviewView,
    pub confirmation: Option<usize>,
}

impl DeepView for PendingRun {
    type V = PendingRunView;

    open spec fn deep_view(&self) -> PendingRunView {
        PendingRunView { preview: self.preview.deep_view(), confirmation: self.confirmation }
    }
}

/// The state of the interface.
pub struct UiState {
    pub screen: Screen,
    pub return_screen: Screen,
    pub index: usize,
    pub selected: TextSet,
    pub action: Option<Action>,
    pub filter: Filter,
    pub preferences: Preferences,
    pub locales: Locales,
    pub catalog: Catalog,
    pub preview: Option<OperationPreview>,
    pub preview_offset: usize,
    pub input: String,
    pub message: String,
    pub history: Vec<HistoryEntry>,
    pub result: Vec<String>,
    pub result_offset: usize,
    pub pending_execution: Option<PendingRun>,
    pub pending_scan: bool,
    pub filter_focus: usize,
    pub maintenance_index: usize,
    pub maintenance_selected: TextSet,
    pub maintenance_preview: Option<MaintenancePlan>,
    pub pending_maintenance: Option<MaintenancePlan>,
}

#[verifier::ext_equal]
pub struct UiView {
    pub screen: Screen,
    pub return_screen: Screen,
    pub index: usize,
    pub selected: Set<Seq<char>>,
    pub action: Option<Action>,
    pub filter: FilterView,
    pub preferences: PreferencesView,
    pub locales: LocalesView,
    pub language: Language,
    pub texts: Texts,
    pub preview: Option<OperationPreviewView>,
    pub preview_offset: usize,
    pub input: Seq<char>,
    pub message: Seq<char>,
    pub history: Seq<HistoryEntryView>,
    pub result: Seq<Seq<char>>,
    pub result_offset: usize,
    pub pending_execution: Option<PendingRunView>,
    pub pending_scan: bool,
    pub filter_focus: usize,
    pub maintenance_index: usize,
    pub maintenance_selected: Set<Seq<char>>,
    pub maintenance_preview: Option<MaintenancePlanView>,
    pub pending_maintenance: Option<MaintenancePlanView>,
}

impl DeepView for UiState {
    type V = UiView;

    open spec fn deep_view(&self) -> UiView {
        UiView {
            screen: self.screen,
            return_screen: self.return_screen,
            index: self.index,
            selected: self.selected@,
            action: self.action,
            filter: self.filter.deep_view(),
            preferences: self.preferences.deep_view(),
            locales: self.locales.deep_view(),
            language: self.catalog.tongue(),
            texts: self.catalog.texts(),
            preview: self.preview.deep_view(),
            preview_offset: self.preview_offset,
            input: self.input@,
            message: self.message@,
            history: self.history.deep_view(),
            result: self.result.deep_view(),
            result_offset: self.result_offset,
            pending_execution: self.pending_execution.deep_view(),
            pending_scan: self.pending_scan,
            filter_focus: self.filter_focus,
            maintenance_index: self.maintenance_index,
            maintenance_selected: self.maintenance_selected@,
            maintenance_preview: self.maintenance_preview.deep_view(),
            pending_maintenance: self.pending_maintenance.deep_view(),
        }
    }
}

/// What is still to be done after a key.
#[derive(Debug, Clone, Copy, PartialEq, Eq, Structural)]
pub enum Effect {
    Nothing,
    /// Leave the program.
    Quit,
    /// Hand the preferences to the record.
    Save,
    /// Read the history from the record.
    History,
}

/// The texts of a language.
pub open spec fn texts_in(locales: LocalesView, language: Language) -> Texts {
    entries_of(lines_of(file_of(locales, language)))
}

/// The state at the beginning.
pub open spec fn fresh_state(preferences: PreferencesView, locales: LocalesView) -> UiView {
    UiView {
        screen: Screen::Scan,
        return_screen: Screen::Scan,
        index: 0,
        selected: Set::empty(),
        action: None,
        filter: FilterView {
            cutoff: preferences.cutoff,
            project: preferences.project,
            query: None,
            archived: preferences.archived,
        },
        preferences,
        locales,
        language: preferences.language,
        texts: texts_in(locales, preferences.language),
        preview: None,
        preview_offset: 0,
        input: Seq::empty(),
        message: Seq::empty(),
        history: Seq::empty(),
        result: Seq::empty(),
        result_offset: 0,
        pending_execution: None,
        pending_scan: false,
        filter_focus: 0,
        maintenance_index: 0,
        maintenance_selected: Set::empty(),
        maintenance_preview: None,
        pending_maintenance: None,
    }
}

/// The preferences as the state has them.
pub open spec fn synced(ui: UiView) -> UiView {
    UiView {
        preferences: PreferencesView {
            language: ui.language,
            cutoff: ui.filter.cutoff,
            project: ui.filter.project,
            archived: ui.filter.archived,
        },
        ..ui
    }
}

/// Nothing is selected any more.
pub open spec fn unselected(ui: UiView) -> UiView {
    UiView { selected: Set::empty(), index: 0, preview: None, preview_offset: 0, ..ui }
}

/// The state with an action. Another action selects nothing.
pub open spec fn with_action(ui: UiView, action: Action) -> UiView {
    let chosen = UiView { action: Some(action), message: Seq::empty(), ..ui };
    if ui.action != Some(action) {
        UiView { selected: Set::empty(), preview: None, ..chosen }
    } else {
        chosen
    }
}

/// The state with a filter. Another filter selects nothing, and is remembered.
pub open spec fn with_filter(ui: UiView, filter: FilterView) -> UiView {
    synced(unselected(UiView { filter, ..ui }))
}

/// The state with a message.
pub open spec fn saying(ui: UiView, message: Seq<char>) -> UiView {
    UiView { message, ..ui }
}

/// The text under a key, in the language of the state.
pub open spec fn said(ui: UiView, key: Seq<char>) -> Seq<char> {
    text_under(ui.texts, key)
}

/// One page back.
pub open spec fn gone_back(ui: UiView) -> UiView {
    let ui = UiView { input: Seq::empty(), ..ui };
    match ui.screen {
        Screen::Scan => ui,
        Screen::Filter => UiView { screen: Screen::Scan, ..ui },
        Screen::Select => UiView { screen: Screen::Filter, ..ui },
        Screen::Preview => UiView {
            preview: None,
            preview_offset: 0,
            screen: Screen::Select,
            ..ui
        },
        Screen::Result => UiView { preview: None, screen: Screen::Select, ..ui },
        Screen::Maintenance => UiView {
            maintenance_selected: Set::empty(),
            maintenance_preview: None,
            screen: Screen::Scan,
            ..ui
        },
        Screen::MaintenancePreview => UiView {
            maintenance_preview: None,
            screen: Screen::Maintenance,
            ..ui
        },
        Screen::History => UiView { screen: ui.return_screen, ..ui },
        Screen::Help => UiView { screen: ui.return_screen, ..ui },
        Screen::Search => UiView { screen: Screen::Filter, ..ui },
        Screen::CustomCutoff => UiView { screen: Screen::Filter, ..ui },
    }
}

/// The other language.
pub open spec fn other_language(language: Language) -> Language {
    match language {
        Language::En => Language::ZhCn,
        Language::ZhCn => Language::En,
    }
}

/// A typed cutoff, as it was read: it becomes the filter's, or a message says
/// what is wrong with it.
pub open spec fn cutoff_typed(ui: UiView, read: Result<i64, Seq<char>>) -> (UiView, Effect) {
    match read {
        Ok(epoch) => (
            with_filter(
                UiView { input: Seq::empty(), screen: Screen::Filter, ..ui },
                FilterView { cutoff: Cutoff::Absolute(epoch), ..ui.filter },
            ),
            Effect::Save,
        ),
        Err(problem) => (saying(ui, "invalid RFC3339: "@ + problem), Effect::Nothing),
    }
}

/// A typed query.
pub open spec fn query_typed(ui: UiView) -> UiView {
    let query = trimmed(ui.input);
    unselected(
        UiView {
            filter: FilterView {
                query: if query.len() == 0 {
                    None
                } else {
                    Some(query)
                },
                ..ui.filter
            },
            input: Seq::empty(),
            screen: Screen::Filter,
            ..ui
        },
    )
}

/// A text without its last character.
pub open spec fn shortened(s: Seq<char>) -> Seq<char> {
    if s.len() == 0 {
        s
    } else {
        s.drop_last()
    }
}

/// A key while text is typed.
pub open spec fn on_input(ui: UiView, code: KeyCode) -> (UiView, Effect) {
    match code {
        KeyCode::Esc => (
            UiView { input: Seq::empty(), screen: Screen::Filter, ..ui },
            Effect::Nothing,
        ),
        KeyCode::Backspace => (
            UiView { input: shortened(ui.input), ..ui },
            Effect::Nothing,
        ),
        KeyCode::Char(c) => (UiView { input: ui.input.push(c), ..ui }, Effect::Nothing),
        KeyCode::Enter => if ui.screen == Screen::Search {
            (query_typed(ui), Effect::Nothing)
        } else {
            cutoff_typed(ui, rfc3339_seconds(trimmed(ui.input)))
        },
        _ => (ui, Effect::Nothing),
    }
}

/// A key on the scan page.
pub open spec fn on_scan(ui: UiView, code: KeyCode, leftovers: nat) -> UiView {
    match code {
        KeyCode::Enter => UiView { screen: Screen::Filter, ..ui },
        KeyCode::Char('r') => UiView { pending_scan: true, ..ui },
        KeyCode::Char('g') => if leftovers > 0 {
            UiView {
                maintenance_index: 0,
                maintenance_selected: Set::empty(),
                maintenance_preview: None,
                message: Seq::empty(),
                screen: Screen::Maintenance,
                ..ui
            }
        } else {
            ui
        },
        _ => ui,
    }
}

/// The cutoff after a cutoff.
pub open spec fn next_cutoff(cutoff: Cutoff) -> Cutoff {
    match cutoff {
        Cutoff::All => Cutoff::RollingDays(1),
        Cutoff::RollingDays(1) => Cutoff::RollingDays(7),
        Cutoff::RollingDays(7) => Cutoff::RollingDays(30),
        _ => Cutoff::All,
    }
}

/// The view after a view.
pub open spec fn next_view(archived: Option<bool>) -> Option<bool> {
    match archived {
        None => Some(false),
        Some(false) => Some(true),
        Some(true) => None,
    }
}

/// The cutoffs that can be chosen, in their order.
pub open spec fn cutoff_choices() -> Seq<Cutoff> {
    seq![
        Cutoff::All,
        Cutoff::RollingDays(1),
        Cutoff::RollingDays(7),
        Cutoff::RollingDays(30),
    ]
}

/// The place of a cutoff among the choices; any other counts as the first.
pub open spec fn cutoff_place(cutoff: Cutoff) -> int {
    match cutoff {
        Cutoff::RollingDays(1) => 1,
        Cutoff::RollingDays(7) => 2,
        Cutoff::RollingDays(30) => 3,
        _ => 0,
    }
}

/// The views that can be chosen, in their order.
pub open spec fn view_choices() -> Seq<Option<bool>> {
    seq![None, Some(false), Some(true)]
}

pub open spec fn view_place(archived: Option<bool>) -> int {
    match archived {
        None => 0,
        Some(false) => 1,
        Some(true) => 2,
    }
}

/// The project next to the filter's.
pub open spec fn next_project(
    trees: Seq<SessionTreeView>,
    project: Option<Seq<char>>,
    forward: bool,
) -> Option<Seq<char>> {
    let choices = project_choices(trees);
    choices[next_in_ring(place_among(choices, project), choices.len() as int, forward)]
}

/// The control in focus, turned one step.
pub open spec fn control_turned(
    ui: UiView,
    trees: Seq<SessionTreeView>,
    forward: bool,
) -> (UiView, Effect) {
    if ui.filter_focus == 0 {
        (
            with_filter(
                ui,
                FilterView {
                    cutoff: cutoff_choices()[next_in_ring(
                        cutoff_place(ui.filter.cutoff),
                        4,
                        forward,
                    )],
                    ..ui.filter
                },
            ),
            Effect::Save,
        )
    } else if ui.filter_focus == 1 {
        (
            with_filter(
                ui,
                FilterView {
                    archived: view_choices()[next_in_ring(
                        view_place(ui.filter.archived),
                        3,
                        forward,
                    )],
                    ..ui.filter
                },
            ),
            Effect::Save,
        )
    } else if ui.filter_focus == 2 {
        (
            with_filter(
                ui,
                FilterView {
                    project: next_project(trees, ui.filter.project, forward),
                    ..ui.filter
                },
            ),
            Effect::Save,
        )
    } else {
        (ui, Effect::Nothing)
    }
}

/// A key on the filter page.
pub open spec fn on_filter(ui: UiView, code: KeyCode, trees: Seq<SessionTreeView>) -> (
    UiView,
    Effect,
) {
    match code {
        KeyCode::Enter => (
            UiView { index: 0, screen: Screen::Select, ..ui },
            Effect::Nothing,
        ),
        KeyCode::Char('t') => (
            with_filter(ui, FilterView { cutoff: next_cutoff(ui.filter.cutoff), ..ui.filter }),
            Effect::Save,
        ),
        KeyCode::Char('c') => (
            UiView { input: Seq::empty(), screen: Screen::CustomCutoff, ..ui },
            Effect::Nothing,
        ),
        KeyCode::Char('/') => (
            UiView {
                input: match ui.filter.query {
                    Some(query) => query,
                    None => Seq::empty(),
                },
                screen: Screen::Search,
                ..ui
            },
            Effect::Nothing,
        ),
        KeyCode::Char('v') => (
            with_filter(
                ui,
                FilterView { archived: next_view(ui.filter.archived), ..ui.filter },
            ),
            Effect::Save,
        ),
        KeyCode::Up => (
            UiView { filter_focus: less_by(ui.filter_focus as int, 1) as usize, ..ui },
            Effect::Nothing,
        ),
        KeyCode::Down => (
            UiView { filter_focus: smaller(ui.filter_focus + 1, 2) as usize, ..ui },
            Effect::Nothing,
        ),
        KeyCode::Left => control_turned(ui, trees, false),
        KeyCode::Right => control_turned(ui, trees, true),
        KeyCode::Char('r') => (UiView { pending_scan: true, ..ui }, Effect::Nothing),
        _ => (ui, Effect::Nothing),
    }
}

/// The next project tab.
pub open spec fn tab_turned(ui: UiView, trees: Seq<SessionTreeView>, forward: bool) -> UiView {
    saying(
        with_filter(
            ui,
            FilterView {
                project: next_project(trees, ui.filter.project, forward),
                ..ui.filter
            },
        ),
        Seq::empty(),
    )
}

/// Everything that can be chosen is selected.
pub open spec fn all_selected(ui: UiView, facts: FactsView) -> UiView {
    match ui.action {
        None => saying(ui, said(ui, "choose_action_first"@)),
        Some(action) => {
            let scope = scope_of(facts, ui.filter, action);
            UiView {
                selected: scope.eligible,
                message: if scope.eligible == Set::<Seq<char>>::empty() {
                    said(ui, "nothing_eligible"@)
                } else {
                    decimal(scope.eligible.len() as int) + " "@ + said(ui, "trees_selected"@)
                        + " · "@ + counted_word(ui.texts, "impacted"@, scope.impacted)
                },
                ..ui
            }
        },
    }
}

/// The tree at the index is turned over, where it can be chosen.
pub open spec fn one_turned(ui: UiView, facts: FactsView) -> UiView {
    match ui.action {
        None => saying(ui, said(ui, "choose_action_first"@)),
        Some(action) => {
            let scope = scope_of(facts, ui.filter, action);
            let trees = visible(facts, ui.filter);
            if ui.index < trees.len() {
                let tree = trees[ui.index as int];
                if !scope.eligible.contains(tree.root_id) {
                    saying(ui, blocked_words(ui.texts, tree, action, scope))
                } else {
                    let selected = toggled(ui.selected, tree.root_id, true);
                    UiView {
                        selected,
                        message: said(
                            ui,
                            if ui.selected.contains(tree.root_id) {
                                "tree_unselected"@
                            } else {
                                "tree_selected"@
                            },
                        ) + " · "@ + counted_word(ui.texts, "selected"@, selected.len() as int)
                            + " · "@ + counted_word(
                            ui.texts,
                            "impacted"@,
                            preview_of(facts, selected, action).impacted_count as int,
                        ),
                        ..ui
                    }
                }
            } else {
                ui
            }
        },
    }
}

/// What is selected is previewed, as far as it can be chosen.
pub open spec fn previewed(ui: UiView, facts: FactsView) -> UiView {
    match ui.action {
        None => saying(ui, said(ui, "choose_action_first"@)),
        Some(action) => {
            let kept = ui.selected.intersect(scope_of(facts, ui.filter, action).eligible);
            let ui = UiView { selected: kept, ..ui };
            let preview = preview_of(facts, kept, action);
            if kept == Set::<Seq<char>>::empty() {
                saying(ui, said(ui, "select_one_first"@))
            } else if preview.trees.len() == 0 || preview.impacted_count == 0 {
                saying(ui, said(ui, "nothing_eligible"@))
            } else {
                UiView {
                    preview: Some(preview),
                    preview_offset: 0,
                    input: Seq::empty(),
                    message: Seq::empty(),
                    screen: Screen::Preview,
                    ..ui
                }
            }
        },
    }
}

/// A key on the page of the trees.
pub open spec fn on_select(ui: UiView, key: Key, facts: FactsView) -> (UiView, Effect) {
    if key.code == KeyCode::Tab {
        (tab_turned(ui, facts.trees, true), Effect::Save)
    } else if key.code == KeyCode::BackTab {
        (tab_turned(ui, facts.trees, false), Effect::Save)
    } else {
        let count = visible(facts, ui.filter).len() as int;
        let held = UiView { index: clamped(ui.index as int, count) as usize, ..ui };
        (
            if selects_all(key) {
                all_selected(held, facts)
            } else {
                match key.code {
                    KeyCode::Up => UiView {
                        index: less_by(held.index as int, 1) as usize,
                        ..held
                    },
                    KeyCode::Down => UiView {
                        index: clamped(held.index + 1, count) as usize,
                        ..held
                    },
                    KeyCode::Char('a') => with_action(held, Action::Archive),
                    KeyCode::Char('u') => with_action(held, Action::Restore),
                    KeyCode::Char('d') => with_action(held, Action::Delete),
                    KeyCode::Char('n') => UiView {
                        selected: Set::empty(),
                        message: said(held, "selection_cleared"@),
                        ..held
                    },
                    KeyCode::Char(' ') => one_turned(held, facts),
                    KeyCode::Enter => previewed(held, facts),
                    _ => held,
                }
            },
            Effect::Nothing,
        )
    }
}

/// An ASCII digit.
pub open spec fn ascii_digit(c: char) -> bool {
    '0' <= c && c <= '9'
}

/// A deletion is confirmed by the exact number of its sessions.
pub open spec fn confirmed(ui: UiView, preview: OperationPreviewView) -> UiView {
    let typed = unsigned_value(ui.input, usize::MAX as int);
    if typed == Some(preview.impacted_count as int) {
        UiView {
            message: Seq::empty(),
            pending_execution: Some(
                PendingRunView { preview, confirmation: Some(preview.impacted_count) },
            ),
            ..ui
        }
    } else {
        UiView {
            pending_execution: None,
            message: said(ui, "delete_confirmation_mismatch"@) + ": "@ + decimal(
                preview.impacted_count as int,
            ),
            ..ui
        }
    }
}

/// A key on the page of the preview.
pub open spec fn on_preview(ui: UiView, code: KeyCode) -> UiView {
    match ui.preview {
        None => UiView { screen: Screen::Select, ..ui },
        Some(preview) => match code {
            KeyCode::Up => UiView {
                preview_offset: less_by(ui.preview_offset as int, 1) as usize,
                ..ui
            },
            KeyCode::Down => UiView {
                preview_offset: smaller(
                    smaller(
                        ui.preview_offset + 1,
                        (preview.trees.len() + preview.blocked.len() + 4) as int,
                    ),
                    usize::MAX as int,
                ) as usize,
                ..ui
            },
            KeyCode::Enter => if preview.action == Action::Delete {
                confirmed(ui, preview)
            } else {
                UiView {
                    pending_execution: Some(PendingRunView { preview, confirmation: None }),
                    ..ui
                }
            },
            KeyCode::Char(c) => if preview.action == Action::Delete && ascii_digit(c) {
                UiView { input: ui.input.push(c), message: Seq::empty(), ..ui }
            } else {
                ui
            },
            KeyCode::Backspace => if preview.action == Action::Delete {
                UiView { input: shortened(ui.input), message: Seq::empty(), ..ui }
            } else {
                ui
            },
            _ => ui,
        },
    }
}

/// The plan of a cleanup.
pub open spec fn cleanup_plan(
    candidates: Seq<MaintenanceCandidateView>,
    selected: Set<Seq<char>>,
) -> MaintenancePlanView {
    let picked = selected_candidates(candidates, selected);
    MaintenancePlanView { candidates: picked, total_bytes: candidate_bytes(picked) as u64 }
}

/// The keys of candidates.
pub open spec fn all_keys(candidates: Seq<MaintenanceCandidateView>) -> Set<Seq<char>> {
    candidates.map_values(|c: MaintenanceCandidateView| c.key).to_set()
}

/// A key on the page of the leftovers.
pub open spec fn on_maintenance(
    ui: UiView,
    code: KeyCode,
    candidates: Seq<MaintenanceCandidateView>,
) -> UiView {
    let count = candidates.len() as int;
    let held = UiView {
        maintenance_index: clamped(ui.maintenance_index as int, count) as usize,
        ..ui
    };
    match code {
        KeyCode::Up => UiView {
            maintenance_index: less_by(held.maintenance_index as int, 1) as usize,
            ..held
        },
        KeyCode::Down => UiView {
            maintenance_index: clamped(held.maintenance_index + 1, count) as usize,
            ..held
        },
        KeyCode::Char(' ') => if held.maintenance_index < candidates.len() {
            UiView {
                maintenance_selected: toggled(
                    held.maintenance_selected,
                    candidates[held.maintenance_index as int].key,
                    true,
                ),
                ..held
            }
        } else {
            held
        },
        KeyCode::Char('A') => UiView { maintenance_selected: all_keys(candidates), ..held },
        KeyCode::Char('n') => UiView { maintenance_selected: Set::empty(), ..held },
        KeyCode::Char('1') => kind_turned(held, candidates, MaintenanceKind::UnreferencedRollout),
        KeyCode::Char('2') => kind_turned(held, candidates, MaintenanceKind::StaleSpawnEdge),
        KeyCode::Char('3') => kind_turned(
            held,
            candidates,
            MaintenanceKind::MissingRolloutThread,
        ),
        KeyCode::Enter => {
            let plan = cleanup_plan(candidates, held.maintenance_selected);
            if plan.candidates.len() == 0 {
                saying(held, said(held, "maintenance_select_first"@))
            } else {
                UiView {
                    maintenance_preview: Some(plan),
                    message: Seq::empty(),
                    screen: Screen::MaintenancePreview,
                    ..held
                }
            }
        },
        _ => held,
    }
}

pub open spec fn kind_turned(
    ui: UiView,
    candidates: Seq<MaintenanceCandidateView>,
    kind: MaintenanceKind,
) -> UiView {
    UiView {
        maintenance_selected: kind_toggled(ui.maintenance_selected, candidates, kind),
        ..ui
    }
}

/// A key on the page of the cleanup's preview.
pub open spec fn on_maintenance_preview(ui: UiView, code: KeyCode) -> UiView {
    if code == KeyCode::Enter && ui.maintenance_preview is Some {
        UiView { pending_maintenance: ui.maintenance_preview, ..ui }
    } else {
        ui
    }
}

/// A key on the page of the results.
pub open spec fn on_result(ui: UiView, code: KeyCode, height: u16) -> UiView {
    let last = less_by(ui.result.len() as int, less_by(height as int, 12));
    let offset = smaller(ui.result_offset as int, last);
    match code {
        KeyCode::Up => UiView { result_offset: less_by(offset, 1) as usize, ..ui },
        KeyCode::Down => UiView { result_offset: smaller(offset + 1, last) as usize, ..ui },
        KeyCode::Enter => UiView {
            screen: Screen::Scan,
            action: None,
            preview: None,
            result_offset: 0,
            ..ui
        },
        _ => UiView { result_offset: offset as usize, ..ui },
    }
}

/// What a key does, and what is still to be done after it.
pub open spec fn pressed(ui: UiView, key: Key, height: u16, facts: FactsView) -> (
    UiView,
    Effect,
) {
    if interrupts(key) {
        (ui, Effect::Quit)
    } else if ui.screen == Screen::Search || ui.screen == Screen::CustomCutoff {
        on_input(ui, key.code)
    } else if key.code == KeyCode::Char('l') {
        let language = other_language(ui.language);
        (
            synced(UiView { language, texts: texts_in(ui.locales, language), ..ui }),
            Effect::Save,
        )
    } else if key.code == KeyCode::Char('?') {
        (
            if ui.screen == Screen::Help {
                ui
            } else {
                UiView { return_screen: ui.screen, screen: Screen::Help, ..ui }
            },
            Effect::Nothing,
        )
    } else if key.code == KeyCode::Char('q') {
        (ui, Effect::Quit)
    } else if key.code == KeyCode::Esc {
        (gone_back(ui), Effect::Nothing)
    } else if key.code == KeyCode::Char('h') && ui.screen != Screen::History && ui.screen
        != Screen::Help {
        (UiView { return_screen: ui.screen, ..ui }, Effect::History)
    } else {
        match ui.screen {
            Screen::Scan => (
                on_scan(ui, key.code, facts.candidates.len()),
                Effect::Nothing,
            ),
            Screen::Filter => on_filter(ui, key.code, facts.trees),
            Screen::Select => on_select(ui, key, facts),
            Screen::Preview => (on_preview(ui, key.code), Effect::Nothing),
            Screen::Maintenance => (
                on_maintenance(ui, key.code, facts.candidates),
                Effect::Nothing,
            ),
            Screen::MaintenancePreview => (
                on_maintenance_preview(ui, key.code),
                Effect::Nothing,
            ),
            Screen::Result => (on_result(ui, key.code, height), Effect::Nothing),
            _ => (
                if key.code == KeyCode::Enter {
                    UiView { screen: ui.return_screen, ..ui }
                } else {
                    ui
                },
                Effect::Nothing,
            ),
        }
    }
}

fn nothing() -> (r: String)
    ensures
        r@ == Seq::<char>::empty(),
{
    let r = String::new();
    assert(r@ =~= Seq::<char>::empty());
    r
}

fn shorten(s: &String) -> (r: String)
    ensures
        r@ == shortened(s@),
{
    let v = chars_of(s.as_str());
    if v.len() == 0 {
        return s.clone();
    }
    let r = text_between(&v, 0, v.len() - 1);
    assert(r@ =~= shortened(s@));
    r
}

fn keep_common(selected: &TextSet, eligible: &TextSet) -> (r: TextSet)
    ensures
        r@ == selected@.intersect(eligible@),
{
    let items = selected.items();
    let ghost all = items.deep_view();
    let mut r = TextSet::new();
    let mut i: usize = 0;
    while i < items.len()
        invariant
            i <= items@.len(),
            all == items.deep_view(),
            all.to_set() == selected@,
            forall|id: Seq<char>| #[trigger]
                r@.contains(id) ==> selected@.contains(id) && eligible@.contains(id),
            forall|k: int|
                0 <= k < i && eligible@.contains(#[trigger] all[k]) ==> r@.contains(all[k]),
        decreases items.len() - i,
    {
        proof {
            assert(all[i as int] == items@[i as int]@);
            assert(all.to_set().contains(all[i as int]));
        }
        if eligible.contains(items[i].as_str()) {
            r.insert(items[i].clone());
        }
        i += 1;
    }
    proof {
        assert forall|id: Seq<char>|
            selected@.contains(id) && eligible@.contains(id) implies r@.contains(id) by {
            assert(all.to_set().contains(id));
            let k = all.index_of(id);
            assert(all[k] == id);
        }
        assert(r@ =~= selected@.intersect(eligible@));
    }
    r
}

fn collect_keys(candidates: &Vec<MaintenanceCandidate>) -> (r: TextSet)
    ensures
        r@ == all_keys(candidates.deep_view()),
{
    let ghost key_of = |c: MaintenanceCandidateView| c.key;
    let ghost all = candidates.deep_view().map_values(key_of);
    let mut r = TextSet::new();
    let mut i: usize = 0;
    while i < candidates.len()
        invariant
            i <= candidates@.len(),
            key_of == (|c: MaintenanceCandidateView| c.key),
            all == candidates.deep_view().map_values(key_of),
            forall|key: Seq<char>| #[trigger] r@.contains(key) ==> all.contains(key),
            forall|k: int| 0 <= k < i ==> r@.contains(#[trigger] all[k]),
        decreases candidates.len() - i,
    {
        assert(candidates.deep_view()[i as int] == candidates@[i as int].deep_view());
        assert(all[i as int] == candidates@[i as int].key@);
        r.insert(candidates[i].key.clone());
        i += 1;
    }
    proof {
        assert forall|key: Seq<char>| all.to_set().contains(key) implies r@.contains(key) by {
            let k = all.index_of(key);
            assert(all[k] == key);
        }
        assert(r@ =~= all.to_set());
    }
    r
}

impl UiState {
    /// The state at the beginning.
    pub fn new(preferences: Preferences, locales: Locales) -> (r: Self)
        ensures
            r.deep_view() == fresh_state(preferences.deep_view(), locales.deep_view()),
    {
        let catalog = Catalog::new(preferences.language, &locales);
        let history: Vec<HistoryEntry> = Vec::new();
        let result: Vec<String> = Vec::new();
        let r = UiState {
            screen: Screen::Scan,
            return_screen: Screen::Scan,
            index: 0,
            selected: TextSet::new(),
            action: None,
            filter: Filter {
                cutoff: preferences.cutoff,
                project: copy_option(&preferences.project),
                query: None,
                archived: preferences.archived,
            },
            preferences,
            locales,
            catalog,
            preview: None,
            preview_offset: 0,
            input: nothing(),
            message: nothing(),
            history,
            result,
            result_offset: 0,
            pending_execution: None,
            pending_scan: false,
            filter_focus: 0,
            maintenance_index: 0,
            maintenance_selected: TextSet::new(),
            maintenance_preview: None,
            pending_maintenance: None,
        };
        assert(r.deep_view() =~= fresh_state(preferences.deep_view(), locales.deep_view()));
        r
    }

    /// Takes the preferences from the state.
    pub fn sync_preferences(&mut self)
        ensures
            final(self).deep_view() == synced(old(self).deep_view()),
    {
        self.preferences = Preferences {
            language: self.catalog.language(),
            cutoff: self.filter.cutoff,
            project: copy_option(&self.filter.project),
            archived: self.filter.archived,
        };
    }

    /// Selects nothing.
    pub fn reset_selection(&mut self)
        ensures
            final(self).deep_view() == unselected(old(self).deep_view()),
    {
        self.selected = TextSet::new();
        self.index = 0;
        self.preview = None;
        self.preview_offset = 0;
    }

    /// Chooses an action. Another action selects nothing.
    pub fn choose_action(&mut self, action: Action)
        ensures
            final(self).deep_view() == with_action(old(self).deep_view(), action),
    {
        let other = match self.action {
            Some(known) => known != action,
            None => true,
        };
        if other {
            self.selected = TextSet::new();
            self.preview = None;
        }
        self.action = Some(action);
        self.message = nothing();
    }

    fn say(&mut self, key: &str)
        ensures
            final(self).deep_view() == saying(
                old(self).deep_view(),
                said(old(self).deep_view(), key@),
            ),
    {
        self.message = self.catalog.text(key).to_owned();
    }

    /// Takes the filter as it is: nothing is selected, and it is remembered.
    fn filter_changed(&mut self)
        ensures
            final(self).deep_view() == with_filter(
                old(self).deep_view(),
                old(self).deep_view().filter,
            ),
    {
        self.reset_selection();
        self.sync_preferences();
    }

    /// Goes one page back.
    pub fn go_back(&mut self)
        ensures
            final(self).deep_view() == gone_back(old(self).deep_view()),
    {
        self.input = nothing();
        match self.screen {
            Screen::Scan => {},
            Screen::Filter => {
                self.screen = Screen::Scan;
            },
            Screen::Select => {
                self.screen = Screen::Filter;
            },
            Screen::Preview => {
                self.preview = None;
                self.preview_offset = 0;
                self.screen = Screen::Select;
            },
            Screen::Result => {
                self.preview = None;
                self.screen = Screen::Select;
            },
            Screen::Maintenance => {
                self.maintenance_selected = TextSet::new();
                self.maintenance_preview = None;
                self.screen = Screen::Scan;
            },
            Screen::MaintenancePreview => {
                self.maintenance_preview = None;
                self.screen = Screen::Maintenance;
            },
            Screen::History => {
                self.screen = self.return_screen;
            },
            Screen::Help => {
                self.screen = self.return_screen;
            },
            Screen::Search => {
                self.screen = Screen::Filter;
            },
            Screen::CustomCutoff => {
                self.screen = Screen::Filter;
            },
        }
    }

    /// Takes a typed cutoff, as it was read.
    pub fn take_cutoff(&mut self, read: Result<i64, String>) -> (r: Effect)
        ensures
            (final(self).deep_view(), r) == cutoff_typed(
                old(self).deep_view(),
                result_view(read),
            ),
    {
        match read {
            Ok(epoch) => {
                self.filter = Filter {
                    cutoff: Cutoff::Absolute(epoch),
                    project: copy_option(&self.filter.project),
                    query: copy_option(&self.filter.query),
                    archived: self.filter.archived,
                };
                self.input = nothing();
                self.screen = Screen::Filter;
                self.filter_changed();
                Effect::Save
            },
            Err(problem) => {
                self.message = "invalid RFC3339: ".to_owned().concat(problem.as_str());
                Effect::Nothing
            },
        }
    }

    fn handle_text_input(&mut self, code: KeyCode) -> (r: Effect)
        ensures
            (final(self).deep_view(), r) == on_input(old(self).deep_view(), code),
    {
        match code {
            KeyCode::Esc => {
                self.input = nothing();
                self.screen = Screen::Filter;
                Effect::Nothing
            },
            KeyCode::Backspace => {
                self.input = shorten(&self.input);
                Effect::Nothing
            },
            KeyCode::Char(c) => {
                self.input.push(c);
                Effect::Nothing
            },
            KeyCode::Enter => if self.screen == Screen::Search {
                let query = trim(self.input.as_str());
                let query = if chars_of(query.as_str()).len() == 0 {
                    None
                } else {
                    Some(query)
                };
                self.filter = Filter {
                    cutoff: self.filter.cutoff,
                    project: copy_option(&self.filter.project),
                    query,
                    archived: self.filter.archived,
                };
                self.input = nothing();
                self.screen = Screen::Filter;
                self.reset_selection();
                Effect::Nothing
            } else {
                let read = seconds_of_rfc3339(trim(self.input.as_str()).as_str());
                self.take_cutoff(read)
            },
            _ => Effect::Nothing,
        }
    }

    fn handle_scan(&mut self, code: KeyCode, leftovers: usize)
        ensures
            final(self).deep_view() == on_scan(old(self).deep_view(), code, leftovers as nat),
    {
        match code {
            KeyCode::Enter => {
                self.screen = Screen::Filter;
            },
            KeyCode::Char(c) => {
                if c == 'r' {
                    self.pending_scan = true;
                } else if c == 'g' && leftovers > 0 {
                    self.maintenance_index = 0;
                    self.maintenance_selected = TextSet::new();
                    self.maintenance_preview = None;
                    self.message = nothing();
                    self.screen = Screen::Maintenance;
                }
            },
            _ => {},
        }
    }

    fn set_cutoff(&mut self, cutoff: Cutoff) -> (r: Effect)
        ensures
            (final(self).deep_view(), r) == (
                with_filter(
                    old(self).deep_view(),
                    FilterView { cutoff, ..old(self).deep_view().filter },
                ),
                Effect::Save,
            ),
    {
        self.filter = Filter {
            cutoff,
            project: copy_option(&self.filter.project),
            query: copy_option(&self.filter.query),
            archived: self.filter.archived,
        };
        self.filter_changed();
        Effect::Save
    }

    fn set_view(&mut self, archived: Option<bool>) -> (r: Effect)
        ensures
            (final(self).deep_view(), r) == (
                with_filter(
                    old(self).deep_view(),
                    FilterView { archived, ..old(self).deep_view().filter },
                ),
                Effect::Save,
            ),
    {
        self.filter = Filter {
            cutoff: self.filter.cutoff,
            project: copy_option(&self.filter.project),
            query: copy_option(&self.filter.query),
            archived,
        };
        self.filter_changed();
        Effect::Save
    }

    fn turn_project(&mut self, facts: &Facts, forward: bool) -> (r: Effect)
        ensures
            (final(self).deep_view(), r) == (
                with_filter(
                    old(self).deep_view(),
                    FilterView {
                        project: next_project(
                            facts.deep_view().trees,
                            old(self).deep_view().filter.project,
                            forward,
                        ),
                        ..old(self).deep_view().filter
                    },
                ),
                Effect::Save,
            ),
    {
        let options = project_options(facts.trees);
        let current: usize = choice_index(&options, &self.filter.project);
        let next: usize = cycle_index(current, options.len(), forward);
        proof {
            let n = options@.len() as int;
            if forward {
                vstd::arithmetic::div_mod::lemma_mod_bound(current + 1, n);
            }
            assert(next < n);
            assert(options.deep_view()[next as int] == options@[next as int].deep_view());
        }
        self.filter = Filter {
            cutoff: self.filter.cutoff,
            project: copy_option(&options[next]),
            query: copy_option(&self.filter.query),
            archived: self.filter.archived,
        };
        self.filter_changed();
        Effect::Save
    }

    fn cycle_filter_control(&mut self, facts: &Facts, forward: bool) -> (r: Effect)
        ensures
            (final(self).deep_view(), r) == control_turned(
                old(self).deep_view(),
                facts.deep_view().trees,
                forward,
            ),
    {
        if self.filter_focus == 0 {
            let current: usize = match self.filter.cutoff {
                Cutoff::RollingDays(days) => if days == 1 {
                    1
                } else if days == 7 {
                    2
                } else if days == 30 {
                    3
                } else {
                    0
                },
                _ => 0,
            };
            let next: usize = cycle_index(current, 4, forward);
            let cutoff = if next == 0 {
                Cutoff::All
            } else if next == 1 {
                Cutoff::RollingDays(1)
            } else if next == 2 {
                Cutoff::RollingDays(7)
            } else {
                Cutoff::RollingDays(30)
            };
            self.set_cutoff(cutoff)
        } else if self.filter_focus == 1 {
            let current: usize = match self.filter.archived {
                None => 0,
                Some(archived) => if archived {
                    2
                } else {
                    1
                },
            };
            let next: usize = cycle_index(current, 3, forward);
            let archived = if next == 0 {
                None
            } else if next == 1 {
                Some(false)
            } else {
                Some(true)
            };
            self.set_view(archived)
        } else if self.filter_focus == 2 {
            self.turn_project(facts, forward)
        } else {
            Effect::Nothing
        }
    }

    fn handle_filter(&mut self, code: KeyCode, facts: &Facts) -> (r: Effect)
        ensures
            (final(self).deep_view(), r) == on_filter(
                old(self).deep_view(),
                code,
                facts.deep_view().trees,
            ),
    {
        match code {
            KeyCode::Enter => {
                self.index = 0;
                self.screen = Screen::Select;
                Effect::Nothing
            },
            KeyCode::Char(c) => {
                if c == 't' {
                    let cutoff = match self.filter.cutoff {
                        Cutoff::All => Cutoff::RollingDays(1),
                        Cutoff::RollingDays(days) => if days == 1 {
                            Cutoff::RollingDays(7)
                        } else if days == 7 {
                            Cutoff::RollingDays(30)
                        } else {
                            Cutoff::All
                        },
                        Cutoff::Absolute(_) => Cutoff::All,
                    };
                    self.set_cutoff(cutoff)
                } else if c == 'c' {
                    self.input = nothing();
                    self.screen = Screen::CustomCutoff;
                    Effect::Nothing
                } else if c == '/' {
                    self.input = match &self.filter.query {
                        Some(query) => query.clone(),
                        None => nothing(),
                    };
                    self.screen = Screen::Search;
                    Effect::Nothing
                } else if c == 'v' {
                    let archived = match self.filter.archived {
                        None => Some(false),
                        Some(archived) => if archived {
                            None
                        } else {
                            Some(true)
                        },
                    };
                    self.set_view(archived)
                } else if c == 'r' {
                    self.pending_scan = true;
                    Effect::Nothing
                } else {
                    Effect::Nothing
                }
            },
            KeyCode::Up => {
                if self.filter_focus > 0 {
                    self.filter_focus = self.filter_focus - 1;
                }
                Effect::Nothing
            },
            KeyCode::Down => {
                self.filter_focus = if self.filter_focus < 2 {
                    self.filter_focus + 1
                } else {
                    2
                };
                Effect::Nothing
            },
            KeyCode::Left => self.cycle_filter_control(facts, false),
            KeyCode::Right => self.cycle_filter_control(facts, true),
            _ => Effect::Nothing,
        }
    }

    fn cycle_project_tab(&mut self, facts: &Facts, forward: bool) -> (r: Effect)
        ensures
            (final(self).deep_view(), r) == (
                tab_turned(old(self).deep_view(), facts.deep_view().trees, forward),
                Effect::Save,
            ),
    {
        let effect = self.turn_project(facts, forward);
        self.message = nothing();
        effect
    }

    fn select_all(&mut self, facts: &Facts)
        ensures
            final(self).deep_view() == all_selected(old(self).deep_view(), facts.deep_view()),
    {
        match self.action {
            None => {
                self.say("choose_action_first");
            },
            Some(action) => {
                let scope = scope_summary(facts, &self.filter, action);
                select_all_eligible(&mut self.selected, &scope);
                self.message = if self.selected.is_empty() {
                    self.catalog.text("nothing_eligible").to_owned()
                } else {
                    decimal_text(self.selected.len() as u64).concat(" ").concat(
                        self.catalog.text("trees_selected"),
                    ).concat(" · ").concat(
                        counted_text(&self.catalog, "impacted", scope.impacted).as_str(),
                    )
                };
            },
        }
    }

    fn toggle_current(&mut self, facts: &Facts)
        ensures
            final(self).deep_view() == one_turned(old(self).deep_view(), facts.deep_view()),
    {
        let action = match self.action {
            Some(action) => action,
            None => {
                self.say("choose_action_first");
                return;
            },
        };
        let scope = scope_summary(facts, &self.filter, action);
        let trees = facts.filtered(&self.filter);
        assert(trees.deep_view().len() == trees@.len());
        if self.index < trees.len() {
            let tree = trees[self.index];
            assert(trees.deep_view()[self.index as int] == tree.deep_view());
            if !scope.eligible.contains(tree.root_id.as_str()) {
                self.message = blocked_message(&self.catalog, tree, action, &scope);
            } else {
                let selected = toggle_selection(
                    &mut self.selected,
                    tree.root_id.as_str(),
                    true,
                );
                let preview = facts.preview(&self.selected, action);
                self.message = self.catalog.text(
                    if selected {
                        "tree_selected"
                    } else {
                        "tree_unselected"
                    },
                ).to_owned().concat(" · ").concat(
                    counted_text(&self.catalog, "selected", self.selected.len()).as_str(),
                ).concat(" · ").concat(
                    counted_text(&self.catalog, "impacted", preview.impacted_count).as_str(),
                );
            }
        }
    }

    fn preview_selected(&mut self, facts: &Facts)
        ensures
            final(self).deep_view() == previewed(old(self).deep_view(), facts.deep_view()),
    {
        let action = match self.action {
            Some(action) => action,
            None => {
                self.say("choose_action_first");
                return;
            },
        };
        let scope = scope_summary(facts, &self.filter, action);
        self.selected = keep_common(&self.selected, &scope.eligible);
        if self.selected.is_empty() {
            self.say("select_one_first");
            return;
        }
        let preview = facts.preview(&self.selected, action);
        assert(preview.trees.deep_view().len() == preview.trees@.len());
        if preview.trees.len() == 0 || preview.impacted_count == 0 {
            self.say("nothing_eligible");
            return;
        }
        self.preview = Some(preview);
        self.preview_offset = 0;
        self.input = nothing();
        self.message = nothing();
        self.screen = Screen::Preview;
    }

    fn handle_select(&mut self, key: Key, facts: &Facts) -> (r: Effect)
        ensures
            (final(self).deep_view(), r) == on_select(
                old(self).deep_view(),
                key,
                facts.deep_view(),
            ),
    {
        if key.code == KeyCode::Tab {
            return self.cycle_project_tab(facts, true);
        }
        if key.code == KeyCode::BackTab {
            return self.cycle_project_tab(facts, false);
        }
        let count: usize = {
            let trees = facts.filtered(&self.filter);
            assert(trees.deep_view().len() == trees@.len());
            trees.len()
        };
        self.index = clamp_index(self.index, count);
        if is_select_all_key(key) {
            self.select_all(facts);
            return Effect::Nothing;
        }
        match key.code {
            KeyCode::Up => {
                if self.index > 0 {
                    self.index = self.index - 1;
                }
            },
            KeyCode::Down => {
                if count > 0 && self.index < count - 1 {
                    self.index = self.index + 1;
                }
            },
            KeyCode::Char(c) => {
                if c == 'a' {
                    self.choose_action(Action::Archive);
                } else if c == 'u' {
                    self.choose_action(Action::Restore);
                } else if c == 'd' {
                    self.choose_action(Action::Delete);
                } else if c == 'n' {
                    self.selected = TextSet::new();
                    self.say("selection_cleared");
                } else if c == ' ' {
                    self.toggle_current(facts);
                }
            },
            KeyCode::Enter => {
                self.preview_selected(facts);
            },
            _ => {},
        }
        Effect::Nothing
    }

    fn confirm_delete(&mut self, preview: OperationPreview)
        ensures
            final(self).deep_view() == confirmed(old(self).deep_view(), preview.deep_view()),
    {
        let count: usize = preview.impacted_count;
        let typed = parse_unsigned(self.input.as_str(), usize::MAX as u64);
        let exact = match typed {
            Some(n) => n == count as u64,
            None => false,
        };
        if exact {
            self.message = nothing();
            self.pending_execution = Some(PendingRun { preview, confirmation: Some(count) });
        } else {
            self.pending_execution = None;
            self.message = self.catalog.text("delete_confirmation_mismatch").to_owned().concat(
                ": ",
            ).concat(decimal_text(count as u64).as_str());
        }
    }

    fn handle_preview(&mut self, code: KeyCode)
        ensures
            final(self).deep_view() == on_preview(old(self).deep_view(), code),
    {
        let preview = match &self.preview {
            Some(preview) => preview.clone(),
            None => {
                self.screen = Screen::Select;
                return;
            },
        };
        proof {
            assert(preview.trees.deep_view().len() == preview.trees@.len());
            assert(preview.blocked.deep_view().len() == preview.blocked@.len());
        }
        match code {
            KeyCode::Up => {
                if self.preview_offset > 0 {
                    self.preview_offset = self.preview_offset - 1;
                }
            },
            KeyCode::Down => {
                let last: u128 = preview.trees.len() as u128 + preview.blocked.len() as u128 + 4;
                let next: u128 = self.preview_offset as u128 + 1;
                let wanted: u128 = if next <= last {
                    next
                } else {
                    last
                };
                self.preview_offset = if wanted <= usize::MAX as u128 {
                    wanted as usize
                } else {
                    usize::MAX
                };
            },
            KeyCode::Enter => {
                if preview.action == Action::Delete {
                    self.confirm_delete(preview);
                } else {
                    self.pending_execution = Some(PendingRun { preview, confirmation: None });
                }
            },
            KeyCode::Char(c) => {
                if preview.action == Action::Delete && '0' <= c && c <= '9' {
                    self.input.push(c);
                    self.message = nothing();
                }
            },
            KeyCode::Backspace => {
                if preview.action == Action::Delete {
                    self.input = shorten(&self.input);
                    self.message = nothing();
                }
            },
            _ => {},
        }
    }

    fn handle_maintenance(&mut self, code: KeyCode, candidates: &Vec<MaintenanceCandidate>)
        ensures
            final(self).deep_view() == on_maintenance(
                old(self).deep_view(),
                code,
                candidates.deep_view(),
            ),
    {
        let count: usize = candidates.len();
        assert(candidates.deep_view().len() == candidates@.len());
        self.maintenance_index = clamp_index(self.maintenance_index, count);
        match code {
            KeyCode::Up => {
                if self.maintenance_index > 0 {
                    self.maintenance_index = self.maintenance_index - 1;
                }
            },
            KeyCode::Down => {
                if count > 0 && self.maintenance_index < count - 1 {
                    self.maintenance_index = self.maintenance_index + 1;
                }
            },
            KeyCode::Char(c) => {
                if c == ' ' {
                    if self.maintenance_index < candidates.len() {
                        let candidate = &candidates[self.maintenance_index];
                        assert(candidates.deep_view()[self.maintenance_index as int]
                            == candidate.deep_view());
                        toggle_selection(
                            &mut self.maintenance_selected,
                            candidate.key.as_str(),
                            true,
                        );
                    }
                } else if c == 'A' {
                    self.maintenance_selected = collect_keys(candidates);
                } else if c == 'n' {
                    self.maintenance_selected = TextSet::new();
                } else if c == '1' {
                    toggle_maintenance_kind(
                        &mut self.maintenance_selected,
                        candidates,
                        MaintenanceKind::UnreferencedRollout,
                    );
                } else if c == '2' {
                    toggle_maintenance_kind(
                        &mut self.maintenance_selected,
                        candidates,
                        MaintenanceKind::StaleSpawnEdge,
                    );
                } else if c == '3' {
                    toggle_maintenance_kind(
                        &mut self.maintenance_selected,
                        candidates,
                        MaintenanceKind::MissingRolloutThread,
                    );
                }
            },
            KeyCode::Enter => {
                let plan = maintenance_plan(candidates, &self.maintenance_selected);
                proof {
                    assert(plan.deep_view() =~= cleanup_plan(
                        candidates.deep_view(),
                        self.maintenance_selected@,
                    ));
                    assert(plan.candidates.deep_view().len() == plan.candidates@.len());
                }
                if plan.candidates.len() == 0 {
                    self.say("maintenance_select_first");
                } else {
                    self.maintenance_preview = Some(plan);
                    self.message = nothing();
                    self.screen = Screen::MaintenancePreview;
                }
            },
            _ => {},
        }
    }

    fn handle_maintenance_preview(&mut self, code: KeyCode)
        ensures
            final(self).deep_view() == on_maintenance_preview(old(self).deep_view(), code),
    {
        if code == KeyCode::Enter {
            let plan = match &self.maintenance_preview {
                Some(plan) => Some(plan.clone()),
                None => None,
            };
            if plan.is_some() {
                self.pending_maintenance = plan;
            }
        }
    }

    fn handle_result(&mut self, code: KeyCode, height: u16)
        ensures
            final(self).deep_view() == on_result(old(self).deep_view(), code, height),
    {
        let shown: usize = result_view_height(height);
        assert(self.result.deep_view().len() == self.result@.len());
        let last: usize = if self.result.len() >= shown {
            self.result.len() - shown
        } else {
            0
        };
        if self.result_offset > last {
            self.result_offset = last;
        }
        match code {
            KeyCode::Up => {
                if self.result_offset > 0 {
                    self.result_offset = self.result_offset - 1;
                }
            },
            KeyCode::Down => {
                if self.result_offset < last {
                    self.result_offset = self.result_offset + 1;
                }
            },
            KeyCode::Enter => {
                self.screen = Screen::Scan;
                self.action = None;
                self.preview = None;
                self.result_offset = 0;
            },
            _ => {},
        }
    }

    /// Takes a key, and says what is still to be done after it.
    pub fn press(&mut self, key: Key, terminal_height: u16, facts: &Facts) -> (r: Effect)
        ensures
            (final(self).deep_view(), r) == pressed(
                old(self).deep_view(),
                key,
                terminal_height,
                facts.deep_view(),
            ),
    {
        if key.control && key.code == KeyCode::Char('c') {
            return Effect::Quit;
        }
        if self.screen == Screen::Search || self.screen == Screen::CustomCutoff {
            return self.handle_text_input(key.code);
        }
        if key.code == KeyCode::Char('l') {
            let language = match self.catalog.language() {
                Language::En => Language::ZhCn,
                Language::ZhCn => Language::En,
            };
            self.catalog = Catalog::new(language, &self.locales);
            self.sync_preferences();
            return Effect::Save;
        }
        if key.code == KeyCode::Char('?') {
            if self.screen != Screen::Help {
                self.return_screen = self.screen;
                self.screen = Screen::Help;
            }
            return Effect::Nothing;
        }
        if key.code == KeyCode::Char('q') {
            return Effect::Quit;
        }
        if key.code == KeyCode::Esc {
            self.go_back();
            return Effect::Nothing;
        }
        if key.code == KeyCode::Char('h') && self.screen != Screen::History && self.screen
            != Screen::Help {
            self.return_screen = self.screen;
            return Effect::History;
        }
        match self.screen {
            Screen::Scan => {
                let leftovers: usize = facts.candidates.len();
                assert(facts.candidates.deep_view().len() == facts.candidates@.len());
                self.handle_scan(key.code, leftovers);
                Effect::Nothing
            },
            Screen::Filter => self.handle_filter(key.code, facts),
            Screen::Select => self.handle_select(key, facts),
            Screen::Preview => {
                self.handle_preview(key.code);
                Effect::Nothing
            },
            Screen::Maintenance => {
                self.handle_maintenance(key.code, facts.candidates);
                Effect::Nothing
            },
            Screen::MaintenancePreview => {
                self.handle_maintenance_preview(key.code);
                Effect::Nothing
            },
            Screen::Result => {
                self.handle_result(key.code, terminal_height);
                Effect::Nothing
            },
            _ => {
                if key.code == KeyCode::Enter {
                    self.screen = self.return_screen;
                }
                Effect::Nothing
            },
        }
    }
}

} // verus!
