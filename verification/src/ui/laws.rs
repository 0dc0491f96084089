//! What holds of the interface, whatever is pressed.

use crate::domain::Action;
use crate::text::unsigned_value;
use crate::ui::measure::{Key, KeyCode};
use crate::ui::scope::{preview_of, scope_of, FactsView};
use crate::ui::state::{pressed, texts_in, Screen, UiView};
use vstd::prelude::*;

verus! {

broadcast use vstd::group_vstd_default;

/// A key that changes the filter selects nothing and drops the preview.
pub proof fn law_new_filter_clears_selection(
    ui: UiView,
    key: Key,
    height: u16,
    facts: FactsView,
)
    requires
        pressed(ui, key, height, facts).0.filter != ui.filter,
    ensures
        pressed(ui, key, height, facts).0.selected == Set::<Seq<char>>::empty(),
        pressed(ui, key, height, facts).0.preview is None,
{
}

/// A key that chooses another action selects nothing and drops the preview.
pub proof fn law_new_action_clears_selection(
    ui: UiView,
    key: Key,
    height: u16,
    facts: FactsView,
)
    requires
        pressed(ui, key, height, facts).0.action != ui.action,
        pressed(ui, key, height, facts).0.action is Some,
    ensures
        pressed(ui, key, height, facts).0.selected == Set::<Seq<char>>::empty(),
        pressed(ui, key, height, facts).0.preview is None,
{
}

/// An operation is asked for only by the enter key on the page of its preview,
/// and a deletion only with the exact number of its sessions.
pub proof fn law_only_a_confirmed_preview_runs(
    ui: UiView,
    key: Key,
    height: u16,
    facts: FactsView,
)
    requires
        pressed(ui, key, height, facts).0.pending_execution is Some,
        pressed(ui, key, height, facts).0.pending_execution != ui.pending_execution,
    ensures
        ui.screen == Screen::Preview,
        key.code == KeyCode::Enter,
        ({
            let run = pressed(ui, key, height, facts).0.pending_execution->0;
            &&& ui.preview == Some(run.preview)
            &&& run.preview.action == Action::Delete ==> unsigned_value(
                ui.input,
                usize::MAX as int,
            ) == Some(run.preview.impacted_count as int) && run.confirmation == Some(
                run.preview.impacted_count,
            )
        }),
{
}

/// A cleanup is asked for only by the enter key on the page of its preview.
pub proof fn law_only_a_shown_cleanup_runs(
    ui: UiView,
    key: Key,
    height: u16,
    facts: FactsView,
)
    requires
        pressed(ui, key, height, facts).0.pending_maintenance != ui.pending_maintenance,
    ensures
        ui.screen == Screen::MaintenancePreview,
        key.code == KeyCode::Enter,
        pressed(ui, key, height, facts).0.pending_maintenance == ui.maintenance_preview,
{
}

/// The page of the preview is reached only with a preview of what is selected,
/// and nothing is selected that cannot be chosen.
pub proof fn law_preview_shows_what_can_be_chosen(
    ui: UiView,
    key: Key,
    height: u16,
    facts: FactsView,
)
    requires
        ui.screen != Screen::Preview,
        ui.screen != Screen::History,
        ui.screen != Screen::Help,
        pressed(ui, key, height, facts).0.screen == Screen::Preview,
    ensures
        ui.action is Some,
        ({
            let after = pressed(ui, key, height, facts).0;
            let action = ui.action->0;
            &&& after.preview == Some(preview_of(facts, after.selected, action))
            &&& after.preview->0.trees.len() > 0
            &&& after.preview->0.impacted_count > 0
            &&& after.selected.subset_of(scope_of(facts, ui.filter, action).eligible)
        }),
{
}

/// Switching the language twice brings the texts back.
pub proof fn law_language_switches_back(ui: UiView, key: Key, height: u16, facts: FactsView)
    requires
        key.code == KeyCode::Char('l'),
        ui.screen != Screen::Search,
        ui.screen != Screen::CustomCutoff,
        ui.texts == texts_in(ui.locales, ui.language),
    ensures
        ({
            let once = pressed(ui, key, height, facts).0;
            let twice = pressed(once, key, height, facts).0;
            once.language != ui.language && twice.language == ui.language && twice.texts
                == ui.texts
        }),
{
}

} // verus!
