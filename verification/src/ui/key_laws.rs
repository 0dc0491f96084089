//! What each key does on each page, in terms of the page, of what is selected
//! and of what was typed.

use crate::domain::{
    error_message, Action, Cutoff, FilterView, HistoryEntryView, Language,
    MaintenanceCandidateView, OperationResultView, PreferencesView, VaultErrorView,
};
use crate::i18n::LocalesView;
use crate::outcome_laws::law_the_selected_leftovers_are_planned;
use crate::outside::rfc3339_seconds;
use crate::service::selected_candidates;
use crate::text::{trimmed, white};
use crate::text_laws::{all_white, law_trimming_takes_white_space_off_the_ends};
use crate::ui::measure::{Key, KeyCode};
use crate::ui::run::{after_cleanup, after_run, after_scan, handled};
use crate::ui::scope::{scope_of, visible, FactsView};
use crate::ui::state::{fresh_state, pressed, texts_in, Effect, Screen, UiView};
use crate::ui::words::result_lines;
use vstd::prelude::*;

verus! {

broadcast use vstd::group_vstd_default;

/// A page on which text is typed.
pub open spec fn typing(screen: Screen) -> bool {
    screen == Screen::Search || screen == Screen::CustomCutoff
}

/// The program is left by `q` where no text is typed and by control and `c`
/// everywhere, and by no other key. Leaving changes nothing.
pub proof fn law_how_the_program_is_left(ui: UiView, key: Key, height: u16, facts: FactsView)
    ensures
        pressed(ui, key, height, facts).1 == Effect::Quit <==> (key.code == KeyCode::Char('c')
            && key.control) || (key.code == KeyCode::Char('q') && !typing(ui.screen)),
        pressed(ui, key, height, facts).1 == Effect::Quit ==> pressed(ui, key, height, facts).0
            == ui,
{
}

/// Escape goes to the page before: from the filter to the scan, from the
/// selection to the filter, from a preview or a result to the selection, from
/// the leftovers to the scan and from their preview to them, and from help and
/// history to where they were opened. It chooses nothing and starts nothing.
pub proof fn law_escape_goes_back(ui: UiView, key: Key, height: u16, facts: FactsView)
    requires
        key.code == KeyCode::Esc,
    ensures
        ({
            let (after, effect) = pressed(ui, key, height, facts);
            &&& after.screen == match ui.screen {
                Screen::Scan => Screen::Scan,
                Screen::Filter => Screen::Scan,
                Screen::Search => Screen::Filter,
                Screen::CustomCutoff => Screen::Filter,
                Screen::Select => Screen::Filter,
                Screen::Preview => Screen::Select,
                Screen::Result => Screen::Select,
                Screen::Maintenance => Screen::Scan,
                Screen::MaintenancePreview => Screen::Maintenance,
                Screen::History => ui.return_screen,
                Screen::Help => ui.return_screen,
            }
            &&& effect == Effect::Nothing
            &&& after.filter == ui.filter
            &&& after.action == ui.action
            &&& after.selected == ui.selected
            &&& after.input.len() == 0
            &&& after.pending_execution == ui.pending_execution
            &&& after.pending_maintenance == ui.pending_maintenance
            &&& after.pending_scan == ui.pending_scan
        }),
{
}

/// Help opens over any page on which no text is typed and leads back to it by
/// escape or enter; history does so too once it was read.
pub proof fn law_help_leads_back(ui: UiView, key: Key, back: Key, height: u16, facts: FactsView)
    requires
        !typing(ui.screen),
        ui.screen != Screen::Help,
        key.code == KeyCode::Char('?'),
        back.code == KeyCode::Esc || back.code == KeyCode::Enter,
    ensures
        ({
            let open = pressed(ui, key, height, facts).0;
            let closed = pressed(open, back, height, facts).0;
            &&& open.screen == Screen::Help
            &&& closed.screen == ui.screen
            &&& closed.selected == ui.selected
            &&& closed.filter == ui.filter
            &&& closed.preview == ui.preview
        }),
{
}

/// On the page of the selection a letter chooses its action, and choosing the
/// same action again keeps what is selected.
pub proof fn law_letters_choose_actions(ui: UiView, key: Key, height: u16, facts: FactsView)
    requires
        ui.screen == Screen::Select,
        !key.control,
        !key.shift,
    ensures
        ({
            let after = pressed(ui, key, height, facts).0;
            let chosen = |action: Action|
                after.action == Some(action) && (ui.action == Some(action) ==> after.selected
                    == ui.selected) && (ui.action != Some(action) ==> after.selected == Set::<
                    Seq<char>,
                >::empty());
            &&& key.code == KeyCode::Char('a') ==> chosen(Action::Archive)
            &&& key.code == KeyCode::Char('u') ==> chosen(Action::Restore)
            &&& key.code == KeyCode::Char('d') ==> chosen(Action::Delete)
            &&& key.code != KeyCode::Char('a') && key.code != KeyCode::Char('u') && key.code
                != KeyCode::Char('d') ==> after.action == ui.action
        }),
{
}

/// On the page of the selection, space turns over the tree at the cursor and
/// no other, where it can be chosen; the letter for all selects exactly what
/// can be chosen; the letter for none selects nothing. Without an action
/// neither of the first two selects anything.
pub proof fn law_how_trees_are_selected(
    ui: UiView,
    key: Key,
    height: u16,
    facts: FactsView,
    id: Seq<char>,
)
    requires
        ui.screen == Screen::Select,
        !key.control,
    ensures
        ({
            let after = pressed(ui, key, height, facts).0;
            let trees = visible(facts, ui.filter);
            let here = ui.index < trees.len() && trees[ui.index as int].root_id == id;
            let can = ui.action is Some && scope_of(
                facts,
                ui.filter,
                ui.action->0,
            ).eligible.contains(id);
            &&& key.code == KeyCode::Char(' ') && ui.index < trees.len() ==> (
            after.selected.contains(id) <==> (ui.selected.contains(id) != (here && can)))
            &&& key.code == KeyCode::Char('A') && ui.action is Some ==> (after.selected.contains(
                id,
            ) <==> can)
            &&& key.code == KeyCode::Char('A') && ui.action is None ==> after.selected
                == ui.selected
            &&& key.code == KeyCode::Char('n') ==> !after.selected.contains(id)
            &&& key.code == KeyCode::Up || key.code == KeyCode::Down ==> after.selected
                == ui.selected
        }),
{
}

/// The arrows move the cursor by one and keep it in the list.
pub proof fn law_arrows_move_by_one(ui: UiView, key: Key, height: u16, facts: FactsView)
    requires
        ui.screen == Screen::Select,
        ui.index < visible(facts, ui.filter).len() <= usize::MAX,
    ensures
        ({
            let after = pressed(ui, key, height, facts).0;
            let last = visible(facts, ui.filter).len() - 1;
            &&& key.code == KeyCode::Up && ui.index > 0 ==> after.index == ui.index - 1
            &&& key.code == KeyCode::Up && ui.index == 0 ==> after.index == 0
            &&& key.code == KeyCode::Down && ui.index < last ==> after.index == ui.index + 1
            &&& key.code == KeyCode::Down && ui.index == last ==> after.index == last
        }),
{
}

/// What is typed on a page for text is what is read there: a character is
/// added at the end, and backspace takes the last one off. Nothing else
/// changes while typing.
pub proof fn law_typing_adds_and_takes_off(ui: UiView, key: Key, height: u16, facts: FactsView)
    requires
        typing(ui.screen),
        !(key.code == KeyCode::Char('c') && key.control),
    ensures
        ({
            let after = pressed(ui, key, height, facts).0;
            &&& key.code matches KeyCode::Char(c) ==> after == (UiView {
                input: ui.input.push(c),
                ..ui
            })
            &&& key.code == KeyCode::Backspace && ui.input.len() > 0 ==> after == (UiView {
                input: ui.input.drop_last(),
                ..ui
            })
            &&& key.code == KeyCode::Backspace && ui.input.len() == 0 ==> after == ui
        }),
{
}

/// Enter on the page of the search makes what was typed, without the white
/// space around it, the query of the filter; a blank search takes the query
/// away. No other condition of the filter changes.
pub proof fn law_a_search_becomes_the_query(ui: UiView, key: Key, height: u16, facts: FactsView)
    requires
        ui.screen == Screen::Search,
        key.code == KeyCode::Enter,
    ensures
        ({
            let after = pressed(ui, key, height, facts).0;
            &&& after.screen == Screen::Filter
            &&& after.filter == (FilterView { query: after.filter.query, ..ui.filter })
            &&& all_white(ui.input) <==> after.filter.query is None
            &&& after.filter.query matches Some(query) ==> {
                &&& query.len() > 0
                &&& !white(query[0])
                &&& !white(query.last())
                &&& exists|head: Seq<char>, tail: Seq<char>|
                    ui.input == #[trigger] (head + query + tail) && all_white(head) && all_white(
                        tail,
                    )
            }
            &&& after.selected == Set::<Seq<char>>::empty()
        }),
{
    law_trimming_takes_white_space_off_the_ends(ui.input);
}

/// Enter on the page of the custom bound takes the second that was typed as
/// the bound and saves it; what is no time changes nothing but the message.
pub proof fn law_a_typed_time_becomes_the_bound(ui: UiView, key: Key, height: u16, facts: FactsView)
    requires
        ui.screen == Screen::CustomCutoff,
        key.code == KeyCode::Enter,
    ensures
        ({
            let (after, effect) = pressed(ui, key, height, facts);
            let read = rfc3339_seconds(trimmed(ui.input));
            &&& read matches Ok(second) ==> {
                &&& after.filter == (FilterView { cutoff: Cutoff::Absolute(second), ..ui.filter })
                &&& after.preferences.cutoff == Cutoff::Absolute(second)
                &&& after.screen == Screen::Filter
                &&& effect == Effect::Save
            }
            &&& read is Err ==> after == (UiView { message: after.message, ..ui }) && effect
                == Effect::Nothing
        }),
{
}

/// The keys of the filter change one condition each and keep the others; what
/// they change is saved with the preferences.
pub proof fn law_filter_keys_change_one_condition(
    ui: UiView,
    key: Key,
    height: u16,
    facts: FactsView,
)
    requires
        ui.screen == Screen::Filter,
        !key.control,
    ensures
        ({
            let (after, effect) = pressed(ui, key, height, facts);
            let turned = key.code == KeyCode::Left || key.code == KeyCode::Right;
            &&& key.code == KeyCode::Char('t') || (turned && ui.filter_focus == 0) ==> after.filter
                == (FilterView { cutoff: after.filter.cutoff, ..ui.filter }) && effect
                == Effect::Save
            &&& key.code == KeyCode::Char('v') || (turned && ui.filter_focus == 1) ==> after.filter
                == (FilterView { archived: after.filter.archived, ..ui.filter }) && effect
                == Effect::Save && after.filter.archived != ui.filter.archived
            &&& turned && ui.filter_focus == 2 ==> after.filter == (FilterView {
                project: after.filter.project,
                ..ui.filter
            }) && effect == Effect::Save
            &&& effect == Effect::Save && key.code != KeyCode::Char('l') ==> {
                &&& after.preferences.cutoff == after.filter.cutoff
                &&& after.preferences.project == after.filter.project
                &&& after.preferences.archived == after.filter.archived
                &&& after.preferences.language == after.language
            }
            &&& after.filter.query == ui.filter.query
        }),
{
    if let Some(archived) = ui.filter.archived {
        assert(archived == true || archived == false);
    }
}

/// The letter for the archive state goes round in three steps, and the letter
/// for the bound on time goes round in four once it is on one of the bounds
/// that it offers.
pub proof fn law_letters_go_round(ui: UiView, height: u16, facts: FactsView)
    requires
        ui.screen == Screen::Filter,
    ensures
        ({
            let v = Key { code: KeyCode::Char('v'), control: false, shift: false };
            let one = pressed(ui, v, height, facts).0;
            let two = pressed(one, v, height, facts).0;
            let three = pressed(two, v, height, facts).0;
            &&& three.filter == ui.filter
            &&& one.filter.archived != two.filter.archived
        }),
        ({
            let t = Key { code: KeyCode::Char('t'), control: false, shift: false };
            let one = pressed(ui, t, height, facts).0;
            let two = pressed(one, t, height, facts).0;
            let three = pressed(two, t, height, facts).0;
            let four = pressed(three, t, height, facts).0;
            &&& ui.filter.cutoff == Cutoff::All ==> one.filter.cutoff == Cutoff::RollingDays(1)
                && two.filter.cutoff == Cutoff::RollingDays(7) && three.filter.cutoff
                == Cutoff::RollingDays(30) && four.filter.cutoff == Cutoff::All
            &&& ui.filter.cutoff is Absolute ==> one.filter.cutoff == Cutoff::All
        }),
{
    if let Some(archived) = ui.filter.archived {
        assert(archived == true || archived == false);
    }
}

/// On the focused control of the filter, the arrow to the left undoes the one
/// to the right, where the control stands on one of its choices.
pub proof fn law_left_undoes_right(ui: UiView, height: u16, facts: FactsView)
    requires
        ui.screen == Screen::Filter,
        ui.filter_focus == 0 || ui.filter_focus == 1,
        ui.filter.cutoff == Cutoff::All || ui.filter.cutoff == Cutoff::RollingDays(1)
            || ui.filter.cutoff == Cutoff::RollingDays(7) || ui.filter.cutoff
            == Cutoff::RollingDays(30),
    ensures
        ({
            let right = Key { code: KeyCode::Right, control: false, shift: false };
            let left = Key { code: KeyCode::Left, control: false, shift: false };
            let there = pressed(ui, right, height, facts).0;
            let back = pressed(there, left, height, facts).0;
            there.filter != ui.filter && back.filter == ui.filter
        }),
{
    if let Some(archived) = ui.filter.archived {
        assert(archived == true || archived == false);
    }
    let right = Key { code: KeyCode::Right, control: false, shift: false };
    let there = pressed(ui, right, height, facts).0;
    if ui.filter_focus == 1 {
        assert(there.filter.archived != ui.filter.archived);
    } else {
        assert(there.filter.cutoff != ui.filter.cutoff);
    }
}

/// On the page of a preview of a deletion digits and backspace edit the typed
/// number, and on that of another action no key does.
pub proof fn law_only_digits_are_typed_for_a_deletion(
    ui: UiView,
    key: Key,
    height: u16,
    facts: FactsView,
)
    requires
        ui.screen == Screen::Preview,
        ui.preview is Some,
        key.code != KeyCode::Esc,
    ensures
        ({
            let after = pressed(ui, key, height, facts).0;
            let deletes = ui.preview->0.action == Action::Delete;
            &&& key.code matches KeyCode::Char(c) ==> (deletes && '0' <= c <= '9' && !key.control
                ==> after.input == ui.input.push(c))
            &&& key.code matches KeyCode::Char(c) ==> (!deletes || !('0' <= c <= '9')
                ==> after.input == ui.input)
            &&& key.code == KeyCode::Backspace && deletes && ui.input.len() > 0 ==> after.input
                == ui.input.drop_last()
            &&& !deletes ==> after.input == ui.input
        }),
{
}

/// Enter on the page of a preview of another action than a deletion asks for
/// it to be run as it was shown, without a number.
pub proof fn law_enter_runs_what_is_shown(ui: UiView, key: Key, height: u16, facts: FactsView)
    requires
        ui.screen == Screen::Preview,
        ui.preview is Some,
        ui.preview->0.action != Action::Delete,
        key.code == KeyCode::Enter,
    ensures
        ({
            let after = pressed(ui, key, height, facts).0;
            &&& after.pending_execution is Some
            &&& after.pending_execution->0.preview == ui.preview->0
            &&& after.pending_execution->0.confirmation is None
        }),
{
}

/// Enter on the page of the leftovers shows exactly those that are found and
/// selected, and shows nothing where there is none; the letter for all selects
/// each that is found.
pub proof fn law_how_leftovers_are_chosen(
    ui: UiView,
    key: Key,
    height: u16,
    facts: FactsView,
    c: MaintenanceCandidateView,
)
    requires
        ui.screen == Screen::Maintenance,
    ensures
        ({
            let after = pressed(ui, key, height, facts).0;
            let chosen = facts.candidates.contains(c) && ui.maintenance_selected.contains(c.key);
            &&& key.code == KeyCode::Enter && after.screen == Screen::MaintenancePreview
                ==> after.maintenance_preview is Some && (
            after.maintenance_preview->0.candidates.contains(c) <==> chosen)
            &&& key.code == KeyCode::Enter && chosen ==> after.screen == Screen::MaintenancePreview
            &&& key.code == KeyCode::Char('A') && facts.candidates.contains(c)
                ==> after.maintenance_selected.contains(c.key)
            &&& key.code == KeyCode::Char('n') ==> !after.maintenance_selected.contains(c.key)
        }),
{
    law_the_selected_leftovers_are_planned(facts.candidates, ui.maintenance_selected, c);
    let picked = selected_candidates(facts.candidates, ui.maintenance_selected);
    if picked.contains(c) {
        assert(picked[picked.index_of(c)] == c);
    }
    if facts.candidates.contains(c) {
        let keys = facts.candidates.map_values(|x: MaintenanceCandidateView| x.key);
        assert(keys[facts.candidates.index_of(c)] == c.key);
        assert(keys.to_set().contains(c.key));
    }
}

/// The page of the leftovers is reached from the scan, by its letter, exactly
/// where there are any; a new scan is asked for by its letter on the first two
/// pages.
pub proof fn law_what_the_first_page_leads_to(ui: UiView, key: Key, height: u16, facts: FactsView)
    requires
        ui.screen == Screen::Scan,
        !key.control,
    ensures
        ({
            let after = pressed(ui, key, height, facts).0;
            &&& key.code == KeyCode::Enter ==> after.screen == Screen::Filter
            &&& key.code == KeyCode::Char('g') ==> (after.screen == Screen::Maintenance
                <==> facts.candidates.len() > 0)
            &&& key.code == KeyCode::Char('g') && facts.candidates.len() > 0
                ==> after.maintenance_selected == Set::<Seq<char>>::empty()
            &&& key.code == KeyCode::Char('r') ==> after.pending_scan && after.screen
                == Screen::Scan
            &&& key.code != KeyCode::Char('r') ==> after.pending_scan == ui.pending_scan
        }),
{
}

/// A key ends the program exactly where it leaves it; preferences that could
/// not be saved and a history that could not be read are told; a history that
/// was read is shown.
pub proof fn law_what_a_key_comes_to(
    ui: UiView,
    key: Key,
    height: u16,
    facts: FactsView,
    saved: Result<(), VaultErrorView>,
    read: Result<Seq<HistoryEntryView>, VaultErrorView>,
)
    ensures
        ({
            let (asked, effect) = pressed(ui, key, height, facts);
            let (after, over) = handled(ui, key, height, facts, saved, read);
            &&& over <==> effect == Effect::Quit
            &&& effect == Effect::Nothing || effect == Effect::Quit ==> after == asked
            &&& effect == Effect::Save && saved is Ok ==> after == asked
            &&& effect == Effect::Save ==> (saved matches Err(error) ==> after == (UiView {
                message: error_message(error),
                ..asked
            }))
            &&& effect == Effect::History ==> (read matches Ok(entries) ==> after.history == entries
                && after.screen == Screen::History && after.return_screen == ui.screen)
            &&& effect == Effect::History ==> (read matches Err(error) ==> after.message
                == error_message(error) && after.screen == ui.screen)
        }),
{
}

/// A scan that came back drops what was selected and previewed, of trees and
/// of leftovers, since neither is known to be there still; a scan that failed
/// drops nothing.
pub proof fn law_a_scan_drops_the_selection(
    ui: UiView,
    outcome: Result<usize, VaultErrorView>,
    initial: bool,
)
    ensures
        ({
            let after = after_scan(ui, outcome, initial);
            &&& outcome is Ok ==> {
                &&& after.selected == Set::<Seq<char>>::empty()
                &&& after.preview is None
                &&& after.maintenance_selected == Set::<Seq<char>>::empty()
                &&& after.maintenance_preview is None
                &&& after.index == 0
                &&& after.filter == ui.filter
                &&& after.screen == ui.screen
            }
            &&& outcome matches Err(error) ==> after == (UiView { message: after.message, ..ui })
                && (!initial ==> after.message == error_message(error))
        }),
{
}

/// What came of an operation is shown on the page of results, from its first
/// line: its lines, or the error that it ended with. Only one that was run
/// drops what was selected for it.
pub proof fn law_every_operation_is_reported(
    ui: UiView,
    outcome: Result<OperationResultView, VaultErrorView>,
)
    ensures
        ({
            let (run, cleanup) = (after_run(ui, outcome), after_cleanup(ui, outcome));
            &&& run.screen == Screen::Result && cleanup.screen == Screen::Result
            &&& run.result_offset == 0 && cleanup.result_offset == 0
            &&& outcome matches Ok(result) ==> {
                &&& run.result == result_lines(ui.texts, result)
                &&& cleanup.result == result_lines(ui.texts, result)
                &&& run.selected == Set::<Seq<char>>::empty()
                &&& cleanup.maintenance_selected == Set::<Seq<char>>::empty()
                &&& cleanup.maintenance_preview is None
                &&& cleanup.selected == ui.selected
            }
            &&& outcome matches Err(error) ==> {
                &&& run.result == seq![error_message(error)]
                &&& cleanup.result == seq![error_message(error)]
                &&& run.selected == ui.selected
                &&& cleanup.maintenance_selected == ui.maintenance_selected
            }
        }),
{
}

/// The letter for the language changes to the other one, with its words, and
/// saves it; nothing that is selected or filtered changes.
pub proof fn law_the_language_changes(ui: UiView, key: Key, height: u16, facts: FactsView)
    requires
        !typing(ui.screen),
        key.code == KeyCode::Char('l'),
    ensures
        ({
            let (after, effect) = pressed(ui, key, height, facts);
            &&& (ui.language == Language::En ==> after.language == Language::ZhCn)
            &&& (ui.language == Language::ZhCn ==> after.language == Language::En)
            &&& after.texts == texts_in(ui.locales, after.language)
            &&& after.preferences.language == after.language
            &&& effect == Effect::Save
            &&& after.selected == ui.selected
            &&& after.filter == ui.filter
            &&& after.screen == ui.screen
        }),
{
}

/// The program begins at its first page, with the conditions and the language
/// that were chosen last, and with nothing searched for, selected or shown.
pub proof fn law_the_last_choices_are_taken_up(preferences: PreferencesView, locales: LocalesView)
    ensures
        ({
            let state = fresh_state(preferences, locales);
            &&& state.screen == Screen::Scan
            &&& state.filter.cutoff == preferences.cutoff
            &&& state.filter.project == preferences.project
            &&& state.filter.archived == preferences.archived
            &&& state.filter.query is None
            &&& state.language == preferences.language
            &&& state.preferences == preferences
            &&& state.texts == texts_in(locales, preferences.language)
            &&& forall|id: Seq<char>| !state.selected.contains(id)
            &&& forall|key: Seq<char>| !state.maintenance_selected.contains(key)
            &&& state.action is None
            &&& state.preview is None
            &&& state.pending_execution is None
            &&& !state.pending_scan
        }),
{
}

} // verus!
