//! The interface at work: keys and their effects, and the outcome of scans and
//! operations.

use crate::domain::{
    error_message, result_view, HistoryEntry, HistoryEntryView, MaintenanceCandidate,
    OperationResult, OperationResultView, OperationStore, Preferences, SessionGateway, VaultError,
    VaultErrorView,
};
use crate::ordered::TextSet;
use crate::service::{now_epoch, VaultService};
use crate::text::{decimal, decimal_text};
use crate::ui::measure::Key;
use crate::ui::scope::{Facts, FactsView};
use crate::ui::state::{pressed, said, saying, unselected, Effect, Screen, UiState, UiView};
use crate::ui::words::{operation_lines, result_lines};
use vstd::prelude::*;
use vstd::string::*;

verus! {

broadcast use vstd::group_vstd_default;

/// How many operations the history shows.
pub const HISTORY_LIMIT: usize = 50;

/// What became of handing the preferences to the record.
pub open spec fn saved_view(saved: Result<(), VaultError>) -> Result<(), VaultErrorView> {
    match saved {
        Ok(_) => Ok(()),
        Err(error) => Err(error.deep_view()),
    }
}

/// The state after the preferences were handed to the record.
pub open spec fn after_save(ui: UiView, saved: Result<(), VaultErrorView>) -> UiView {
    match saved {
        Ok(_) => ui,
        Err(error) => saying(ui, error_message(error)),
    }
}

/// The state after the history was read.
pub open spec fn after_history(
    ui: UiView,
    read: Result<Seq<HistoryEntryView>, VaultErrorView>,
) -> UiView {
    match read {
        Ok(history) => UiView { history, screen: Screen::History, ..ui },
        Err(error) => saying(ui, error_message(error)),
    }
}

/// The state after a key and what it asked for.
pub open spec fn handled(
    before: UiView,
    key: Key,
    height: u16,
    facts: FactsView,
    saved: Result<(), VaultErrorView>,
    read: Result<Seq<HistoryEntryView>, VaultErrorView>,
) -> (UiView, bool) {
    let (ui, effect) = pressed(before, key, height, facts);
    match effect {
        Effect::Nothing => (ui, false),
        Effect::Quit => (ui, true),
        Effect::Save => (after_save(ui, saved), false),
        Effect::History => (after_history(ui, read), false),
    }
}

/// The state after a scan. The first scan must succeed; a later one that does
/// not leaves a message.
pub open spec fn after_scan(
    ui: UiView,
    outcome: Result<usize, VaultErrorView>,
    initial: bool,
) -> UiView {
    match outcome {
        Ok(count) => {
            let cleared = UiView {
                maintenance_selected: Set::empty(),
                maintenance_preview: None,
                ..unselected(ui)
            };
            if initial {
                cleared
            } else {
                saying(cleared, decimal(count as int) + " "@ + said(ui, "trees"@))
            }
        },
        Err(error) => if initial {
            ui
        } else {
            saying(ui, error_message(error))
        },
    }
}

/// The state after an operation.
pub open spec fn after_run(
    ui: UiView,
    outcome: Result<OperationResultView, VaultErrorView>,
) -> UiView {
    match outcome {
        Ok(result) => UiView {
            result: result_lines(ui.texts, result),
            result_offset: 0,
            selected: Set::empty(),
            screen: Screen::Result,
            ..ui
        },
        Err(error) => UiView {
            result: seq![error_message(error)],
            result_offset: 0,
            screen: Screen::Result,
            ..ui
        },
    }
}

/// The state after a cleanup.
pub open spec fn after_cleanup(
    ui: UiView,
    outcome: Result<OperationResultView, VaultErrorView>,
) -> UiView {
    match outcome {
        Ok(result) => UiView {
            result: result_lines(ui.texts, result),
            result_offset: 0,
            maintenance_selected: Set::empty(),
            maintenance_preview: None,
            screen: Screen::Result,
            ..ui
        },
        Err(error) => UiView {
            result: seq![error_message(error)],
            result_offset: 0,
            screen: Screen::Result,
            ..ui
        },
    }
}

impl UiState {
    /// Takes what became of handing the preferences to the record.
    pub fn take_saved(&mut self, saved: &Result<(), VaultError>)
        ensures
            final(self).deep_view() == after_save(
                old(self).deep_view(),
                match saved {
                    Ok(_) => Ok(()),
                    Err(error) => Err(error.deep_view()),
                },
            ),
    {
        match saved {
            Ok(_) => {},
            Err(error) => {
                self.message = error.message();
            },
        }
    }

    /// Takes the history that was read.
    pub fn take_history(&mut self, read: Result<Vec<HistoryEntry>, VaultError>)
        ensures
            final(self).deep_view() == after_history(old(self).deep_view(), result_view(read)),
    {
        match read {
            Ok(history) => {
                self.history = history;
                self.screen = Screen::History;
            },
            Err(error) => {
                self.message = error.message();
            },
        }
    }

    /// Takes the outcome of a scan: how many trees it found.
    pub fn take_scan(&mut self, outcome: Result<usize, VaultError>, initial: bool) -> (r: Result<
        (),
        VaultError,
    >)
        ensures
            final(self).deep_view() == after_scan(
                old(self).deep_view(),
                result_view(outcome),
                initial,
            ),
            match outcome {
                Ok(_) => r is Ok,
                Err(error) => if initial {
                    r matches Err(found) && found == error
                } else {
                    r is Ok
                },
            },
    {
        match outcome {
            Ok(count) => {
                self.reset_selection();
                self.maintenance_selected = TextSet::new();
                self.maintenance_preview = None;
                if !initial {
                    self.message = decimal_text(count as u64).concat(" ").concat(
                        self.catalog.text("trees"),
                    );
                }
                Ok(())
            },
            Err(error) => {
                if initial {
                    return Err(error);
                }
                self.message = error.message();
                Ok(())
            },
        }
    }

    fn show_outcome(&mut self, outcome: &Result<OperationResult, VaultError>)
        ensures
            final(self).deep_view() == (UiView {
                result: match outcome {
                    Ok(result) => result_lines(old(self).deep_view().texts, result.deep_view()),
                    Err(error) => seq![error_message(error.deep_view())],
                },
                result_offset: 0,
                screen: Screen::Result,
                ..old(self).deep_view()
            }),
    {
        self.result = match outcome {
            Ok(result) => operation_lines(&self.catalog, result),
            Err(error) => {
                let mut lines: Vec<String> = Vec::new();
                let line = error.message();
                lines.push(line);
                assert(lines.deep_view() =~= seq![line@]);
                lines
            },
        };
        self.result_offset = 0;
        self.screen = Screen::Result;
    }

    /// Takes the outcome of an operation.
    pub fn take_execution(&mut self, outcome: &Result<OperationResult, VaultError>)
        ensures
            final(self).deep_view() == after_run(
                old(self).deep_view(),
                match outcome {
                    Ok(result) => Ok(result.deep_view()),
                    Err(error) => Err(error.deep_view()),
                },
            ),
    {
        self.show_outcome(outcome);
        if outcome.is_ok() {
            self.selected = TextSet::new();
        }
    }

    /// Takes the outcome of a cleanup.
    pub fn take_maintenance(&mut self, outcome: &Result<OperationResult, VaultError>)
        ensures
            final(self).deep_view() == after_cleanup(
                old(self).deep_view(),
                match outcome {
                    Ok(result) => Ok(result.deep_view()),
                    Err(error) => Err(error.deep_view()),
                },
            ),
    {
        self.show_outcome(outcome);
        if outcome.is_ok() {
            self.maintenance_selected = TextSet::new();
            self.maintenance_preview = None;
        }
    }
}

/// Takes a key, and does what it asks for. Says whether the program is to be
/// left.
pub fn handle_key<G: SessionGateway, S: OperationStore>(
    key: Key,
    terminal_height: u16,
    state: &mut UiState,
    service: &mut VaultService<G, S>,
) -> (r: bool)
    ensures
        exists|
            facts: FactsView,
            saved: Result<(), VaultError>,
            read: Result<Vec<HistoryEntry>, VaultError>,
        |
            {
                let effect = pressed(old(state).deep_view(), key, terminal_height, facts).1;
                &&& #[trigger] handled(
                    old(state).deep_view(),
                    key,
                    terminal_height,
                    facts,
                    saved_view(saved),
                    result_view(read),
                ) == (final(state).deep_view(), r)
                &&& facts.trees == old(service).forest()
                &&& call_ensures(now_epoch, (), facts.now)
                &&& exists|candidates: Vec<MaintenanceCandidate>| #[trigger]
                    call_ensures(
                        G::maintenance_candidates,
                        (&old(service).server(),),
                        candidates,
                    ) && facts.candidates == candidates.deep_view()
                &&& exists|ready: Result<(), VaultError>| #[trigger]
                    call_ensures(S::write_ready, (&old(service).record(),), ready)
                        && facts.storage_ready == (ready is Ok)
                &&& effect == Effect::Save ==> exists|m: &mut S, value: &Preferences|
                    value.deep_view() == pressed(
                        old(state).deep_view(),
                        key,
                        terminal_height,
                        facts,
                    ).0.preferences && *m == old(service).record() && *final(m) == final(service).record() && #[trigger] call_ensures(S::save_preferences, (m, value), saved)
                &&& effect == Effect::History ==> call_ensures(
                    S::history,
                    (&old(service).record(), HISTORY_LIMIT),
                    read,
                )
                &&& effect != Effect::Save ==> final(service).record() == old(service).record()
            },
        final(service).server() == old(service).server(),
        final(service).scanned() == old(service).scanned(),
        final(service).forest() == old(service).forest(),
{
    let ghost before = state.deep_view();
    let candidates = service.maintenance_candidates();
    let ready = service.store().write_ready();
    let (effect, Ghost(view)) = {
        let facts = Facts {
            trees: service.trees(),
            candidates: &candidates,
            now: now_epoch(),
            storage_ready: ready.is_ok(),
        };
        let ghost view = facts.deep_view();
        (state.press(key, terminal_height, &facts), Ghost(view))
    };
    let ghost fine = Ok::<(), VaultError>(());
    let ghost none: Result<Vec<HistoryEntry>, VaultError> = arbitrary();
    assert(call_ensures(G::maintenance_candidates, (&old(service).server(),), candidates));
    assert(call_ensures(S::write_ready, (&old(service).record(),), ready));
    match effect {
        Effect::Nothing => {
            assert(handled(
                before,
                key,
                terminal_height,
                view,
                saved_view(fine),
                result_view(none),
            ) == (state.deep_view(), false));
            false
        },
        Effect::Quit => {
            assert(handled(
                before,
                key,
                terminal_height,
                view,
                saved_view(fine),
                result_view(none),
            ) == (state.deep_view(), true));
            true
        },
        Effect::Save => {
            let saved = service.save_preferences(&state.preferences);
            state.take_saved(&saved);
            assert(handled(
                before,
                key,
                terminal_height,
                view,
                saved_view(saved),
                result_view(none),
            ) == (state.deep_view(), false));
            false
        },
        Effect::History => {
            let read = service.history(HISTORY_LIMIT);
            let ghost told = read;
            state.take_history(read);
            assert(handled(
                before,
                key,
                terminal_height,
                view,
                saved_view(fine),
                result_view(told),
            ) == (state.deep_view(), false));
            false
        },
    }
}

} // verus!
