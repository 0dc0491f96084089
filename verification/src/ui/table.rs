//! The page on which trees are chosen: its project tabs and its table.

use crate::domain::{SessionNode, SessionNodeView, SessionTree, SessionTreeView};
use crate::filter::fully_archived;
use crate::i18n::{text_under, Catalog};
use crate::path::{split_at_each, split_by};
use crate::text::{chars_of, decimal, decimal_text, same, text_between};
use crate::tree::total_size;
use crate::ui::measure::{
    clamp_index, clamped, display_width, fit_to_width, fitted, format_storage, id_start, less_by,
    short_id, shown_storage, smaller, storage_level, weight_of, width_of, window_at,
    window_start, StorageLevel,
};
use crate::ui::page::{add_piece, Piece, PieceView, Tone};
use crate::ui::scope::{
    choice_index, place_among, place_of, project_choices, project_options, project_tabs, scope_of, scope_summary,
    tabs_of, visible, Facts, FactsView, ProjectTab, ProjectTabView, ScopeSummary, ScopeView,
};
use crate::ui::state::{said, UiState, UiView};
use crate::ui::words::{
    mark_of, row_blocked_message, row_words, selection_marker, specific_protection_message,
    specific_words, Texts,
};
use vstd::prelude::*;
use vstd::string::*;

verus! {

broadcast use vstd::group_vstd_default;

/// A path without the slashes at its end.
pub open spec fn without_end_slashes(s: Seq<char>) -> Seq<char>
    decreases s.len(),
{
    if s.len() > 0 && s.last() == '/' {
        without_end_slashes(s.drop_last())
    } else {
        s
    }
}

/// What a project is called on its tab: the last name of its path.
pub open spec fn tab_label(texts: Texts, value: Option<Seq<char>>) -> Seq<char> {
    match value {
        None => text_under(texts, "all"@),
        Some(value) => {
            let name = split_by(without_end_slashes(value), '/').last();
            if name.len() > 0 {
                name
            } else {
                value
            }
        },
    }
}

fn drop_end_slashes(value: &str) -> (r: String)
    ensures
        r@ == without_end_slashes(value@),
{
    let v = chars_of(value);
    let mut end: usize = v.len();
    assert(v@.take(end as int) =~= v@);
    while end > 0 && v[end - 1] == '/'
        invariant
            end <= v@.len(),
            v@ == value@,
            without_end_slashes(v@.take(end as int)) == without_end_slashes(v@),
        decreases end,
    {
        assert(v@.take(end as int).drop_last() =~= v@.take(end as int - 1));
        end -= 1;
    }
    proof {
        let kept = v@.take(end as int);
        if end > 0 {
            assert(kept.last() == v@[end as int - 1]);
        }
        assert(v@.subrange(0, end as int) =~= kept);
    }
    text_between(&v, 0, end)
}

/// What a project is called on its tab.
pub fn project_tab_label(catalog: &Catalog, value: &Option<String>) -> (r: String)
    ensures
        r@ == tab_label(catalog.texts(), value.deep_view()),
{
    match value {
        None => catalog.text("all").to_owned(),
        Some(value) => {
            let parts = split_at_each(drop_end_slashes(value.as_str()).as_str(), '/');
            proof {
                assert(parts.deep_view().len() == parts@.len());
                assert(parts.deep_view().len() > 0);
            }
            let name = &parts[parts.len() - 1];
            assert(name@ == parts.deep_view().last());
            if chars_of(name.as_str()).len() > 0 {
                name.clone()
            } else {
                value.clone()
            }
        },
    }
}

/// The text of a tab.
pub open spec fn tab_text(texts: Texts, tab: ProjectTabView) -> Seq<char> {
    " "@ + fitted(tab_label(texts, tab.value), 16) + " ("@ + decimal(tab.count as int) + ", "@
        + shown_storage(tab.storage_bytes) + ") "@
}

/// The texts of the tabs.
pub open spec fn tab_texts(texts: Texts, tabs: Seq<ProjectTabView>) -> Seq<Seq<char>> {
    tabs.map_values(|tab: ProjectTabView| tab_text(texts, tab))
}

/// How many columns texts take together.
pub open spec fn widths(labels: Seq<Seq<char>>) -> int
    decreases labels.len(),
{
    if labels.len() == 0 {
        0
    } else {
        widths(labels.drop_last()) + smaller(width_of(labels.last()) as int, usize::MAX as int)
    }
}

/// How many columns the tabs of a range take, with a bar between two.
pub open spec fn range_width(labels: Seq<Seq<char>>, start: int, end: int) -> int {
    widths(labels.subrange(start, end)) + less_by(end, start + 1)
}

/// The first tab that is shown: the earliest from which on the active one still
/// fits, else the active one.
pub open spec fn first_tab(labels: Seq<Seq<char>>, active: int, max: int, start: int) -> int
    decreases active - start,
{
    if start < active && range_width(labels, start, active + 1) > max {
        first_tab(labels, active, max, start + 1)
    } else {
        start
    }
}

/// The end of the tabs that are shown: as many as fit.
pub open spec fn tabs_end(labels: Seq<Seq<char>>, start: int, max: int, end: int) -> int
    decreases labels.len() - end,
{
    if end < labels.len() && range_width(labels, start, end + 1) <= max {
        tabs_end(labels, start, max, end + 1)
    } else {
        end
    }
}

/// The pieces of the tabs of a range.
pub open spec fn tab_pieces(labels: Seq<Seq<char>>, active: int, start: int, end: int) -> Seq<
    PieceView,
>
    decreases end - start,
{
    if end <= start {
        Seq::empty()
    } else {
        let last = end - 1;
        let before = tab_pieces(labels, active, start, last);
        let barred = if last > start {
            before.push(PieceView { text: "│"@, tone: Tone::Faint })
        } else {
            before
        };
        barred.push(
            PieceView {
                text: labels[last],
                tone: if last == active {
                    Tone::Current
                } else {
                    Tone::Dim
                },
            },
        )
    }
}

/// The line of the tabs. What does not fit is left out on both sides.
pub open spec fn tab_line(labels: Seq<Seq<char>>, active: int, max: int) -> Seq<PieceView> {
    if labels.len() == 0 {
        Seq::empty()
    } else {
        let active = smaller(active, labels.len() - 1);
        let start = first_tab(labels, active, max, 0);
        let end = tabs_end(labels, start, max, active + 1);
        (if start > 0 {
            seq![
                PieceView { text: "…"@, tone: Tone::Faint },
                PieceView { text: " "@, tone: Tone::Plain },
            ]
        } else {
            Seq::empty()
        }) + tab_pieces(labels, active, start, end) + (if end < labels.len() {
            seq![PieceView { text: " …"@, tone: Tone::Faint }]
        } else {
            Seq::empty()
        })
    }
}

fn measure_range(labels: &Vec<String>, start: usize, end: usize) -> (r: u128)
    requires
        start <= end <= labels@.len(),
    ensures
        r == range_width(labels.deep_view(), start as int, end as int),
{
    let ghost all = labels.deep_view().subrange(start as int, end as int);
    let mut sum: u128 = 0;
    let mut i: usize = start;
    assert(all.take(0) =~= Seq::empty());
    while i < end
        invariant
            start <= i <= end <= labels@.len(),
            all == labels.deep_view().subrange(start as int, end as int),
            sum == widths(all.take(i - start)),
            sum <= (i - start) * (usize::MAX as int),
        decreases end - i,
    {
        proof {
            assert(all.take(i - start + 1).drop_last() =~= all.take(i - start));
            assert(all.take(i - start + 1).last() == labels@[i as int]@);
            assert((i - start) * (usize::MAX as int) + usize::MAX as int == (i - start + 1) * (
            usize::MAX as int)) by (nonlinear_arith);
            assert((i - start + 1) * (usize::MAX as int) <= 0xffff_ffff_ffff_ffff * (
            usize::MAX as int)) by (nonlinear_arith)
                requires
                    i - start + 1 <= 0xffff_ffff_ffff_ffff,
            ;
            assert(0xffff_ffff_ffff_ffff * (usize::MAX as int) <= 0xffff_ffff_ffff_ffff
                * 0xffff_ffff_ffff_ffff) by (nonlinear_arith)
                requires
                    usize::MAX <= 0xffff_ffff_ffff_ffff,
            ;
        }
        sum = sum + display_width(labels[i].as_str()) as u128;
        i += 1;
    }
    proof {
        assert(all.take(end - start) =~= all);
        assert((end - start) * (usize::MAX as int) <= 0xffff_ffff_ffff_ffff
            * 0xffff_ffff_ffff_ffff) by (nonlinear_arith)
            requires
                0 <= end - start <= 0xffff_ffff_ffff_ffff,
                usize::MAX <= 0xffff_ffff_ffff_ffff,
        ;
    }
    let bars: u128 = if end > start {
        (end - start - 1) as u128
    } else {
        0
    };
    sum + bars
}

/// The line of the tabs.
pub fn project_tab_line(
    catalog: &Catalog,
    tabs: &Vec<ProjectTab>,
    active: usize,
    max_width: usize,
) -> (r: Vec<Piece>)
    ensures
        r.deep_view() == tab_line(
            tab_texts(catalog.texts(), tabs.deep_view()),
            active as int,
            max_width as int,
        ),
{
    let ghost texts = catalog.texts();
    let ghost want = tab_texts(texts, tabs.deep_view());
    let mut labels: Vec<String> = Vec::new();
    let mut i: usize = 0;
    assert(labels.deep_view() =~= want.take(0));
    while i < tabs.len()
        invariant
            i <= tabs@.len(),
            labels@.len() == i,
            texts == catalog.texts(),
            want == tab_texts(texts, tabs.deep_view()),
            labels.deep_view() == want.take(i as int),
        decreases tabs.len() - i,
    {
        let ghost before = labels.deep_view();
        let tab = &tabs[i];
        let label = " ".to_owned().concat(
            fit_to_width(project_tab_label(catalog, &tab.value).as_str(), 16).as_str(),
        ).concat(" (").concat(decimal_text(tab.count as u64).as_str()).concat(", ").concat(
            format_storage(tab.storage_bytes).as_str(),
        ).concat(") ");
        proof {
            assert(tabs.deep_view()[i as int] == tab.deep_view());
            assert(label@ == want[i as int]);
        }
        labels.push(label);
        assert(labels.deep_view() =~= before.push(label@));
        assert(labels.deep_view() =~= want.take(i as int + 1));
        i += 1;
    }
    assert(want.take(i as int) =~= want);
    assert(tabs.deep_view().len() == tabs@.len());
    let mut r: Vec<Piece> = Vec::new();
    assert(r.deep_view() =~= Seq::<PieceView>::empty());
    if labels.len() == 0 {
        return r;
    }
    let active: usize = if active <= labels.len() - 1 {
        active
    } else {
        labels.len() - 1
    };
    let mut start: usize = 0;
    while start < active && measure_range(&labels, start, active + 1) > max_width as u128
        invariant
            start <= active < labels@.len(),
            labels.deep_view() == want,
            first_tab(want, active as int, max_width as int, 0) == first_tab(
                want,
                active as int,
                max_width as int,
                start as int,
            ),
        decreases active - start,
    {
        start += 1;
    }
    let mut end: usize = active + 1;
    while end < labels.len() && measure_range(&labels, start, end + 1) <= max_width as u128
        invariant
            start <= active < end <= labels@.len(),
            labels.deep_view() == want,
            tabs_end(want, start as int, max_width as int, active + 1) == tabs_end(
                want,
                start as int,
                max_width as int,
                end as int,
            ),
        decreases labels.len() - end,
    {
        end += 1;
    }
    if start > 0 {
        add_piece(&mut r, "…".to_owned(), Tone::Faint);
        add_piece(&mut r, " ".to_owned(), Tone::Plain);
    }
    let ghost head = r.deep_view();
    let mut k: usize = start;
    assert(r.deep_view() =~= head + tab_pieces(want, active as int, start as int, k as int));
    while k < end
        invariant
            start <= k <= end <= labels@.len(),
            labels.deep_view() == want,
            r.deep_view() == head + tab_pieces(want, active as int, start as int, k as int),
        decreases end - k,
    {
        assert(want[k as int] == labels@[k as int]@);
        if k > start {
            add_piece(&mut r, "│".to_owned(), Tone::Faint);
        }
        add_piece(
            &mut r,
            labels[k].clone(),
            if k == active {
                Tone::Current
            } else {
                Tone::Dim
            },
        );
        assert(r.deep_view() =~= head + tab_pieces(
            want,
            active as int,
            start as int,
            k as int + 1,
        ));
        k += 1;
    }
    if end < labels.len() {
        add_piece(&mut r, " …".to_owned(), Tone::Faint);
    }
    assert(r.deep_view() =~= tab_line(want, active as int, max_width as int));
    r
}

/// The active tab is among those that are shown.
pub proof fn law_active_tab_is_shown(labels: Seq<Seq<char>>, active: int, max: int)
    requires
        0 <= active < labels.len(),
    ensures
        ({
            let start = first_tab(labels, active, max, 0);
            let end = tabs_end(labels, start, max, active + 1);
            0 <= start <= active < end <= labels.len()
        }),
{
    lemma_first_tab(labels, active, max, 0);
    lemma_tabs_end(labels, first_tab(labels, active, max, 0), max, active + 1);
}

proof fn lemma_first_tab(labels: Seq<Seq<char>>, active: int, max: int, start: int)
    requires
        start <= active,
    ensures
        start <= first_tab(labels, active, max, start) <= active,
    decreases active - start,
{
    if start < active && range_width(labels, start, active + 1) > max {
        lemma_first_tab(labels, active, max, start + 1);
    }
}

proof fn lemma_tabs_end(labels: Seq<Seq<char>>, start: int, max: int, end: int)
    requires
        end <= labels.len(),
    ensures
        end <= tabs_end(labels, start, max, end) <= labels.len(),
    decreases labels.len() - end,
{
    if end < labels.len() && range_width(labels, start, end + 1) <= max {
        lemma_tabs_end(labels, start, max, end + 1);
    }
}

/// The line of the tabs of a page of a width.
pub fn tabs_page(state: &UiState, facts: &Facts, max_width: usize) -> (r: Vec<Piece>)
    ensures
        r.deep_view() == tab_line(
            tab_texts(
                state.deep_view().texts,
                tabs_of(facts.deep_view(), state.deep_view().filter),
            ),
            place_among(
                project_choices(facts.deep_view().trees),
                state.deep_view().filter.project,
            ),
            max_width as int,
        ),
{
    let tabs = project_tabs(facts, &state.filter);
    let options = project_options(facts.trees);
    let active: usize = choice_index(&options, &state.filter.project);
    project_tab_line(&state.catalog, &tabs, active, max_width)
}

/// A row of the table.
#[derive(Debug, PartialEq, Eq)]
pub struct SelectRow {
    pub mark: String,
    pub title: String,
    pub storage: String,
    pub id: String,
    pub location: String,
    pub runtime: String,
    pub last_activity: Option<i64>,
    pub nodes: String,
    pub status: String,
    pub reason: String,
    pub focused: bool,
    pub eligible: bool,
    pub weight: StorageLevel,
}

#[verifier::ext_equal]
pub struct SelectRowView {
    pub mark: Seq<char>,
    pub title: Seq<char>,
    pub storage: Seq<char>,
    pub id: Seq<char>,
    pub location: Seq<char>,
    pub runtime: Seq<char>,
    pub last_activity: Option<i64>,
    pub nodes: Seq<char>,
    pub status: Seq<char>,
    pub reason: Seq<char>,
    pub focused: bool,
    pub eligible: bool,
    pub weight: StorageLevel,
}

impl DeepView for SelectRow {
    type V = SelectRowView;

    open spec fn deep_view(&self) -> SelectRowView {
        SelectRowView {
            mark: self.mark@,
            title: self.title@,
            storage: self.storage@,
            id: self.id@,
            location: self.location@,
            runtime: self.runtime@,
            last_activity: self.last_activity,
            nodes: self.nodes@,
            status: self.status@,
            reason: self.reason@,
            focused: self.focused,
            eligible: self.eligible,
            weight: self.weight,
        }
    }
}

/// The first session with an id.
pub open spec fn first_with_id(nodes: Seq<SessionNodeView>, id: Seq<char>) -> Option<
    SessionNodeView,
>
    decreases nodes.len(),
{
    if nodes.len() == 0 {
        None
    } else if nodes[0].id == id {
        Some(nodes[0])
    } else {
        first_with_id(nodes.drop_first(), id)
    }
}

/// The session that stands for a tree: its root, else its first.
pub open spec fn face_of(tree: SessionTreeView) -> Option<SessionNodeView> {
    match first_with_id(tree.nodes, tree.root_id) {
        Some(node) => Some(node),
        None => if tree.nodes.len() > 0 {
            Some(tree.nodes[0])
        } else {
            None
        },
    }
}

/// The provider and the model of a session.
pub open spec fn runtime_word(node: SessionNodeView) -> Seq<char> {
    match (node.provider, node.model) {
        (Some(provider), Some(model)) => provider + "/"@ + model,
        (Some(provider), None) => provider,
        (None, Some(model)) => model,
        (None, None) => "-"@,
    }
}

/// The size of a tree.
pub open spec fn size_of(tree: SessionTreeView) -> Option<u64> {
    match total_size(tree.nodes) {
        Some(size) => Some(size as u64),
        None => None,
    }
}

/// A tree can be chosen.
pub open spec fn can_choose(tree: SessionTreeView, scope: Option<ScopeView>) -> bool {
    scope matches Some(scope) && scope.eligible.contains(tree.root_id)
}

/// Why a tree cannot be chosen, as its row says it.
pub open spec fn row_reason(ui: UiView, tree: SessionTreeView, scope: Option<ScopeView>) -> Seq<
    char,
> {
    let reason = if ui.action is Some && scope is Some && !can_choose(tree, scope) {
        row_words(ui.texts, tree, ui.action->0, scope->0)
    } else if tree.protection.len() > 0 {
        specific_words(ui.texts, tree.protection)
    } else {
        Seq::empty()
    };
    if reason.len() == 0 {
        "-"@
    } else {
        reason
    }
}

/// The row of a tree.
pub open spec fn row_of(
    ui: UiView,
    tree: SessionTreeView,
    scope: Option<ScopeView>,
    focused: bool,
) -> SelectRowView {
    let face = face_of(tree);
    SelectRowView {
        mark: (if focused {
            "›"@
        } else {
            " "@
        }) + mark_of(ui.selected, tree.root_id),
        title: match face {
            Some(node) => node.title,
            None => "-"@,
        },
        storage: shown_storage(size_of(tree)),
        id: id_start(tree.root_id),
        location: match face {
            Some(node) => place_of(node),
            None => "-"@,
        },
        runtime: match face {
            Some(node) => runtime_word(node),
            None => "-"@,
        },
        last_activity: tree.last_activity,
        nodes: decimal(tree.nodes.len() as int),
        status: said(
            ui,
            if fully_archived(tree.nodes) {
                "archived"@
            } else {
                "active"@
            },
        ),
        reason: row_reason(ui, tree, scope),
        focused,
        eligible: can_choose(tree, scope),
        weight: weight_of(size_of(tree)),
    }
}

/// What the action leaves to choose from.
pub open spec fn scope_for(ui: UiView, facts: FactsView) -> Option<ScopeView> {
    match ui.action {
        Some(action) => Some(scope_of(facts, ui.filter, action)),
        None => None,
    }
}

/// The rows of the table that so many lines show.
pub open spec fn rows_of(ui: UiView, facts: FactsView, lines: int) -> Seq<SelectRowView> {
    let trees = visible(facts, ui.filter);
    let index = clamped(ui.index as int, trees.len() as int);
    let start = window_at(index, trees.len() as int, lines);
    let end = smaller(start + lines, trees.len() as int);
    Seq::new(
        (end - start) as nat,
        |k: int| row_of(ui, trees[start + k], scope_for(ui, facts), start + k == index),
    )
}

fn face<'a>(tree: &'a SessionTree) -> (r: Option<&'a SessionNode>)
    ensures
        match r {
            Some(node) => face_of(tree.deep_view()) == Some(node.deep_view()),
            None => face_of(tree.deep_view()) is None,
        },
{
    let ghost all = tree.nodes.deep_view();
    let mut i: usize = 0;
    assert(all.skip(0) =~= all);
    while i < tree.nodes.len()
        invariant
            i <= tree.nodes@.len(),
            all == tree.nodes.deep_view(),
            first_with_id(all, tree.root_id@) == first_with_id(
                all.skip(i as int),
                tree.root_id@,
            ),
        decreases tree.nodes.len() - i,
    {
        proof {
            let rest = all.skip(i as int);
            assert(rest[0] == tree.nodes@[i as int].deep_view());
            assert(rest.drop_first() =~= all.skip(i as int + 1));
        }
        if same(tree.nodes[i].id.as_str(), tree.root_id.as_str()) {
            return Some(&tree.nodes[i]);
        }
        i += 1;
    }
    assert(all.len() == tree.nodes@.len());
    if tree.nodes.len() > 0 {
        assert(all[0] == tree.nodes@[0].deep_view());
        Some(&tree.nodes[0])
    } else {
        None
    }
}

fn runtime(node: &SessionNode) -> (r: String)
    ensures
        r@ == runtime_word(node.deep_view()),
{
    match (&node.provider, &node.model) {
        (Some(provider), Some(model)) => provider.clone().concat("/").concat(model.as_str()),
        (Some(provider), None) => provider.clone(),
        (None, Some(model)) => model.clone(),
        (None, None) => "-".to_owned(),
    }
}

/// A scope that may be missing, as a value.
pub open spec fn scope_view(scope: Option<ScopeSummary>) -> Option<ScopeView> {
    match scope {
        Some(scope) => Some(scope.deep_view()),
        None => None,
    }
}

fn make_row(
    state: &UiState,
    tree: &SessionTree,
    scope: &Option<ScopeSummary>,
    focused: bool,
) -> (r: SelectRow)
    ensures
        r.deep_view() == row_of(
            state.deep_view(),
            tree.deep_view(),
            scope_view(*scope),
            focused,
        ),
{
    let catalog = &state.catalog;
    let eligible = match scope {
        Some(scope) => scope.eligible.contains(tree.root_id.as_str()),
        None => false,
    };
    proof {
        assert(tree.protection.deep_view().len() == tree.protection@.len());
        assert(tree.nodes.deep_view().len() == tree.nodes@.len());
    }
    let own = if tree.protection.len() > 0 {
        specific_protection_message(catalog, &tree.protection)
    } else {
        let empty = String::new();
        assert(empty@ =~= Seq::<char>::empty());
        empty
    };
    let reason = match (state.action, scope) {
        (Some(action), Some(scope)) => if !eligible {
            row_blocked_message(catalog, tree, action, scope)
        } else {
            own
        },
        _ => own,
    };
    let reason = if chars_of(reason.as_str()).len() == 0 {
        "-".to_owned()
    } else {
        reason
    };
    let root = face(tree);
    let (title, location, running) = match root {
        Some(node) => (
            node.title.clone(),
            match &node.project {
                Some(project) => project.clone(),
                None => node.cwd.clone(),
            },
            runtime(node),
        ),
        None => ("-".to_owned(), "-".to_owned(), "-".to_owned()),
    };
    let storage = tree.storage_bytes();
    assert(storage == size_of(tree.deep_view()));
    SelectRow {
        mark: (if focused {
            "›"
        } else {
            " "
        }).to_owned().concat(selection_marker(&state.selected, tree.root_id.as_str())),
        title,
        storage: format_storage(storage),
        id: short_id(tree.root_id.as_str()),
        location,
        runtime: running,
        last_activity: tree.last_activity,
        nodes: decimal_text(tree.nodes.len() as u64),
        status: catalog.text(
            if tree.is_fully_archived() {
                "archived"
            } else {
                "active"
            },
        ).to_owned(),
        reason,
        focused,
        eligible,
        weight: storage_level(storage),
    }
}

/// The rows of the table that so many lines show.
pub fn select_rows(state: &UiState, facts: &Facts, lines: usize) -> (r: Vec<SelectRow>)
    ensures
        r.deep_view() == rows_of(state.deep_view(), facts.deep_view(), lines as int),
{
    let ghost ui = state.deep_view();
    let ghost fv = facts.deep_view();
    let trees = facts.filtered(&state.filter);
    let scope = match state.action {
        Some(action) => Some(scope_summary(facts, &state.filter, action)),
        None => None,
    };
    let ghost all = trees.deep_view();
    let ghost want = rows_of(ui, fv, lines as int);
    assert(all.len() == trees@.len());
    let index: usize = clamp_index(state.index, trees.len());
    let start: usize = window_start(index, trees.len(), lines);
    let end: usize = if lines <= trees.len() - start {
        start + lines
    } else {
        trees.len()
    };
    let mut r: Vec<SelectRow> = Vec::new();
    let mut i: usize = start;
    assert(r.deep_view() =~= want.take(0));
    while i < end
        invariant
            start <= i <= end <= trees@.len(),
            ui == state.deep_view(),
            all == trees.deep_view(),
            all == visible(fv, ui.filter),
            scope_view(scope) == scope_for(ui, fv),
            index == clamped(ui.index as int, all.len() as int),
            start == window_at(index as int, all.len() as int, lines as int),
            end == smaller(start + lines, all.len() as int),
            want == rows_of(ui, fv, lines as int),
            r.deep_view() == want.take(i - start),
        decreases end - i,
    {
        let ghost before = r.deep_view();
        let tree: &SessionTree = trees[i];
        assert(all[i as int] == tree.deep_view());
        let row = make_row(state, tree, &scope, i == index);
        proof {
            assert(want[i - start] == row_of(
                ui,
                all[start + (i - start)],
                scope_for(ui, fv),
                start + (i - start) == index,
            ));
        }
        r.push(row);
        assert(r.deep_view() =~= before.push(row.deep_view()));
        assert(r.deep_view() =~= want.take(i - start + 1));
        i += 1;
    }
    assert(want.take(end - start) =~= want);
    r
}

/// The table is wide enough for all columns.
pub fn is_wide(width: usize) -> (r: bool)
    ensures
        r == (width >= 125),
{
    width >= 125
}

/// The cells of a row: a narrow table leaves out the id, the place and the
/// model.
pub open spec fn cells_of(row: SelectRowView, wide: bool, last: Seq<char>) -> Seq<Seq<char>> {
    seq![row.mark, row.title, row.storage] + (if wide {
        seq![row.id, row.location, row.runtime]
    } else {
        Seq::empty()
    }) + seq![last, row.nodes, row.status, row.reason]
}

/// The cells of a row. How its last activity reads on the local clock is given.
pub fn row_cells(row: &SelectRow, wide: bool, last: String) -> (r: Vec<String>)
    ensures
        r.deep_view() == cells_of(row.deep_view(), wide, last@),
{
    let mut r: Vec<String> = Vec::new();
    r.push(row.mark.clone());
    r.push(row.title.clone());
    r.push(row.storage.clone());
    if wide {
        r.push(row.id.clone());
        r.push(row.location.clone());
        r.push(row.runtime.clone());
    }
    r.push(last);
    r.push(row.nodes.clone());
    r.push(row.status.clone());
    r.push(row.reason.clone());
    assert(r.deep_view() =~= cells_of(row.deep_view(), wide, last@));
    r
}

/// The heads of the columns.
pub open spec fn heads_of(texts: Texts, wide: bool) -> Seq<Seq<char>> {
    seq![Seq::empty(), text_under(texts, "column_title"@), text_under(texts, "storage"@)] + (
    if wide {
        seq![
            text_under(texts, "column_id"@),
            text_under(texts, "project"@),
            text_under(texts, "column_model"@),
            text_under(texts, "column_updated"@),
        ]
    } else {
        seq![text_under(texts, "column_date"@)]
    }) + seq![
        text_under(texts, "nodes"@),
        text_under(texts, "column_status"@),
        text_under(texts, "column_reason"@),
    ]
}

pub fn column_heads(catalog: &Catalog, wide: bool) -> (r: Vec<String>)
    ensures
        r.deep_view() == heads_of(catalog.texts(), wide),
{
    let mut r: Vec<String> = Vec::new();
    let empty = String::new();
    assert(empty@ =~= Seq::<char>::empty());
    r.push(empty);
    r.push(catalog.text("column_title").to_owned());
    r.push(catalog.text("storage").to_owned());
    if wide {
        r.push(catalog.text("column_id").to_owned());
        r.push(catalog.text("project").to_owned());
        r.push(catalog.text("column_model").to_owned());
        r.push(catalog.text("column_updated").to_owned());
    } else {
        r.push(catalog.text("column_date").to_owned());
    }
    r.push(catalog.text("nodes").to_owned());
    r.push(catalog.text("column_status").to_owned());
    r.push(catalog.text("column_reason").to_owned());
    assert(r.deep_view() =~= heads_of(catalog.texts(), wide));
    r
}

/// Every column has a head, and every row a cell in it.
pub proof fn law_rows_fill_columns(
    texts: Texts,
    row: SelectRowView,
    wide: bool,
    last: Seq<char>,
)
    ensures
        heads_of(texts, wide).len() == cells_of(row, wide, last).len(),
{
}

/// The title of the table.
pub fn select_title(state: &UiState, facts: &Facts) -> (r: String)
    ensures
        r@ == said(state.deep_view(), "step_select"@) + " · "@ + said(
            state.deep_view(),
            "selected"@,
        ) + " "@ + decimal(state.deep_view().selected.len() as int) + "/"@ + decimal(
            visible(facts.deep_view(), state.deep_view().filter).len() as int,
        ),
{
    let trees = facts.filtered(&state.filter);
    assert(trees.deep_view().len() == trees@.len());
    state.catalog.text("step_select").to_owned().concat(" · ").concat(
        state.catalog.text("selected"),
    ).concat(" ").concat(decimal_text(state.selected.len() as u64).as_str()).concat("/").concat(
        decimal_text(trees.len() as u64).as_str(),
    )
}

} // verus!
