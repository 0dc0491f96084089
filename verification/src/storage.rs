//! The record of plans and preferences: what may be written over what is
//! stored. The database itself stands outside; it reads and writes what these
//! functions take and give.

use crate::codex::maintenance::{batch_char, valid_batch_id};
use crate::domain::{
    action_name, action_of, copy_option, default_preferences, language_code, language_of,
    result_view, saturated, stored_result, Action, Cutoff, HistoryEntry, ItemResult,
    ItemResultView, Language, OperationStore, PendingBatch, PendingBatchView, Preferences,
    PreferencesView, VaultError, VaultErrorView,
};
use crate::ordered::{ordered_texts, TextMap, TextSet};
use crate::text::{
    chars_of, decimal, decimal_text, law_decimal_round_trip, law_signed_decimal_round_trip,
    parse_signed, parse_unsigned, same, same_ascii_case, same_ignoring_ascii_case,
    signed_decimal, signed_decimal_text, signed_value, text_between, unsigned_value,
};
use vstd::prelude::*;
use vstd::string::*;

verus! {

broadcast use vstd::group_vstd_default;

/// The stored preferences.
#[derive(Debug, PartialEq, Eq)]
pub struct PreferenceRow {
    pub language: String,
    pub cutoff_kind: String,
    pub cutoff_value: String,
    pub project: Option<String>,
    pub archived: Option<i64>,
}

#[verifier::ext_equal]
pub struct PreferenceRowView {
    pub language: Seq<char>,
    pub cutoff_kind: Seq<char>,
    pub cutoff_value: Seq<char>,
    pub project: Option<Seq<char>>,
    pub archived: Option<i64>,
}

impl DeepView for PreferenceRow {
    type V = PreferenceRowView;

    open spec fn deep_view(&self) -> PreferenceRowView {
        PreferenceRowView {
            language: self.language@,
            cutoff_kind: self.cutoff_kind@,
            cutoff_value: self.cutoff_value@,
            project: self.project.deep_view(),
            archived: self.archived,
        }
    }
}

/// How a cutoff is stored.
pub open spec fn stored_cutoff(cutoff: Cutoff) -> (Seq<char>, Seq<char>) {
    match cutoff {
        Cutoff::All => ("all"@, Seq::empty()),
        Cutoff::RollingDays(days) => ("rolling_days"@, decimal(days as int)),
        Cutoff::Absolute(epoch) => ("absolute"@, signed_decimal(epoch as int)),
    }
}

/// The cutoff that is stored. What cannot be read stands for the epoch, or for
/// thirty days.
pub open spec fn cutoff_stored(kind: Seq<char>, value: Seq<char>) -> Cutoff {
    if kind == "all"@ {
        Cutoff::All
    } else if kind == "absolute"@ {
        Cutoff::Absolute(
            match signed_value(value) {
                Some(n) => n as i64,
                None => 0,
            },
        )
    } else {
        Cutoff::RollingDays(
            match unsigned_value(value, u32::MAX as int) {
                Some(n) => n as u32,
                None => 30,
            },
        )
    }
}

/// How preferences are stored.
pub open spec fn preference_row(value: PreferencesView) -> PreferenceRowView {
    PreferenceRowView {
        language: language_code(value.language),
        cutoff_kind: stored_cutoff(value.cutoff).0,
        cutoff_value: stored_cutoff(value.cutoff).1,
        project: value.project,
        archived: match value.archived {
            Some(true) => Some(1i64),
            Some(false) => Some(0i64),
            None => None,
        },
    }
}

/// The preferences that are stored.
pub open spec fn preferences_of(row: PreferenceRowView) -> PreferencesView {
    PreferencesView {
        language: language_of(row.language),
        cutoff: cutoff_stored(row.cutoff_kind, row.cutoff_value),
        project: row.project,
        archived: match row.archived {
            Some(n) => Some(n != 0),
            None => None,
        },
    }
}

/// How preferences are stored.
pub fn encode_preferences(value: &Preferences) -> (r: PreferenceRow)
    ensures
        r.deep_view() == preference_row(value.deep_view()),
{
    let (cutoff_kind, cutoff_value) = match value.cutoff {
        Cutoff::All => {
            let empty = String::new();
            assert(empty@ =~= Seq::empty());
            ("all".to_owned(), empty)
        },
        Cutoff::RollingDays(days) => ("rolling_days".to_owned(), decimal_text(days as u64)),
        Cutoff::Absolute(epoch) => ("absolute".to_owned(), signed_decimal_text(epoch)),
    };
    PreferenceRow {
        language: value.language.code().to_owned(),
        cutoff_kind,
        cutoff_value,
        project: copy_option(&value.project),
        archived: match value.archived {
            Some(archived) => if archived {
                Some(1)
            } else {
                Some(0)
            },
            None => None,
        },
    }
}

/// The preferences that are stored; those of a first run where none are.
pub fn decode_preferences(row: Option<PreferenceRow>) -> (r: Preferences)
    ensures
        r.deep_view() == match row.deep_view() {
            Some(row) => preferences_of(row),
            None => default_preferences(),
        },
{
    let row = match row {
        Some(row) => row,
        None => {
            return Preferences::default();
        },
    };
    let kind = row.cutoff_kind.as_str();
    let value = row.cutoff_value.as_str();
    let cutoff = if same(kind, "all") {
        Cutoff::All
    } else if same(kind, "absolute") {
        Cutoff::Absolute(
            match parse_signed(value) {
                Some(n) => n,
                None => 0,
            },
        )
    } else {
        Cutoff::RollingDays(
            match parse_unsigned(value, u32::MAX as u64) {
                Some(n) => n as u32,
                None => 30,
            },
        )
    };
    Preferences {
        language: Language::parse(row.language.as_str()),
        cutoff,
        project: row.project,
        archived: match row.archived {
            Some(n) => Some(n != 0),
            None => None,
        },
    }
}

/// What is read back is what was saved.
pub proof fn law_preferences_round_trip(value: PreferencesView)
    ensures
        preferences_of(preference_row(value)) == value,
{
    crate::domain::law_language_round_trip(value.language);
    reveal_strlit("all");
    reveal_strlit("absolute");
    reveal_strlit("rolling_days");
    match value.cutoff {
        Cutoff::All => {},
        Cutoff::RollingDays(days) => {
            assert("rolling_days"@.len() == 12 && "all"@.len() == 3 && "absolute"@.len() == 8);
            law_decimal_round_trip(days as int);
        },
        Cutoff::Absolute(epoch) => {
            assert("all"@.len() == 3 && "absolute"@.len() == 8);
            law_signed_decimal_round_trip(epoch);
        },
    }
}

/// The step of the record's layout is one that this program knows.
pub fn check_version(version: i64) -> (r: Result<(), VaultError>)
    ensures
        if 0 <= version <= 2 {
            r is Ok
        } else {
            r matches Err(error) && error.deep_view() == VaultErrorView::Storage(
                "unsupported database schema version "@ + signed_decimal(version as int),
            )
        },
{
    if 0 <= version && version <= 2 {
        Ok(())
    } else {
        Err(
            VaultError::Storage(
                "unsupported database schema version ".to_owned().concat(
                    signed_decimal_text(version).as_str(),
                ),
            ),
        )
    }
}

/// The columns that a table must have.
pub open spec fn required_columns(table: Seq<char>, version: i64) -> Seq<Seq<char>> {
    if table == "preferences"@ {
        seq![
            "singleton"@,
            "language"@,
            "cutoff_kind"@,
            "cutoff_value"@,
            "project"@,
            "archived"@,
            "updated_at"@,
        ]
    } else if table == "operation_batches"@ {
        let always = seq!["id"@, "action"@, "created_at"@, "planned_count"@, "status"@];
        if version == 2 {
            always.push("plan_key"@)
        } else {
            always
        }
    } else {
        seq!["batch_id"@, "session_id"@, "action"@, "result"@, "completed_at"@]
    }
}

/// What is wrong with one table.
pub open spec fn table_problem(
    tables: Map<Seq<char>, Set<Seq<char>>>,
    table: Seq<char>,
    version: i64,
) -> Option<Seq<char>> {
    if !tables.contains_key(table) {
        Some("existing database is missing table "@ + table)
    } else if exists|i: int|
        0 <= i < required_columns(table, version).len() && !tables[table].contains(
            #[trigger] required_columns(table, version)[i],
        ) {
        Some("existing table "@ + table + " has an incompatible schema"@)
    } else {
        None
    }
}

/// What is wrong with the tables of a database that has any.
pub open spec fn schema_problem(
    tables: Map<Seq<char>, Set<Seq<char>>>,
    version: i64,
) -> Option<Seq<char>> {
    match table_problem(tables, "preferences"@, version) {
        Some(problem) => Some(problem),
        None => match table_problem(tables, "operation_batches"@, version) {
            Some(problem) => Some(problem),
            None => table_problem(tables, "operation_items"@, version),
        },
    }
}

fn columns_for(table: &str, version: i64) -> (r: Vec<&'static str>)
    ensures
        r@.map_values(|column: &'static str| column@) == required_columns(table@, version),
{
    let r = if same(table, "preferences") {
        vec![
            "singleton",
            "language",
            "cutoff_kind",
            "cutoff_value",
            "project",
            "archived",
            "updated_at",
        ]
    } else if same(table, "operation_batches") {
        if version == 2 {
            vec!["id", "action", "created_at", "planned_count", "status", "plan_key"]
        } else {
            vec!["id", "action", "created_at", "planned_count", "status"]
        }
    } else {
        vec!["batch_id", "session_id", "action", "result", "completed_at"]
    };
    assert(r@.map_values(|column: &'static str| column@) =~= required_columns(table@, version));
    r
}

fn check_table(tables: &TextMap<TextSet>, table: &str, version: i64) -> (r: Result<(), VaultError>)
    ensures
        match table_problem(tables@, table@, version) {
            Some(problem) => r matches Err(error) && error.deep_view() == VaultErrorView::Storage(
                problem,
            ),
            None => r is Ok,
        },
{
    let columns = match tables.get(table) {
        Some(columns) => columns,
        None => {
            return Err(
                VaultError::Storage(
                    "existing database is missing table ".to_owned().concat(table),
                ),
            );
        },
    };
    let required = columns_for(table, version);
    let ghost all = required_columns(table@, version);
    let mut i: usize = 0;
    while i < required.len()
        invariant
            i <= required@.len(),
            all == required_columns(table@, version),
            all == required@.map_values(|column: &'static str| column@),
            tables@.contains_key(table@),
            tables@[table@] == columns@,
            forall|k: int| 0 <= k < i ==> columns@.contains(#[trigger] all[k]),
        decreases required.len() - i,
    {
        assert(all[i as int] == required@[i as int]@);
        if !columns.contains(required[i]) {
            return Err(
                VaultError::Storage(
                    "existing table ".to_owned().concat(table).concat(
                        " has an incompatible schema",
                    ),
                ),
            );
        }
        i += 1;
    }
    Ok(())
}

/// Accepts the tables of a database, given by their columns, or says what is
/// wrong with them. A database without tables is new.
pub fn validate_existing_schema(tables: &TextMap<TextSet>, version: i64) -> (r: Result<
    (),
    VaultError,
>)
    ensures
        match schema_problem(tables@, version) {
            Some(problem) => if tables@.dom().len() == 0 {
                r is Ok
            } else {
                r matches Err(error) && error.deep_view() == VaultErrorView::Storage(problem)
            },
            None => r is Ok,
        },
{
    if tables.len() == 0 {
        return Ok(());
    }
    match check_table(tables, "preferences", version) {
        Ok(()) => {},
        Err(error) => {
            return Err(error);
        },
    }
    match check_table(tables, "operation_batches", version) {
        Ok(()) => {},
        Err(error) => {
            return Err(error);
        },
    }
    check_table(tables, "operation_items", version)
}

/// A database of an earlier layout still lacks the keys of its plans.
pub fn lacks_plan_keys(tables: &TextMap<TextSet>, version: i64) -> (r: bool)
    ensures
        r == (version < 2 && tables@.contains_key("operation_batches"@)),
{
    version < 2 && tables.get("operation_batches").is_some()
}

/// What a probe of the record showed, with what became of undoing it.
pub fn probe_result(
    probe: Result<(), String>,
    rollback: Result<(), String>,
    release: Result<(), String>,
) -> (r: Result<(), VaultError>)
    ensures
        result_view(r) == probed_write(
            result_view(probe),
            result_view(rollback),
            result_view(release),
        ),
{
    let cleanup = match (rollback, release) {
        (Ok(()), Ok(())) => None,
        (Err(rollback), Ok(())) => Some(
            "rollback failed: ".to_owned().concat(rollback.as_str()),
        ),
        (Ok(()), Err(release)) => Some("release failed: ".to_owned().concat(release.as_str())),
        (Err(rollback), Err(release)) => Some(
            "rollback failed: ".to_owned().concat(rollback.as_str()).concat(
                "; release failed: ",
            ).concat(release.as_str()),
        ),
    };
    match (probe, cleanup) {
        (Ok(()), None) => Ok(()),
        (Err(problem), None) => Err(VaultError::Storage(problem)),
        (Ok(()), Some(cleanup)) => Err(
            VaultError::Storage(
                "write probe cleanup failed: ".to_owned().concat(cleanup.as_str()),
            ),
        ),
        (Err(problem), Some(cleanup)) => Err(
            VaultError::Storage(
                "write probe failed: ".to_owned().concat(problem.as_str()).concat(
                    "; cleanup failed: ",
                ).concat(cleanup.as_str()),
            ),
        ),
    }
}

/// What a probe of the record showed, with what became of undoing it.
pub open spec fn probed_write(
    probe: Result<(), Seq<char>>,
    rollback: Result<(), Seq<char>>,
    release: Result<(), Seq<char>>,
) -> Result<(), VaultErrorView> {
    let cleanup = match (rollback, release) {
        (Ok(_), Ok(_)) => None,
        (Err(rollback), Ok(_)) => Some("rollback failed: "@ + rollback),
        (Ok(_), Err(release)) => Some("release failed: "@ + release),
        (Err(rollback), Err(release)) => Some(
            "rollback failed: "@ + rollback + "; release failed: "@ + release,
        ),
    };
    match (probe, cleanup) {
        (Ok(_), None) => Ok(()),
        (Err(problem), None) => Err(VaultErrorView::Storage(problem)),
        (Ok(_), Some(cleanup)) => Err(
            VaultErrorView::Storage("write probe cleanup failed: "@ + cleanup),
        ),
        (Err(problem), Some(cleanup)) => Err(
            VaultErrorView::Storage(
                "write probe failed: "@ + problem + "; cleanup failed: "@ + cleanup,
            ),
        ),
    }
}

/// A stored item of a plan.
#[derive(Debug, PartialEq, Eq)]
pub struct StoredItem {
    pub action: String,
    pub result: Option<String>,
    pub completed_at: Option<i64>,
}

#[verifier::ext_equal]
pub struct StoredItemView {
    pub action: Seq<char>,
    pub result: Option<Seq<char>>,
    pub completed_at: Option<i64>,
}

impl DeepView for StoredItem {
    type V = StoredItemView;

    open spec fn deep_view(&self) -> StoredItemView {
        StoredItemView {
            action: self.action@,
            result: self.result.deep_view(),
            completed_at: self.completed_at,
        }
    }
}

/// A stored plan.
pub struct StoredBatch {
    pub id: String,
    pub action: String,
    pub planned_count: usize,
    pub status: String,
    pub items: TextMap<StoredItem>,
}

#[verifier::ext_equal]
pub struct StoredBatchView {
    pub id: Seq<char>,
    pub action: Seq<char>,
    pub planned_count: usize,
    pub status: Seq<char>,
    pub items: Map<Seq<char>, StoredItemView>,
}

impl DeepView for StoredBatch {
    type V = StoredBatchView;

    open spec fn deep_view(&self) -> StoredBatchView {
        StoredBatchView {
            id: self.id@,
            action: self.action@,
            planned_count: self.planned_count,
            status: self.status@,
            items: self.items@,
        }
    }
}

/// A result that a new attempt leaves alone.
pub open spec fn lasting(result: Option<Seq<char>>) -> bool {
    result == Some("success"@) || result == Some("skipped"@) || result is None
}

/// An item at the beginning of an attempt.
pub open spec fn renewed(item: StoredItemView) -> StoredItemView {
    if lasting(item.result) {
        item
    } else {
        StoredItemView { result: None, completed_at: None, ..item }
    }
}

/// The items at the beginning of an attempt: what is stored, renewed, and what
/// is missing.
pub open spec fn items_begun(
    items: Map<Seq<char>, StoredItemView>,
    ids: Set<Seq<char>>,
    action: Seq<char>,
) -> Map<Seq<char>, StoredItemView> {
    Map::new(
        |id: Seq<char>| items.contains_key(id) || ids.contains(id),
        |id: Seq<char>|
            if items.contains_key(id) {
                renewed(items[id])
            } else {
                StoredItemView { action, result: None, completed_at: None }
            },
    )
}

/// The plan at the beginning of an attempt. A plan that is stored under the same
/// key is taken up again; it must be the same plan.
pub open spec fn begun(
    stored: Option<StoredBatchView>,
    new_id: Seq<char>,
    action: Action,
    ids: Seq<Seq<char>>,
) -> Result<StoredBatchView, VaultErrorView> {
    let batch = match stored {
        Some(batch) => batch,
        None => StoredBatchView {
            id: new_id,
            action: action_name(action),
            planned_count: ids.len() as usize,
            status: "executing"@,
            items: Map::empty(),
        },
    };
    if batch.action != action_name(action) || batch.planned_count != ids.len() {
        Err(
            VaultErrorView::Storage(
                "incompatible existing plan: Query returned no rows"@,
            ),
        )
    } else {
        let items = items_begun(batch.items, ids.to_set(), action_name(action));
        if items.dom() != ids.to_set() || !ids.no_duplicates() {
            Err(VaultErrorView::Storage("existing immutable plan has a different node set"@))
        } else {
            Ok(StoredBatchView { status: "executing"@, items, ..batch })
        }
    }
}

fn renew(item: &StoredItem) -> (r: StoredItem)
    ensures
        r.deep_view() == renewed(item.deep_view()),
{
    let keep = match &item.result {
        Some(result) => same(result.as_str(), "success") || same(result.as_str(), "skipped"),
        None => true,
    };
    if keep {
        StoredItem {
            action: item.action.clone(),
            result: copy_option(&item.result),
            completed_at: item.completed_at,
        }
    } else {
        StoredItem { action: item.action.clone(), result: None, completed_at: None }
    }
}

fn begin_items(
    items: &TextMap<StoredItem>,
    node_ids: &Vec<String>,
    action: Action,
) -> (r: TextMap<StoredItem>)
    ensures
        r@ == items_begun(items@, node_ids.deep_view().to_set(), action_name(action)),
{
    let ghost ids = node_ids.deep_view();
    let ghost want = items_begun(items@, ids.to_set(), action_name(action));
    let mut r: TextMap<StoredItem> = TextMap::new();
    let known = items.keys();
    let ghost all = known.deep_view();
    let mut i: usize = 0;
    while i < known.len()
        invariant
            i <= known@.len(),
            all == known.deep_view(),
            all.to_set() == items@.dom(),
            want == items_begun(items@, ids.to_set(), action_name(action)),
            forall|id: Seq<char>| #[trigger]
                r@.contains_key(id) ==> want.contains_key(id) && r@[id] == want[id],
            forall|k: int| 0 <= k < i ==> r@.contains_key(#[trigger] all[k]),
        decreases known.len() - i,
    {
        proof {
            assert(all[i as int] == known@[i as int]@);
            assert(all.to_set().contains(all[i as int]));
        }
        match items.get(known[i].as_str()) {
            Some(item) => {
                r.insert(known[i].clone(), renew(item));
            },
            None => {},
        }
        i += 1;
    }
    proof {
        assert forall|id: Seq<char>| items@.contains_key(id) implies r@.contains_key(id) by {
            assert(all.to_set().contains(id));
            let k = all.index_of(id);
            assert(all[k] == id);
        }
    }
    let mut j: usize = 0;
    while j < node_ids.len()
        invariant
            j <= node_ids@.len(),
            ids == node_ids.deep_view(),
            want == items_begun(items@, ids.to_set(), action_name(action)),
            forall|id: Seq<char>| #[trigger]
                r@.contains_key(id) ==> want.contains_key(id) && r@[id] == want[id],
            forall|id: Seq<char>| items@.contains_key(id) ==> #[trigger] r@.contains_key(id),
            forall|k: int| 0 <= k < j ==> r@.contains_key(#[trigger] ids[k]),
        decreases node_ids.len() - j,
    {
        proof {
            assert(ids[j as int] == node_ids@[j as int]@);
            assert(ids.to_set().contains(ids[j as int]));
        }
        if r.get(node_ids[j].as_str()).is_none() {
            r.insert(
                node_ids[j].clone(),
                StoredItem {
                    action: action.as_str().to_owned(),
                    result: None,
                    completed_at: None,
                },
            );
        }
        j += 1;
    }
    proof {
        assert forall|id: Seq<char>| want.contains_key(id) implies r@.contains_key(id) by {
            if !items@.contains_key(id) {
                assert(ids.to_set().contains(id));
                let k = ids.index_of(id);
                assert(ids[k] == id);
            }
        }
        assert(r@ =~= want);
    }
    r
}

fn distinct(ids: &Vec<String>) -> (r: bool)
    ensures
        r == ids.deep_view().no_duplicates(),
{
    let ghost all = ids.deep_view();
    let mut seen = TextSet::new();
    let mut i: usize = 0;
    while i < ids.len()
        invariant
            i <= ids@.len(),
            all == ids.deep_view(),
            seen@ == all.take(i as int).to_set(),
            all.take(i as int).no_duplicates(),
        decreases ids.len() - i,
    {
        let ghost before = all.take(i as int);
        let ghost after = all.take(i as int + 1);
        proof {
            assert(all[i as int] == ids@[i as int]@);
            assert(after =~= before.push(all[i as int]));
        }
        if !seen.insert(ids[i].clone()) {
            proof {
                let k = before.index_of(all[i as int]);
                assert(all[k] == all[i as int]);
            }
            return false;
        }
        proof {
            assert forall|id: Seq<char>|
                after.to_set().contains(id) <==> before.to_set().contains(id) || id
                    == all[i as int] by {
                if before.contains(id) {
                    let k = before.index_of(id);
                    assert(after[k] == id);
                }
                assert(after[i as int] == all[i as int]);
                if after.contains(id) {
                    let k = after.index_of(id);
                    if k < i {
                        assert(before[k] == id);
                    }
                }
            }
            assert(seen@ =~= after.to_set());
            assert forall|a: int, b: int|
                0 <= a < after.len() && 0 <= b < after.len() && a != b implies after[a]
                != after[b] by {
                if a < i && b < i {
                    assert(before[a] != before[b]);
                } else if a < i {
                    assert(before.contains(before[a]));
                } else {
                    assert(before.contains(before[b]));
                }
            }
        }
        i += 1;
    }
    assert(all.take(i as int) =~= all);
    true
}

fn holds_exactly(items: &TextMap<StoredItem>, ids: &Vec<String>) -> (r: bool)
    requires
        forall|k: int| 0 <= k < ids@.len() ==> items@.contains_key(#[trigger] ids.deep_view()[k]),
    ensures
        r == (items@.dom() == ids.deep_view().to_set()),
{
    let ghost all = ids.deep_view();
    let keys = items.keys();
    let ghost held = keys.deep_view();
    let mut wanted = TextSet::new();
    crate::codex::draft::add_all(&mut wanted, ids);
    assert(wanted@ =~= all.to_set());
    let mut i: usize = 0;
    while i < keys.len()
        invariant
            i <= keys@.len(),
            held == keys.deep_view(),
            held.to_set() == items@.dom(),
            all == ids.deep_view(),
            wanted@ == all.to_set(),
            forall|k: int| 0 <= k < i ==> wanted@.contains(#[trigger] held[k]),
        decreases keys.len() - i,
    {
        proof {
            assert(held[i as int] == keys@[i as int]@);
            assert(held.to_set().contains(held[i as int]));
        }
        if !wanted.contains(keys[i].as_str()) {
            return false;
        }
        i += 1;
    }
    proof {
        assert forall|id: Seq<char>| items@.dom().contains(id) implies all.to_set().contains(
            id,
        ) by {
            assert(held.to_set().contains(id));
            let k = held.index_of(id);
            assert(held[k] == id);
        }
        assert forall|id: Seq<char>| all.to_set().contains(id) implies items@.dom().contains(
            id,
        ) by {
            let k = all.index_of(id);
            assert(all[k] == id);
        }
        assert(items@.dom() =~= all.to_set());
    }
    true
}

/// Begins a plan, or takes up the one that is stored under the same key.
pub fn begin_batch(
    stored: Option<StoredBatch>,
    new_id: &str,
    action: Action,
    node_ids: &Vec<String>,
) -> (r: Result<StoredBatch, VaultError>)
    ensures
        result_view(r) == begun(stored.deep_view(), new_id@, action, node_ids.deep_view()),
{
    let batch = match stored {
        Some(batch) => batch,
        None => StoredBatch {
            id: new_id.to_owned(),
            action: action.as_str().to_owned(),
            planned_count: node_ids.len(),
            status: "executing".to_owned(),
            items: TextMap::new(),
        },
    };
    if !same(batch.action.as_str(), action.as_str()) || batch.planned_count != node_ids.len() {
        return Err(
            VaultError::Storage(
                "incompatible existing plan: Query returned no rows".to_owned(),
            ),
        );
    }
    let items = begin_items(&batch.items, node_ids, action);
    proof {
        assert forall|k: int| 0 <= k < node_ids@.len() implies items@.contains_key(
            #[trigger] node_ids.deep_view()[k],
        ) by {
            assert(node_ids.deep_view().to_set().contains(node_ids.deep_view()[k]));
        }
    }
    let exact = holds_exactly(&items, node_ids);
    let once = distinct(node_ids);
    if !exact || !once {
        return Err(
            VaultError::Storage(
                "existing immutable plan has a different node set".to_owned(),
            ),
        );
    }
    Ok(
        StoredBatch {
            id: batch.id,
            action: batch.action,
            planned_count: batch.planned_count,
            status: "executing".to_owned(),
            items,
        },
    )
}

/// Beginning the same plan again takes up the same record.
pub proof fn law_plan_is_idempotent(
    new_id: Seq<char>,
    other_id: Seq<char>,
    action: Action,
    ids: Seq<Seq<char>>,
)
    requires
        begun(None, new_id, action, ids) is Ok,
    ensures
        begun(Some(begun(None, new_id, action, ids)->Ok_0), other_id, action, ids) == begun(
            None,
            new_id,
            action,
            ids,
        ),
{
    let first = begun(None, new_id, action, ids)->Ok_0;
    assert(items_begun(first.items, ids.to_set(), action_name(action)) =~= first.items);
}

/// A stored plan cannot be taken up with other sessions.
pub proof fn law_plan_is_immutable(
    stored: StoredBatchView,
    new_id: Seq<char>,
    action: Action,
    ids: Seq<Seq<char>>,
)
    requires
        stored.items.dom().finite(),
        stored.items.dom().len() == stored.planned_count,
        begun(Some(stored), new_id, action, ids) is Ok,
    ensures
        ids.to_set() == stored.items.dom(),
        begun(Some(stored), new_id, action, ids)->Ok_0.id == stored.id,
        stored.action == action_name(action),
{
    let items = items_begun(stored.items, ids.to_set(), action_name(action));
    assert forall|id: Seq<char>| stored.items.dom().contains(id) implies ids.to_set().contains(
        id,
    ) by {
        assert(items.dom().contains(id));
    }
    ids.unique_seq_to_set();
    vstd::seq_lib::seq_to_set_is_finite(ids);
    vstd::set_lib::lemma_subset_equality(stored.items.dom(), ids.to_set());
}

/// A stored result that says that the attempt failed.
pub open spec fn says_failed(result: Seq<char>) -> bool {
    result.len() >= 7 && same_ignoring_ascii_case(result.take(7), "failed:"@)
}

/// A stored result may be replaced by another: nothing, an interruption and a
/// failure may, and a result by itself.
pub open spec fn may_replace(stored: Option<Seq<char>>, value: Seq<char>) -> bool {
    match stored {
        None => true,
        Some(result) => result == "interrupted"@ || says_failed(result) || result == value,
    }
}

fn can_replace(stored: &Option<String>, value: &str) -> (r: bool)
    ensures
        r == may_replace(stored.deep_view(), value@),
{
    match stored {
        None => true,
        Some(result) => {
            let text = result.as_str();
            let v = chars_of(text);
            let failed = v.len() >= 7 && same_ascii_case(
                text_between(&v, 0, 7).as_str(),
                "failed:",
            );
            proof {
                if v@.len() >= 7 {
                    assert(v@.subrange(0, 7) =~= result@.take(7));
                }
            }
            failed || same(text, "interrupted") || same(text, value)
        },
    }
}

/// The first session, by its id, whose stored result stands in the way.
pub open spec fn conflicts(
    items: Map<Seq<char>, StoredItemView>,
    results: Map<Seq<char>, ItemResultView>,
) -> Seq<Seq<char>> {
    ordered_texts(results.dom()).filter(
        |id: Seq<char>|
            !(items.contains_key(id) && may_replace(items[id].result, stored_result(results[id]))),
    )
}

/// The items with their results.
pub open spec fn items_completed(
    items: Map<Seq<char>, StoredItemView>,
    results: Map<Seq<char>, ItemResultView>,
    completed_at: i64,
) -> Map<Seq<char>, StoredItemView> {
    items.map_entries(
        |id: Seq<char>, item: StoredItemView|
            StoredItemView {
                result: Some(stored_result(results[id])),
                completed_at: Some(completed_at),
                ..item
            },
    )
}

/// The items of a plan that is complete. The results must be those of its
/// sessions, and replace nothing that was seen to be done.
pub open spec fn completed(
    batch_id: Seq<char>,
    stored: Option<Map<Seq<char>, StoredItemView>>,
    results: Map<Seq<char>, ItemResultView>,
    completed_at: i64,
) -> Result<Map<Seq<char>, StoredItemView>, VaultErrorView> {
    let items = match stored {
        Some(items) => items,
        None => Map::empty(),
    };
    if items.dom() != results.dom() {
        Err(
            VaultErrorView::Storage("result set does not match immutable plan "@ + batch_id),
        )
    } else if conflicts(items, results).len() > 0 {
        Err(
            VaultErrorView::Storage(
                "operation item is missing or has a conflicting observed result: "@ + batch_id
                    + "/"@ + conflicts(items, results)[0],
            ),
        )
    } else if stored is None {
        Err(VaultErrorView::Storage("operation batch is missing: "@ + batch_id))
    } else {
        Ok(items_completed(items, results, completed_at))
    }
}

fn same_keys(items: &TextMap<StoredItem>, results: &TextMap<ItemResult>) -> (r: bool)
    ensures
        r == (items@.dom() == results@.dom()),
{
    let a = items.keys();
    let b = results.keys();
    let r = crate::text::same_texts(a, b);
    proof {
        if items@.dom() == results@.dom() {
            assert(a.deep_view() == b.deep_view());
        }
    }
    r
}

fn first_conflict(items: &TextMap<StoredItem>, results: &TextMap<ItemResult>) -> (r: Option<
    String,
>)
    ensures
        match r {
            Some(id) => conflicts(items@, results@).len() > 0 && conflicts(items@, results@)[0]
                == id@,
            None => conflicts(items@, results@).len() == 0,
        },
{
    let ids = results.keys();
    let ghost all = ids.deep_view();
    let ghost keep = |id: Seq<char>|
        !(items@.contains_key(id) && may_replace(items@[id].result, stored_result(results@[id])));
    let mut i: usize = 0;
    while i < ids.len()
        invariant
            i <= ids@.len(),
            all == ids.deep_view(),
            all == ordered_texts(results@.dom()),
            all.to_set() == results@.dom(),
            keep == (|id: Seq<char>|
                !(items@.contains_key(id) && may_replace(
                    items@[id].result,
                    stored_result(results@[id]),
                ))),
            forall|k: int| 0 <= k < i ==> !keep(#[trigger] all[k]),
        decreases ids.len() - i,
    {
        let id = ids[i].as_str();
        proof {
            assert(all[i as int] == id@);
            assert(all.to_set().contains(all[i as int]));
        }
        let fine = match (items.get(id), results.get(id)) {
            (Some(item), Some(result)) => can_replace(
                &item.result,
                result.as_storage_value().as_str(),
            ),
            _ => false,
        };
        if !fine {
            proof {
                crate::codex::pins::lemma_first_kept(all, keep, i as int);
            }
            return Some(ids[i].clone());
        }
        i += 1;
    }
    proof {
        crate::codex::pins::lemma_first_kept(all, keep, i as int);
    }
    None
}

fn complete_items(
    items: &TextMap<StoredItem>,
    results: &TextMap<ItemResult>,
    completed_at: i64,
) -> (r: TextMap<StoredItem>)
    requires
        items@.dom() == results@.dom(),
    ensures
        r@ == items_completed(items@, results@, completed_at),
{
    let ids = items.keys();
    let ghost all = ids.deep_view();
    let ghost want = items_completed(items@, results@, completed_at);
    let mut r: TextMap<StoredItem> = TextMap::new();
    let mut i: usize = 0;
    while i < ids.len()
        invariant
            i <= ids@.len(),
            all == ids.deep_view(),
            all.to_set() == items@.dom(),
            items@.dom() == results@.dom(),
            want == items_completed(items@, results@, completed_at),
            forall|id: Seq<char>| #[trigger]
                r@.contains_key(id) ==> want.contains_key(id) && r@[id] == want[id],
            forall|k: int| 0 <= k < i ==> r@.contains_key(#[trigger] all[k]),
        decreases ids.len() - i,
    {
        let id = ids[i].as_str();
        proof {
            assert(all[i as int] == id@);
            assert(all.to_set().contains(all[i as int]));
            assert(results@.dom().contains(id@));
        }
        match (items.get(id), results.get(id)) {
            (Some(item), Some(result)) => {
                r.insert(
                    ids[i].clone(),
                    StoredItem {
                        action: item.action.clone(),
                        result: Some(result.as_storage_value()),
                        completed_at: Some(completed_at),
                    },
                );
            },
            _ => {},
        }
        i += 1;
    }
    proof {
        assert forall|id: Seq<char>| want.contains_key(id) implies r@.contains_key(id) by {
            assert(all.to_set().contains(id));
            let k = all.index_of(id);
            assert(all[k] == id);
        }
        assert(r@ =~= want);
    }
    r
}

/// The stored items, as values.
pub open spec fn items_view(stored: Option<TextMap<StoredItem>>) -> Option<
    Map<Seq<char>, StoredItemView>,
> {
    match stored {
        Some(items) => Some(items@),
        None => None,
    }
}

/// Completes a plan with the results of its sessions.
pub fn complete_batch(
    batch_id: &str,
    stored: Option<TextMap<StoredItem>>,
    results: &TextMap<ItemResult>,
    completed_at: i64,
) -> (r: Result<TextMap<StoredItem>, VaultError>)
    ensures
        result_view(r) == completed(batch_id@, items_view(stored), results@, completed_at),
{
    let known = stored.is_some();
    let items = match stored {
        Some(items) => items,
        None => TextMap::new(),
    };
    if !same_keys(&items, results) {
        return Err(
            VaultError::Storage(
                "result set does not match immutable plan ".to_owned().concat(batch_id),
            ),
        );
    }
    match first_conflict(&items, results) {
        Some(id) => {
            return Err(
                VaultError::Storage(
                    "operation item is missing or has a conflicting observed result: ".to_owned().concat(
                    batch_id).concat("/").concat(id.as_str()),
                ),
            );
        },
        None => {},
    }
    if !known {
        return Err(
            VaultError::Storage("operation batch is missing: ".to_owned().concat(batch_id)),
        );
    }
    Ok(complete_items(&items, results, completed_at))
}

/// What was seen to be done is never written over: a session that is recorded as
/// done stays recorded as done.
pub proof fn law_observed_success_stays(
    batch_id: Seq<char>,
    items: Map<Seq<char>, StoredItemView>,
    results: Map<Seq<char>, ItemResultView>,
    completed_at: i64,
    id: Seq<char>,
)
    requires
        items.dom().finite(),
        completed(batch_id, Some(items), results, completed_at) is Ok,
        items.contains_key(id),
        items[id].result == Some("success"@) || items[id].result == Some("skipped"@),
    ensures
        completed(batch_id, Some(items), results, completed_at)->Ok_0[id].result
            == items[id].result,
{
    let keep = |id: Seq<char>|
        !(items.contains_key(id) && may_replace(items[id].result, stored_result(results[id])));
    crate::codex::pins::lemma_none_kept(results.dom(), keep, id);
    assert(may_replace(items[id].result, stored_result(results[id])));
    reveal_strlit("success");
    reveal_strlit("skipped");
    reveal_strlit("failed:");
    reveal_strlit("interrupted");
    let done = items[id].result->0;
    assert("interrupted"@.len() == 11 && "success"@.len() == 7 && "skipped"@.len() == 7);
    assert(!says_failed(done)) by {
        assert(done.take(7)[0] == 's');
        assert("failed:"@[0] == 'f');
        assert(crate::text::ascii_lower(done.take(7)[0]) != crate::text::ascii_lower(
            "failed:"@[0],
        ));
    }
}

/// A row of a plan that is not complete.
#[derive(Debug, PartialEq, Eq)]
pub struct PendingRow {
    pub batch_id: String,
    pub action: String,
    pub node_id: String,
}

#[verifier::ext_equal]
pub struct PendingRowView {
    pub batch_id: Seq<char>,
    pub action: Seq<char>,
    pub node_id: Seq<char>,
}

impl DeepView for PendingRow {
    type V = PendingRowView;

    open spec fn deep_view(&self) -> PendingRowView {
        PendingRowView {
            batch_id: self.batch_id@,
            action: self.action@,
            node_id: self.node_id@,
        }
    }
}

/// The rows as values.
pub open spec fn pending_view(rows: Seq<Result<PendingRow, String>>) -> Seq<
    Result<PendingRowView, Seq<char>>,
> {
    rows.map_values(|row: Result<PendingRow, String>| result_view(row))
}

/// The plans of the rows, or the first thing that is wrong with one.
pub open spec fn grouped(rows: Seq<Result<PendingRowView, Seq<char>>>) -> Result<
    Map<Seq<char>, PendingBatchView>,
    VaultErrorView,
>
    decreases rows.len(),
{
    if rows.len() == 0 {
        Ok(Map::empty())
    } else {
        match grouped(rows.drop_last()) {
            Err(error) => Err(error),
            Ok(batches) => match rows.last() {
                Err(problem) => Err(VaultErrorView::Storage(problem)),
                Ok(row) => match action_of(row.action) {
                    None => Err(
                        VaultErrorView::Storage(
                            "unknown action in pending batch "@ + row.batch_id,
                        ),
                    ),
                    Some(action) => {
                        let known = if batches.contains_key(row.batch_id) {
                            batches[row.batch_id]
                        } else {
                            PendingBatchView {
                                batch_id: row.batch_id,
                                action,
                                node_ids: Seq::empty(),
                            }
                        };
                        if known.action != action {
                            Err(
                                VaultErrorView::Storage(
                                    "pending batch contains conflicting actions"@,
                                ),
                            )
                        } else {
                            Ok(
                                batches.insert(
                                    row.batch_id,
                                    PendingBatchView {
                                        node_ids: known.node_ids.push(row.node_id),
                                        ..known
                                    },
                                ),
                            )
                        }
                    },
                },
            },
        }
    }
}

/// The plans that are not complete, by their ids.
pub open spec fn pending_of(rows: Seq<Result<PendingRowView, Seq<char>>>) -> Result<
    Seq<PendingBatchView>,
    VaultErrorView,
> {
    match grouped(rows) {
        Err(error) => Err(error),
        Ok(batches) => Ok(
            ordered_texts(batches.dom()).map_values(|id: Seq<char>| batches[id]),
        ),
    }
}

proof fn lemma_grouped_fails(rows: Seq<Result<PendingRowView, Seq<char>>>, i: int)
    requires
        0 <= i <= rows.len(),
        grouped(rows.take(i)) is Err,
    ensures
        grouped(rows) == grouped(rows.take(i)),
    decreases rows.len() - i,
{
    if i < rows.len() {
        assert(rows.take(i + 1).drop_last() =~= rows.take(i));
        lemma_grouped_fails(rows, i + 1);
    } else {
        assert(rows.take(i) =~= rows);
    }
}

fn group_rows(rows: &Vec<Result<PendingRow, String>>) -> (r: Result<
    TextMap<PendingBatch>,
    VaultError,
>)
    ensures
        result_view(r) == grouped(pending_view(rows@)),
{
    let ghost all = pending_view(rows@);
    let mut batches: TextMap<PendingBatch> = TextMap::new();
    let mut i: usize = 0;
    assert(all.take(0) =~= Seq::empty());
    while i < rows.len()
        invariant
            i <= rows@.len(),
            all == pending_view(rows@),
            grouped(all.take(i as int)) == Ok::<Map<Seq<char>, PendingBatchView>, VaultErrorView>(
                batches@,
            ),
        decreases rows.len() - i,
    {
        let ghost before = batches@;
        proof {
            assert(all.take(i as int + 1).drop_last() =~= all.take(i as int));
            assert(all.take(i as int + 1).last() == result_view(rows@[i as int]));
            if grouped(all.take(i as int + 1)) is Err {
                lemma_grouped_fails(all, i as int + 1);
            }
        }
        match &rows[i] {
            Err(problem) => {
                return Err(VaultError::Storage(problem.clone()));
            },
            Ok(row) => {
                let action = match Action::parse(row.action.as_str()) {
                    Some(action) => action,
                    None => {
                        return Err(
                            VaultError::Storage(
                                "unknown action in pending batch ".to_owned().concat(
                                    row.batch_id.as_str(),
                                ),
                            ),
                        );
                    },
                };
                let mut known = match batches.remove(row.batch_id.as_str()) {
                    Some(known) => known,
                    None => {
                        let node_ids: Vec<String> = Vec::new();
                        assert(node_ids.deep_view() =~= Seq::empty());
                        PendingBatch { batch_id: row.batch_id.clone(), action, node_ids }
                    },
                };
                if known.action != action {
                    return Err(
                        VaultError::Storage(
                            "pending batch contains conflicting actions".to_owned(),
                        ),
                    );
                }
                let ghost ids = known.node_ids.deep_view();
                known.node_ids.push(row.node_id.clone());
                assert(known.node_ids.deep_view() =~= ids.push(row.node_id@));
                let ghost view = known.deep_view();
                batches.insert(row.batch_id.clone(), known);
                assert(batches@ =~= before.insert(row.batch_id@, view));
            },
        }
        i += 1;
    }
    assert(all.take(i as int) =~= all);
    Ok(batches)
}

/// Puts the rows of plans that are not complete together.
pub fn pending_batches(rows: &Vec<Result<PendingRow, String>>) -> (r: Result<
    Vec<PendingBatch>,
    VaultError,
>)
    ensures
        result_view(r) == pending_of(pending_view(rows@)),
{
    let mut batches = match group_rows(rows) {
        Ok(batches) => batches,
        Err(error) => {
            return Err(error);
        },
    };
    let ghost map = batches@;
    let ids = crate::text::copy_texts(batches.keys());
    let ghost all = ids.deep_view();
    let ghost want = ordered_texts(map.dom()).map_values(|id: Seq<char>| map[id]);
    let mut r: Vec<PendingBatch> = Vec::new();
    let mut i: usize = 0;
    proof {
        assert(all == ordered_texts(map.dom()));
        assert(r.deep_view() =~= want.take(0));
    }
    while i < ids.len()
        invariant
            i <= ids@.len(),
            all == ids.deep_view(),
            all == ordered_texts(map.dom()),
            all.to_set() == map.dom(),
            crate::ordered::ascending(all),
            want == all.map_values(|id: Seq<char>| map[id]),
            forall|id: Seq<char>| #[trigger]
                batches@.contains_key(id) ==> map.contains_key(id) && batches@[id] == map[id],
            forall|k: int| i <= k < all.len() ==> batches@.contains_key(#[trigger] all[k]),
            r.deep_view() == want.take(i as int),
        decreases ids.len() - i,
    {
        let ghost before = r.deep_view();
        proof {
            assert(all[i as int] == ids@[i as int]@);
            crate::ordered::lemma_ascending_distinct(all);
        }
        match batches.remove(ids[i].as_str()) {
            Some(batch) => {
                let ghost view = batch.deep_view();
                r.push(batch);
                assert(r.deep_view() =~= before.push(view));
                assert(r.deep_view() =~= want.take(i as int + 1));
            },
            None => {},
        }
        i += 1;
    }
    assert(want.take(i as int) =~= want);
    Ok(r)
}

/// The second before which a record of so many days is old.
pub fn retention_cutoff(now: i64, retention_days: u32) -> (r: i64)
    ensures
        r == saturated(now - retention_days * 86_400),
{
    Cutoff::RollingDays(retention_days).epoch_seconds(now)
}

/// A stored count; one that does not fit stands for the largest.
pub fn stored_count(value: i64) -> (r: usize)
    ensures
        r == if 0 <= value <= usize::MAX {
            value as usize
        } else {
            usize::MAX
        },
{
    if value < 0 {
        return usize::MAX;
    }
    let magnitude: u64 = value as u64;
    if magnitude <= usize::MAX as u64 {
        magnitude as usize
    } else {
        usize::MAX
    }
}

/// The file that keeps a second process out.
pub fn lock_path(path: &str) -> (r: String)
    ensures
        r@ == path@ + ".lock"@,
{
    path.to_owned().concat(".lock")
}

/// A hexadecimal digit.
pub open spec fn hex_digit(d: int) -> char {
    if d <= 0 {
        '0'
    } else if d == 1 {
        '1'
    } else if d == 2 {
        '2'
    } else if d == 3 {
        '3'
    } else if d == 4 {
        '4'
    } else if d == 5 {
        '5'
    } else if d == 6 {
        '6'
    } else if d == 7 {
        '7'
    } else if d == 8 {
        '8'
    } else if d == 9 {
        '9'
    } else if d == 10 {
        'a'
    } else if d == 11 {
        'b'
    } else if d == 12 {
        'c'
    } else if d == 13 {
        'd'
    } else if d == 14 {
        'e'
    } else {
        'f'
    }
}

/// The hexadecimal form of a number.
pub open spec fn hex(n: int) -> Seq<char>
    decreases n,
{
    if n < 16 {
        seq![hex_digit(n)]
    } else {
        hex(n / 16).push(hex_digit(n % 16))
    }
}

fn digit_of(d: u128) -> (c: char)
    requires
        d < 16,
    ensures
        c == hex_digit(d as int),
{
    if d == 0 {
        '0'
    } else if d == 1 {
        '1'
    } else if d == 2 {
        '2'
    } else if d == 3 {
        '3'
    } else if d == 4 {
        '4'
    } else if d == 5 {
        '5'
    } else if d == 6 {
        '6'
    } else if d == 7 {
        '7'
    } else if d == 8 {
        '8'
    } else if d == 9 {
        '9'
    } else if d == 10 {
        'a'
    } else if d == 11 {
        'b'
    } else if d == 12 {
        'c'
    } else if d == 13 {
        'd'
    } else if d == 14 {
        'e'
    } else {
        'f'
    }
}

fn push_hex(s: &mut String, n: u128)
    ensures
        final(s)@ == old(s)@ + hex(n as int),
    decreases n,
{
    if n >= 16 {
        push_hex(s, n / 16);
    }
    s.push(digit_of(n % 16));
    assert(s@ =~= old(s)@ + hex(n as int));
}

/// The id of a new batch, by the nanoseconds since the epoch and the number of
/// the process.
pub open spec fn batch_id_of(nanos: u128, process: u32) -> Seq<char> {
    "batch-"@ + hex(nanos as int) + "-"@ + hex(process as int)
}

pub fn new_batch_id(nanos: u128, process: u32) -> (r: String)
    ensures
        r@ == batch_id_of(nanos, process),
{
    let mut r = "batch-".to_owned();
    push_hex(&mut r, nanos);
    r.append("-");
    push_hex(&mut r, process as u128);
    r
}

/// The id of a new batch can name the directory of its backups.
pub proof fn law_new_batch_id_is_valid(nanos: u128, process: u32)
    ensures
        valid_batch_id(batch_id_of(nanos, process)),
{
    reveal_strlit("batch-");
    reveal_strlit("-");
    lemma_hex_chars(nanos as int);
    lemma_hex_chars(process as int);
    let id = batch_id_of(nanos, process);
    let n = hex(nanos as int).len() as int;
    assert forall|i: int| 0 <= i < id.len() implies batch_char(#[trigger] id[i]) by {
        if i < 6 {
            assert(id[i] == "batch-"@[i]);
        } else if i < 6 + n {
            assert(id[i] == hex(nanos as int)[i - 6]);
        } else if i == 6 + n {
            assert(id[i] == '-');
        } else {
            assert(id[i] == hex(process as int)[i - 7 - n]);
        }
    }
}

proof fn lemma_hex_chars(n: int)
    requires
        n >= 0,
    ensures
        forall|i: int| 0 <= i < hex(n).len() ==> batch_char(#[trigger] hex(n)[i]),
    decreases n,
{
    if n >= 16 {
        lemma_hex_chars(n / 16);
        let head = hex(n / 16);
        assert forall|i: int| 0 <= i < hex(n).len() implies batch_char(#[trigger] hex(n)[i]) by {
            if i < head.len() {
                assert(hex(n)[i] == head[i]);
            }
        }
    }
}

/// A record that can be written, or why it can only be read.
pub enum StorageBackend<S> {
    Ready(S),
    ReadOnly(String),
}

impl<S: OperationStore> OperationStore for StorageBackend<S> {
    fn write_ready(&self) -> (r: Result<(), VaultError>)
        ensures
            match self {
                StorageBackend::Ready(store) => call_ensures(S::write_ready, (store,), r),
                StorageBackend::ReadOnly(reason) => r matches Err(error) && error.deep_view()
                    == VaultErrorView::Storage(reason@),
            },
    {
        match self {
            StorageBackend::Ready(store) => store.write_ready(),
            StorageBackend::ReadOnly(reason) => Err(VaultError::Storage(reason.clone())),
        }
    }

    fn load_preferences(&self) -> (r: Result<Preferences, VaultError>)
        ensures
            match self {
                StorageBackend::Ready(store) => call_ensures(S::load_preferences, (store,), r),
                StorageBackend::ReadOnly(_) => r matches Ok(value) && value.deep_view()
                    == default_preferences(),
            },
    {
        match self {
            StorageBackend::Ready(store) => store.load_preferences(),
            StorageBackend::ReadOnly(_) => Ok(Preferences::default()),
        }
    }

    fn save_preferences(&mut self, value: &Preferences) -> (r: Result<(), VaultError>)
        ensures
            *old(self) matches StorageBackend::ReadOnly(reason) ==> *final(self) == *old(self)
                && (r matches Err(error) && error.deep_view() == VaultErrorView::Storage(
                reason@,
            )),
            *old(self) matches StorageBackend::Ready(before) ==> (*final(
                self) matches StorageBackend::Ready(after) && exists|m: &mut S|
                *m == before && *final(m) == after && #[trigger] call_ensures(
                    S::save_preferences,
                    (m, value),
                    r,
                )),
    {
        match self {
            StorageBackend::Ready(store) => store.save_preferences(value),
            StorageBackend::ReadOnly(reason) => Err(VaultError::Storage(reason.clone())),
        }
    }

    fn begin_batch(
        &mut self,
        plan_key: &str,
        action: Action,
        created_at: i64,
        node_ids: &Vec<String>,
    ) -> (r: Result<String, VaultError>)
        ensures
            *old(self) matches StorageBackend::ReadOnly(reason) ==> *final(self) == *old(self)
                && (r matches Err(error) && error.deep_view() == VaultErrorView::Storage(
                reason@,
            )),
            *old(self) matches StorageBackend::Ready(before) ==> (*final(
                self) matches StorageBackend::Ready(after) && exists|m: &mut S|
                *m == before && *final(m) == after && #[trigger] call_ensures(
                    S::begin_batch,
                    (m, plan_key, action, created_at, node_ids),
                    r,
                )),
    {
        match self {
            StorageBackend::Ready(store) => store.begin_batch(
                plan_key,
                action,
                created_at,
                node_ids,
            ),
            StorageBackend::ReadOnly(reason) => Err(VaultError::Storage(reason.clone())),
        }
    }

    fn complete_batch(
        &mut self,
        batch_id: &str,
        results: &TextMap<ItemResult>,
        status: &str,
        completed_at: i64,
    ) -> (r: Result<(), VaultError>)
        ensures
            *old(self) matches StorageBackend::ReadOnly(reason) ==> *final(self) == *old(self)
                && (r matches Err(error) && error.deep_view() == VaultErrorView::Storage(
                reason@,
            )),
            *old(self) matches StorageBackend::Ready(before) ==> (*final(
                self) matches StorageBackend::Ready(after) && exists|m: &mut S|
                *m == before && *final(m) == after && #[trigger] call_ensures(
                    S::complete_batch,
                    (m, batch_id, results, status, completed_at),
                    r,
                )),
    {
        match self {
            StorageBackend::Ready(store) => store.complete_batch(
                batch_id,
                results,
                status,
                completed_at,
            ),
            StorageBackend::ReadOnly(reason) => Err(VaultError::Storage(reason.clone())),
        }
    }

    fn pending_batches(&self) -> (r: Result<Vec<PendingBatch>, VaultError>)
        ensures
            match self {
                StorageBackend::Ready(store) => call_ensures(S::pending_batches, (store,), r),
                StorageBackend::ReadOnly(reason) => r matches Err(error) && error.deep_view()
                    == VaultErrorView::Storage(reason@),
            },
    {
        match self {
            StorageBackend::Ready(store) => store.pending_batches(),
            StorageBackend::ReadOnly(reason) => Err(VaultError::Storage(reason.clone())),
        }
    }

    fn prune(&mut self, now: i64, retention_days: u32) -> (r: Result<usize, VaultError>)
        ensures
            *old(self) is ReadOnly ==> *final(self) == *old(self) && (r matches Ok(n) && n == 0),
            *old(self) matches StorageBackend::Ready(before) ==> (*final(
                self) matches StorageBackend::Ready(after) && exists|m: &mut S|
                *m == before && *final(m) == after && #[trigger] call_ensures(
                    S::prune,
                    (m, now, retention_days),
                    r,
                )),
    {
        match self {
            StorageBackend::Ready(store) => store.prune(now, retention_days),
            StorageBackend::ReadOnly(_) => Ok(0),
        }
    }

    fn history(&self, limit: usize) -> (r: Result<Vec<HistoryEntry>, VaultError>)
        ensures
            match self {
                StorageBackend::Ready(store) => call_ensures(S::history, (store, limit), r),
                StorageBackend::ReadOnly(_) => r matches Ok(entries) && entries@.len() == 0,
            },
    {
        match self {
            StorageBackend::Ready(store) => store.history(limit),
            StorageBackend::ReadOnly(_) => Ok(Vec::new()),
        }
    }
}

} // verus!
