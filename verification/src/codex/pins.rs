//! Whether threads are pinned: two filtered listings must agree with each
//! other and with what the threads say, else the catalog decides.

use crate::domain::result_view;
use crate::ordered::{lemma_ordered_members, ordered_texts, TextMap, TextSet};
use crate::text::{decimal, decimal_text, join, joined};
use vstd::prelude::*;
use vstd::string::*;

verus! {

broadcast use vstd::group_vstd_default;

/// The ids whose stated pin differs from the resolved one, in string order.
pub open spec fn pin_conflicts(
    resolved: Map<Seq<char>, bool>,
    explicit: Map<Seq<char>, bool>,
) -> Seq<Seq<char>> {
    ordered_texts(explicit.dom()).filter(
        |id: Seq<char>| !(resolved.contains_key(id) && resolved[id] == explicit[id]),
    )
}

/// What is wrong with resolved pins, given those that threads state.
pub open spec fn explicit_problem(
    resolved: Map<Seq<char>, bool>,
    explicit: Map<Seq<char>, bool>,
) -> Option<Seq<char>> {
    let conflicts = pin_conflicts(resolved, explicit);
    if conflicts.len() > 0 {
        Some("explicit pin state conflicts with the verified source for "@ + conflicts[0])
    } else {
        None
    }
}

/// The ids that neither listing shows, in string order.
pub open spec fn uncovered(
    expected: Set<Seq<char>>,
    pinned: Set<Seq<char>>,
    unpinned: Set<Seq<char>>,
) -> Seq<Seq<char>> {
    ordered_texts(expected).filter(
        |id: Seq<char>| !pinned.contains(id) && !unpinned.contains(id),
    )
}

/// The pins that the listings give.
pub open spec fn listed_pins(
    expected: Set<Seq<char>>,
    pinned: Set<Seq<char>>,
) -> Map<Seq<char>, bool> {
    Map::new(|id: Seq<char>| expected.contains(id), |id: Seq<char>| pinned.contains(id))
}

/// Both listings show some thread.
pub open spec fn overlap(pinned: Set<Seq<char>>, unpinned: Set<Seq<char>>) -> bool {
    exists|id: Seq<char>| #[trigger] pinned.contains(id) && unpinned.contains(id)
}

/// A listing shows a thread that is not expected.
pub open spec fn unexpected(
    expected: Set<Seq<char>>,
    pinned: Set<Seq<char>>,
    unpinned: Set<Seq<char>>,
) -> bool {
    exists|id: Seq<char>|
        (#[trigger] pinned.contains(id) || unpinned.contains(id)) && !expected.contains(id)
}

/// The pins of the expected threads, or why they cannot be told.
pub open spec fn pin_partition(
    expected: Set<Seq<char>>,
    explicit: Map<Seq<char>, bool>,
    pinned: Set<Seq<char>>,
    unpinned: Set<Seq<char>>,
) -> Result<Map<Seq<char>, bool>, Seq<char>> {
    if overlap(pinned, unpinned) {
        Err("app-server pin filters overlap"@)
    } else if uncovered(expected, pinned, unpinned).len() > 0 {
        Err(
            "app-server pin filters do not cover thread "@ + uncovered(
                expected,
                pinned,
                unpinned,
            )[0],
        )
    } else if unexpected(expected, pinned, unpinned) {
        Err("app-server pin filters returned an unexpected thread"@)
    } else {
        let resolved = listed_pins(expected, pinned);
        match explicit_problem(resolved, explicit) {
            Some(problem) => Err(problem),
            None => Ok(resolved),
        }
    }
}

/// The first element that a filter keeps.
pub proof fn lemma_first_kept(s: Seq<Seq<char>>, keep: spec_fn(Seq<char>) -> bool, i: int)
    requires
        0 <= i <= s.len(),
        forall|k: int| 0 <= k < i ==> !keep(#[trigger] s[k]),
    ensures
        i < s.len() && keep(s[i]) ==> s.filter(keep).len() > 0 && s.filter(keep)[0] == s[i],
        i == s.len() ==> s.filter(keep).len() == 0,
    decreases s.len(),
{
    reveal(Seq::filter);
    if s.len() > 0 {
        let head = s.drop_last();
        if i < s.len() {
            assert forall|k: int| 0 <= k < i implies !keep(#[trigger] head[k]) by {
                assert(head[k] == s[k]);
            }
            lemma_first_kept(head, keep, i);
        } else {
            assert forall|k: int| 0 <= k < i - 1 implies !keep(#[trigger] head[k]) by {
                assert(head[k] == s[k]);
            }
            lemma_first_kept(head, keep, i - 1);
            assert(!keep(s[s.len() - 1]));
        }
    }
}

/// Whether resolved pins agree with those that threads state.
pub fn validate_explicit_pin_states(
    resolved: &TextMap<bool>,
    explicit: &TextMap<bool>,
) -> (r: Result<(), String>)
    ensures
        match explicit_problem(resolved@, explicit@) {
            Some(problem) => r matches Err(text) && text@ == problem,
            None => r is Ok,
        },
{
    let ids = explicit.keys();
    let ghost keep = |id: Seq<char>|
        !(resolved@.contains_key(id) && resolved@[id] == explicit@[id]);
    let ghost all = ids.deep_view();
    let mut i: usize = 0;
    while i < ids.len()
        invariant
            i <= ids@.len(),
            all == ids.deep_view(),
            all == ordered_texts(explicit@.dom()),
            all.to_set() == explicit@.dom(),
            keep == (|id: Seq<char>|
                !(resolved@.contains_key(id) && resolved@[id] == explicit@[id])),
            forall|k: int| 0 <= k < i ==> !keep(#[trigger] all[k]),
        decreases ids.len() - i,
    {
        let id = ids[i].as_str();
        proof {
            assert(all[i as int] == id@);
            assert(all.to_set().contains(all[i as int]));
        }
        let observed = match explicit.get(id) {
            Some(value) => *value,
            None => false,
        };
        let agrees = match resolved.get(id) {
            Some(value) => *value == observed,
            None => false,
        };
        if !agrees {
            proof {
                assert(keep(all[i as int]));
                lemma_first_kept(all, keep, i as int);
            }
            return Err(
                "explicit pin state conflicts with the verified source for ".to_owned().concat(id),
            );
        }
        i += 1;
    }
    proof {
        lemma_first_kept(all, keep, i as int);
    }
    Ok(())
}

fn shares_member(a: &TextSet, b: &TextSet) -> (r: bool)
    ensures
        r == overlap(a@, b@),
{
    let ids = a.items();
    let mut i: usize = 0;
    while i < ids.len()
        invariant
            i <= ids@.len(),
            ids.deep_view().to_set() == a@,
            forall|k: int| 0 <= k < i ==> !b@.contains(#[trigger] ids.deep_view()[k]),
        decreases ids.len() - i,
    {
        proof {
            assert(ids.deep_view()[i as int] == ids@[i as int]@);
            assert(ids.deep_view().to_set().contains(ids.deep_view()[i as int]));
        }
        if b.contains(ids[i].as_str()) {
            assert(a@.contains(ids@[i as int]@));
            return true;
        }
        i += 1;
    }
    proof {
        assert forall|id: Seq<char>| #[trigger] a@.contains(id) implies !b@.contains(id) by {
            assert(ids.deep_view().to_set().contains(id));
            let k = ids.deep_view().index_of(id);
            assert(ids.deep_view()[k] == id);
        }
    }
    false
}

/// Whether every member of `a` is in `b`.
pub fn all_in(a: &TextSet, b: &TextSet) -> (r: bool)
    ensures
        r == a@.subset_of(b@),
{
    let ids = a.items();
    let mut i: usize = 0;
    while i < ids.len()
        invariant
            i <= ids@.len(),
            ids.deep_view().to_set() == a@,
            forall|k: int| 0 <= k < i ==> b@.contains(#[trigger] ids.deep_view()[k]),
        decreases ids.len() - i,
    {
        proof {
            assert(ids.deep_view()[i as int] == ids@[i as int]@);
            assert(ids.deep_view().to_set().contains(ids.deep_view()[i as int]));
        }
        if !b.contains(ids[i].as_str()) {
            assert(a@.contains(ids@[i as int]@));
            return false;
        }
        i += 1;
    }
    proof {
        assert forall|id: Seq<char>| a@.contains(id) implies b@.contains(id) by {
            assert(ids.deep_view().to_set().contains(id));
            let k = ids.deep_view().index_of(id);
            assert(ids.deep_view()[k] == id);
        }
    }
    true
}

/// Tells the pins of the expected threads from two filtered listings.
pub fn resolve_pin_partition(
    expected_ids: &TextSet,
    explicit: &TextMap<bool>,
    pinned_ids: &TextSet,
    unpinned_ids: &TextSet,
) -> (r: Result<TextMap<bool>, String>)
    ensures
        result_view(r) == pin_partition(expected_ids@, explicit@, pinned_ids@, unpinned_ids@),
{
    if shares_member(pinned_ids, unpinned_ids) {
        return Err("app-server pin filters overlap".to_owned());
    }
    let ids = expected_ids.items();
    let ghost all = ids.deep_view();
    let ghost keep = |id: Seq<char>| !pinned_ids@.contains(id) && !unpinned_ids@.contains(id);
    let mut resolved: TextMap<bool> = TextMap::new();
    let mut i: usize = 0;
    while i < ids.len()
        invariant
            i <= ids@.len(),
            !overlap(pinned_ids@, unpinned_ids@),
            all == ids.deep_view(),
            all == ordered_texts(expected_ids@),
            all.to_set() == expected_ids@,
            keep == (|id: Seq<char>| !pinned_ids@.contains(id) && !unpinned_ids@.contains(id)),
            forall|k: int|
                0 <= k < i ==> !keep(#[trigger] all[k]) && resolved@.contains_key(all[k]),
            forall|id: Seq<char>| #[trigger]
                resolved@.contains_key(id) ==> expected_ids@.contains(id) && resolved@[id]
                    == pinned_ids@.contains(id),
        decreases ids.len() - i,
    {
        let id = ids[i].as_str();
        proof {
            assert(all[i as int] == id@);
            assert(all.to_set().contains(all[i as int]));
        }
        let value = if pinned_ids.contains(id) {
            true
        } else if unpinned_ids.contains(id) {
            false
        } else {
            proof {
                assert(keep(all[i as int]));
                lemma_first_kept(all, keep, i as int);
            }
            return Err("app-server pin filters do not cover thread ".to_owned().concat(id));
        };
        resolved.insert(ids[i].clone(), value);
        i += 1;
    }
    proof {
        lemma_first_kept(all, keep, i as int);
        assert forall|id: Seq<char>| expected_ids@.contains(id) implies resolved@.contains_key(
            id,
        ) by {
            assert(all.to_set().contains(id));
            let k = all.index_of(id);
            assert(resolved@.contains_key(all[k]));
        }
        assert(resolved@ =~= listed_pins(expected_ids@, pinned_ids@));
    }
    if !all_in(pinned_ids, expected_ids) || !all_in(unpinned_ids, expected_ids) {
        return Err("app-server pin filters returned an unexpected thread".to_owned());
    }
    match validate_explicit_pin_states(&resolved, explicit) {
        Ok(_) => Ok(resolved),
        Err(problem) => Err(problem),
    }
}

/// Where the listings settle the pins, each expected thread is in exactly one
/// of them, its pin is the one of that listing, and no thread contradicts it.
pub proof fn law_pins_are_proven(
    expected: Set<Seq<char>>,
    explicit: Map<Seq<char>, bool>,
    pinned: Set<Seq<char>>,
    unpinned: Set<Seq<char>>,
    id: Seq<char>,
)
    requires
        pin_partition(expected, explicit, pinned, unpinned) is Ok,
        expected.finite(),
        explicit.dom().finite(),
    ensures
        ({
            let resolved = pin_partition(expected, explicit, pinned, unpinned)->Ok_0;
            &&& resolved.contains_key(id) <==> expected.contains(id)
            &&& expected.contains(id) ==> (pinned.contains(id) != unpinned.contains(id))
            &&& expected.contains(id) ==> resolved[id] == pinned.contains(id)
            &&& explicit.contains_key(id) ==> resolved.contains_key(id) && resolved[id]
                == explicit[id]
            &&& pinned.contains(id) || unpinned.contains(id) ==> expected.contains(id)
        }),
{
    let resolved = listed_pins(expected, pinned);
    if expected.contains(id) {
        lemma_none_kept(
            expected,
            |x: Seq<char>| !pinned.contains(x) && !unpinned.contains(x),
            id,
        );
    }
    if explicit.contains_key(id) {
        lemma_none_kept(
            explicit.dom(),
            |x: Seq<char>| !(resolved.contains_key(x) && resolved[x] == explicit[x]),
            id,
        );
    }
}

pub proof fn lemma_none_kept(s: Set<Seq<char>>, keep: spec_fn(Seq<char>) -> bool, id: Seq<char>)
    requires
        s.finite(),
        s.contains(id),
        ordered_texts(s).filter(keep).len() == 0,
    ensures
        !keep(id),
{
    lemma_ordered_members(s);
    let q = ordered_texts(s);
    assert(q.to_set().contains(id));
    crate::ordered::lemma_filter_member(q, keep, id);
    if keep(id) {
        assert(q.filter(keep).contains(id));
    }
}

/// A row of pins.
pub struct PinRow {
    pub id: Result<String, String>,
    /// None where the cell holds no integer.
    pub pinned: Result<Option<i64>, String>,
}

#[verifier::ext_equal]
pub struct PinRowView {
    pub id: Result<Seq<char>, Seq<char>>,
    pub pinned: Result<Option<i64>, Seq<char>>,
}

impl DeepView for PinRow {
    type V = PinRowView;

    open spec fn deep_view(&self) -> PinRowView {
        PinRowView { id: result_view(self.id), pinned: result_view(self.pinned) }
    }
}

/// The pins of the rows, or the first thing that is wrong.
pub open spec fn row_pins(rows: Seq<Result<PinRowView, Seq<char>>>) -> Result<
    Map<Seq<char>, bool>,
    Seq<char>,
>
    decreases rows.len(),
{
    if rows.len() == 0 {
        Ok(Map::empty())
    } else {
        match row_pins(rows.drop_last()) {
            Err(problem) => Err(problem),
            Ok(values) => match rows.last() {
                Err(problem) => Err("cannot read pin-state row: "@ + problem),
                Ok(row) => match row.id {
                    Err(problem) => Err("thread id is not text: "@ + problem),
                    Ok(id) => match row.pinned {
                        Err(problem) => Err(
                            "is_pinned cannot be read for "@ + id + ": "@ + problem,
                        ),
                        Ok(cell) => if cell != Some(0i64) && cell != Some(1i64) {
                            Err("is_pinned for "@ + id + " is not 0 or 1"@)
                        } else if values.contains_key(id) {
                            Err("duplicate pin-state row for "@ + id)
                        } else {
                            Ok(values.insert(id, cell == Some(1i64)))
                        },
                    },
                },
            },
        }
    }
}

/// The first three of the expected ids that have no pin.
pub open spec fn missing_pins(
    expected: Set<Seq<char>>,
    values: Map<Seq<char>, bool>,
) -> Seq<Seq<char>> {
    let missing = ordered_texts(expected).filter(|id: Seq<char>| !values.contains_key(id));
    if missing.len() > 3 {
        missing.take(3)
    } else {
        missing
    }
}

/// The pins that rows give for the expected ids.
pub open spec fn covering_pins(
    rows: Seq<Result<PinRowView, Seq<char>>>,
    expected: Set<Seq<char>>,
) -> Result<Map<Seq<char>, bool>, Seq<char>> {
    match row_pins(rows) {
        Err(problem) => Err(problem),
        Ok(values) => if missing_pins(expected, values).len() > 0 {
            Err(
                "pin-state rows do not cover every scanned thread (missing: "@ + joined(
                    missing_pins(expected, values),
                    ", "@,
                ) + ")"@,
            )
        } else {
            Ok(values)
        },
    }
}

/// The rows as values.
pub open spec fn pin_rows_view(rows: Seq<Result<PinRow, String>>) -> Seq<
    Result<PinRowView, Seq<char>>,
> {
    rows.map_values(|row: Result<PinRow, String>| result_view(row))
}

proof fn lemma_row_pins_fails(rows: Seq<Result<PinRowView, Seq<char>>>, i: int)
    requires
        0 <= i <= rows.len(),
        row_pins(rows.take(i)) is Err,
    ensures
        row_pins(rows) == row_pins(rows.take(i)),
    decreases rows.len() - i,
{
    if i < rows.len() {
        assert(rows.take(i + 1).drop_last() =~= rows.take(i));
        lemma_row_pins_fails(rows, i + 1);
    } else {
        assert(rows.take(i) =~= rows);
    }
}

fn read_pin_rows(rows: &Vec<Result<PinRow, String>>) -> (r: Result<TextMap<bool>, String>)
    ensures
        result_view(r) == row_pins(pin_rows_view(rows@)),
{
    let ghost all = pin_rows_view(rows@);
    let mut values: TextMap<bool> = TextMap::new();
    let mut i: usize = 0;
    assert(all.take(0) =~= Seq::empty());
    while i < rows.len()
        invariant
            i <= rows@.len(),
            all == pin_rows_view(rows@),
            row_pins(all.take(i as int)) == Ok::<Map<Seq<char>, bool>, Seq<char>>(values@),
        decreases rows.len() - i,
    {
        proof {
            assert(all.take(i as int + 1).drop_last() =~= all.take(i as int));
            assert(all.take(i as int + 1).last() == result_view(rows@[i as int]));
            if row_pins(all.take(i as int + 1)) is Err {
                lemma_row_pins_fails(all, i as int + 1);
            }
        }
        let row = match &rows[i] {
            Ok(row) => row,
            Err(problem) => {
                return Err("cannot read pin-state row: ".to_owned().concat(problem.as_str()));
            },
        };
        let id = match &row.id {
            Ok(id) => id,
            Err(problem) => {
                return Err("thread id is not text: ".to_owned().concat(problem.as_str()));
            },
        };
        let pinned = match &row.pinned {
            Ok(Some(n)) => if *n == 0 {
                Some(false)
            } else if *n == 1 {
                Some(true)
            } else {
                None
            },
            Ok(None) => None,
            Err(problem) => {
                return Err(
                    "is_pinned cannot be read for ".to_owned().concat(id.as_str()).concat(
                        ": ",
                    ).concat(problem.as_str()),
                );
            },
        };
        match pinned {
            None => {
                return Err(
                    "is_pinned for ".to_owned().concat(id.as_str()).concat(" is not 0 or 1"),
                );
            },
            Some(value) => {
                if values.get(id.as_str()).is_some() {
                    return Err("duplicate pin-state row for ".to_owned().concat(id.as_str()));
                }
                values.insert(id.clone(), value);
            },
        }
        i += 1;
    }
    assert(all.take(i as int) =~= all);
    Ok(values)
}

/// Reads the pins of the expected ids from rows.
pub fn read_pin_states(rows: &Vec<Result<PinRow, String>>, expected_ids: &TextSet) -> (r: Result<
    TextMap<bool>,
    String,
>)
    ensures
        result_view(r) == covering_pins(pin_rows_view(rows@), expected_ids@),
{
    let values = match read_pin_rows(rows) {
        Ok(values) => values,
        Err(problem) => {
            return Err(problem);
        },
    };
    let ids = expected_ids.items();
    let ghost all = ids.deep_view();
    let ghost keep = |id: Seq<char>| !values@.contains_key(id);
    let mut missing: Vec<String> = Vec::new();
    let mut i: usize = 0;
    proof {
        reveal(Seq::filter);
        assert(missing.deep_view() =~= all.take(0).filter(keep));
    }
    while i < ids.len()
        invariant
            i <= ids@.len(),
            all == ids.deep_view(),
            keep == (|id: Seq<char>| !values@.contains_key(id)),
            ({
                let kept = all.take(i as int).filter(keep);
                missing.deep_view() == if kept.len() > 3 {
                    kept.take(3)
                } else {
                    kept
                }
            }),
        decreases ids.len() - i,
    {
        let ghost before = missing.deep_view();
        let ghost kept = all.take(i as int).filter(keep);
        proof {
            reveal(Seq::filter);
            assert(all.take(i as int + 1).drop_last() =~= all.take(i as int));
            assert(all.take(i as int + 1).last() == all[i as int]);
            assert(all[i as int] == ids@[i as int]@);
            assert(missing@.len() == missing.deep_view().len());
        }
        if values.get(ids[i].as_str()).is_none() {
            proof {
                assert(all.take(i as int + 1).filter(keep) == kept.push(all[i as int]));
                if kept.len() >= 3 {
                    assert(kept.push(all[i as int]).take(3) =~= kept.take(3));
                }
                if kept.len() == 3 {
                    assert(kept.take(3) =~= kept);
                }
            }
            if missing.len() < 3 {
                missing.push(ids[i].clone());
                assert(missing.deep_view() =~= before.push(all[i as int]));
            }
        }
        i += 1;
    }
    assert(all.take(i as int) =~= all);
    assert(missing.deep_view() == missing_pins(expected_ids@, values@));
    assert(missing@.len() == missing.deep_view().len());
    if missing.len() > 0 {
        return Err(
            "pin-state rows do not cover every scanned thread (missing: ".to_owned().concat(
                join(&missing, ", ").as_str(),
            ).concat(")"),
        );
    }
    Ok(values)
}

/// The numbered placeholders of a query.
pub open spec fn placeholders(n: nat) -> Seq<Seq<char>> {
    Seq::new(n, |k: int| "?"@ + decimal(k + 1))
}

/// The query for the pins of `count` ids.
pub fn pin_query(count: usize) -> (r: String)
    ensures
        r@ == "SELECT id, is_pinned FROM threads WHERE id IN ("@ + joined(
            placeholders(count as nat),
            ","@,
        ) + ")"@,
{
    let mut marks: Vec<String> = Vec::new();
    let mut k: usize = 0;
    assert(marks.deep_view() =~= placeholders(0));
    while k < count
        invariant
            k <= count,
            marks.deep_view() == placeholders(k as nat),
        decreases count - k,
    {
        let ghost before = marks.deep_view();
        k += 1;
        let mark = "?".to_owned().concat(decimal_text(k as u64).as_str());
        marks.push(mark);
        assert(marks.deep_view() =~= before.push(mark@));
        assert(marks.deep_view() =~= placeholders(k as nat));
    }
    "SELECT id, is_pinned FROM threads WHERE id IN (".to_owned().concat(
        join(&marks, ",").as_str(),
    ).concat(")")
}

} // verus!
