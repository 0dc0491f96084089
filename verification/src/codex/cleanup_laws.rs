//! What is found of a thread in the session index and in the places that it
//! must be gone from, and what tells one leftover from another.

use crate::codex::catalog::{CatalogThreadView, StaleSpawnEdgeView};
use crate::codex::maintenance::{
    about, edge_candidate, index_string, mentioned, residue, rollout_candidate, rollout_size,
    still_there, thread_candidate, with_key, FileStateView, ResidueCheckView,
};
use crate::domain::{MaintenanceCandidateView, MaintenanceKind, VaultErrorView};
use crate::ordered::lemma_filter_member;
use crate::outside::{json_member, json_problem, json_string};
use crate::path::{below, joined_path};
use crate::text::{
    decimal, digit_value, law_decimal_round_trip, law_signed_decimal_round_trip, signed_decimal,
};
use vstd::prelude::*;

verus! {

broadcast use vstd::group_vstd_default;

/// A line of the index can be read and is JSON.
pub open spec fn well_written(line: Result<Seq<char>, Seq<char>>) -> bool {
    line matches Ok(text) && json_problem(text) is None
}

/// Under the key the line has a string, and it is the value.
pub open spec fn has_string(line: Seq<char>, key: Seq<char>, value: Seq<char>) -> bool {
    json_member(line, key) matches Some(member) && json_string(member) == Some(value)
}

/// Every line of the index counts, wherever it stands: where each can be read
/// and is JSON, the index mentions an id exactly where some line has it under
/// `id`.
pub proof fn law_the_whole_index_is_searched(
    path: Seq<char>,
    lines: Seq<Result<Seq<char>, Seq<char>>>,
    id: Seq<char>,
)
    requires
        forall|i: int| 0 <= i < lines.len() ==> well_written(#[trigger] lines[i]),
    ensures
        mentioned(path, lines, id) == Ok::<bool, Seq<char>>(
            exists|i: int|
                0 <= i < lines.len() && has_string((#[trigger] lines[i])->Ok_0, "id"@, id),
        ),
    decreases lines.len(),
{
    if lines.len() > 0 {
        let rest = lines.drop_first();
        assert forall|i: int| 0 <= i < rest.len() implies well_written(#[trigger] rest[i]) by {
            assert(well_written(lines[i + 1]));
        }
        law_the_whole_index_is_searched(path, rest, id);
        assert(well_written(lines[0]));
        if has_string(lines[0]->Ok_0, "id"@, id) {
            assert(index_string(lines[0]->Ok_0, "id"@) == Some(id));
        } else {
            if exists|i: int|
                0 <= i < rest.len() && has_string((#[trigger] rest[i])->Ok_0, "id"@, id) {
                let i = choose|i: int|
                    0 <= i < rest.len() && has_string((#[trigger] rest[i])->Ok_0, "id"@, id);
                assert(has_string(lines[i + 1]->Ok_0, "id"@, id));
            }
            if exists|i: int|
                0 <= i < lines.len() && has_string((#[trigger] lines[i])->Ok_0, "id"@, id) {
                let i = choose|i: int|
                    0 <= i < lines.len() && has_string((#[trigger] lines[i])->Ok_0, "id"@, id);
                assert(has_string(rest[i - 1]->Ok_0, "id"@, id));
            }
        }
    }
}

/// A line that cannot be read or is no JSON is never passed over: where no
/// line before the first such has the id, there is no answer. A line with the
/// id that comes before it is answer enough.
pub proof fn law_a_bad_line_is_not_passed_over(
    path: Seq<char>,
    lines: Seq<Result<Seq<char>, Seq<char>>>,
    id: Seq<char>,
    bad: int,
)
    requires
        0 <= bad < lines.len(),
        !well_written(lines[bad]),
        forall|i: int| 0 <= i < bad ==> well_written(#[trigger] lines[i]),
    ensures
        ({
            let found = exists|i: int|
                0 <= i < bad && has_string((#[trigger] lines[i])->Ok_0, "id"@, id);
            &&& found ==> mentioned(path, lines, id) == Ok::<bool, Seq<char>>(true)
            &&& !found ==> mentioned(path, lines, id) is Err
        }),
    decreases lines.len(),
{
    if bad > 0 {
        assert(well_written(lines[0]));
        if has_string(lines[0]->Ok_0, "id"@, id) {
            assert(index_string(lines[0]->Ok_0, "id"@) == Some(id));
        } else {
            let rest = lines.drop_first();
            assert(rest[bad - 1] == lines[bad]);
            assert forall|i: int| 0 <= i < bad - 1 implies well_written(#[trigger] rest[i]) by {
                assert(well_written(lines[i + 1]));
            }
            law_a_bad_line_is_not_passed_over(path, rest, id, bad - 1);
            if exists|i: int|
                0 <= i < bad - 1 && has_string((#[trigger] rest[i])->Ok_0, "id"@, id) {
                let i = choose|i: int|
                    0 <= i < bad - 1 && has_string((#[trigger] rest[i])->Ok_0, "id"@, id);
                assert(has_string(lines[i + 1]->Ok_0, "id"@, id));
            }
            if exists|i: int| 0 <= i < bad && has_string((#[trigger] lines[i])->Ok_0, "id"@, id) {
                let i = choose|i: int|
                    0 <= i < bad && has_string((#[trigger] lines[i])->Ok_0, "id"@, id);
                assert(has_string(rest[i - 1]->Ok_0, "id"@, id));
            }
        }
    }
}

/// What stays of the index once a thread is taken out of it are the lines that
/// have its id neither under `id` nor under `thread_id`; after that the index
/// does not mention the thread.
pub proof fn law_an_entry_is_taken_out(lines: Seq<Seq<char>>, id: Seq<char>, line: Seq<char>)
    ensures
        lines.filter(|l: Seq<char>| !about(l, id)).contains(line) <==> lines.contains(line)
            && !has_string(line, "id"@, id) && !has_string(line, "thread_id"@, id),
{
    lemma_filter_member(lines, |l: Seq<char>| !about(l, id), line);
}

/// The places where a deleted thread is still found are exactly those whose
/// check found it, and there is no answer where one of them could not be
/// looked at.
pub proof fn law_residue_names_each_place(checks: Seq<ResidueCheckView>)
    ensures
        residue(checks) is Err <==> exists|i: int|
            0 <= i < checks.len() && (#[trigger] checks[i]).found is Err,
        residue(checks) matches Ok(names) ==> forall|name: Seq<char>| #[trigger]
            names.contains(name) <==> exists|i: int|
                0 <= i < checks.len() && (#[trigger] checks[i]).name == name && checks[i].found
                    == Ok::<bool, Seq<char>>(true),
    decreases checks.len(),
{
    if checks.len() > 0 {
        let head = checks.drop_last();
        let last = checks.len() - 1;
        law_residue_names_each_place(head);
        assert forall|i: int| 0 <= i < last implies #[trigger] head[i] == checks[i] by {}
        if exists|i: int| 0 <= i < head.len() && (#[trigger] head[i]).found is Err {
            let i = choose|i: int| 0 <= i < head.len() && (#[trigger] head[i]).found is Err;
            assert(checks[i].found is Err);
        }
        if exists|i: int| 0 <= i < checks.len() && (#[trigger] checks[i]).found is Err {
            let i = choose|i: int| 0 <= i < checks.len() && (#[trigger] checks[i]).found is Err;
            if i < last {
                assert(head[i].found is Err);
            }
        }
        if residue(checks) is Ok {
            let before = residue(head)->Ok_0;
            let names = residue(checks)->Ok_0;
            assert forall|name: Seq<char>| #[trigger] names.contains(name) <==> exists|i: int|
                0 <= i < checks.len() && (#[trigger] checks[i]).name == name && checks[i].found
                    == Ok::<bool, Seq<char>>(true) by {
                if names.contains(name) {
                    let k = names.index_of(name);
                    if k < before.len() {
                        assert(before[k] == name);
                        assert(before.contains(name));
                        let i = choose|i: int|
                            0 <= i < head.len() && (#[trigger] head[i]).name == name
                                && head[i].found == Ok::<bool, Seq<char>>(true);
                        assert(checks[i].name == name);
                    } else {
                        assert(checks[last].name == name);
                    }
                }
                if exists|i: int|
                    0 <= i < checks.len() && (#[trigger] checks[i]).name == name && checks[i].found
                        == Ok::<bool, Seq<char>>(true) {
                    let i = choose|i: int|
                        0 <= i < checks.len() && (#[trigger] checks[i]).name == name
                            && checks[i].found == Ok::<bool, Seq<char>>(true);
                    if i < last {
                        assert(head[i].name == name);
                        assert(before.contains(name));
                        assert(names[before.index_of(name)] == name);
                    } else {
                        assert(names[names.len() - 1] == name);
                    }
                }
            }
        }
    }
}

/// A leftover is taken up exactly where it is found under its key and, where
/// it is first found so, is of the kind and has the fingerprint that were
/// shown.
pub proof fn law_a_changed_leftover_is_refused(
    candidates: Seq<MaintenanceCandidateView>,
    expected: MaintenanceCandidateView,
    i: int,
)
    requires
        0 <= i <= candidates.len(),
        i < candidates.len() ==> candidates[i].key == expected.key,
        forall|k: int| 0 <= k < i ==> (#[trigger] candidates[k]).key != expected.key,
    ensures
        still_there(candidates, expected) == if i < candidates.len() && candidates[i].kind
            == expected.kind && candidates[i].fingerprint == expected.fingerprint {
            Ok::<MaintenanceCandidateView, VaultErrorView>(candidates[i])
        } else {
            Err(VaultErrorView::StalePreview)
        },
{
    lemma_first_with_key(candidates, expected.key, i);
}

proof fn lemma_first_with_key(
    candidates: Seq<MaintenanceCandidateView>,
    key: Seq<char>,
    i: int,
)
    requires
        0 <= i <= candidates.len(),
        i < candidates.len() ==> candidates[i].key == key,
        forall|k: int| 0 <= k < i ==> (#[trigger] candidates[k]).key != key,
    ensures
        with_key(candidates, key) == if i < candidates.len() {
            Some(candidates[i])
        } else {
            None
        },
    decreases candidates.len(),
{
    if candidates.len() > 0 && i > 0 {
        let rest = candidates.drop_first();
        assert(candidates[0].key != key);
        assert forall|k: int| 0 <= k < i - 1 implies (#[trigger] rest[k]).key != key by {
            assert(candidates[k + 1].key != key);
        }
        lemma_first_with_key(rest, key, i - 1);
    }
}

proof fn lemma_numbers_before_colons(a: Seq<char>, x: Seq<char>, b: Seq<char>, y: Seq<char>)
    requires
        !a.contains(':'),
        !b.contains(':'),
        a + ":"@ + x == b + ":"@ + y,
    ensures
        a == b,
        x == y,
{
    reveal_strlit(":");
    let s = a + ":"@ + x;
    let t = b + ":"@ + y;
    if a.len() < b.len() {
        assert(s[a.len() as int] == ':');
        assert(t[a.len() as int] == b[a.len() as int]);
        assert(b.contains(b[a.len() as int]));
    }
    if b.len() < a.len() {
        assert(t[b.len() as int] == ':');
        assert(s[b.len() as int] == a[b.len() as int]);
        assert(a.contains(a[b.len() as int]));
    }
    assert(a =~= s.take(a.len() as int));
    assert(b =~= t.take(b.len() as int));
    assert(x =~= s.skip(a.len() as int + 1));
    assert(y =~= t.skip(b.len() as int + 1));
}

proof fn lemma_decimal_has_no_colon(n: int)
    requires
        n >= 0,
    ensures
        !decimal(n).contains(':'),
        !(seq!['-'] + decimal(n)).contains(':'),
{
    law_decimal_round_trip(n);
    assert(digit_value(':') == 10);
    let signed = seq!['-'] + decimal(n);
    if signed.contains(':') {
        let k = choose|k: int| 0 <= k < signed.len() && signed[k] == ':';
        assert(signed[k] == decimal(n)[k - 1]);
    }
}

/// What is offered of a rollout file says which file it is and how large, and
/// its fingerprint changes with its size and with the time of its last change.
pub proof fn law_fingerprints_tell_files(
    threads: Map<Seq<char>, CatalogThreadView>,
    path: Seq<char>,
    bytes: u64,
    modified: u128,
    other: Map<Seq<char>, CatalogThreadView>,
    size: u64,
    changed: u128,
)
    ensures
        ({
            let c = rollout_candidate(threads, path, bytes, modified);
            let d = rollout_candidate(other, path, size, changed);
            &&& c.kind == MaintenanceKind::UnreferencedRollout
            &&& c.detail == path
            &&& c.bytes == bytes
            &&& c.key == d.key
            &&& c.fingerprint == d.fingerprint <==> bytes == size && modified == changed
        }),
{
    let c = rollout_candidate(threads, path, bytes, modified);
    let d = rollout_candidate(other, path, size, changed);
    law_decimal_round_trip(bytes as int);
    law_decimal_round_trip(size as int);
    law_decimal_round_trip(modified as int);
    law_decimal_round_trip(changed as int);
    lemma_decimal_has_no_colon(bytes as int);
    lemma_decimal_has_no_colon(size as int);
    if c.fingerprint == d.fingerprint {
        lemma_numbers_before_colons(
            decimal(bytes as int),
            decimal(modified as int),
            decimal(size as int),
            decimal(changed as int),
        );
    }
}

/// What is offered of a thread without its file says which thread and which
/// file, takes no bytes, and its fingerprint changes with the time of the last
/// activity and with the path of the file.
pub proof fn law_fingerprints_tell_threads(a: CatalogThreadView, b: CatalogThreadView)
    requires
        a.id == b.id,
    ensures
        ({
            let (c, d) = (thread_candidate(a), thread_candidate(b));
            &&& c.kind == MaintenanceKind::MissingRolloutThread
            &&& c.detail == a.rollout_path
            &&& c.bytes == 0
            &&& c.project == Some(
                if a.project is Some {
                    a.project->0
                } else {
                    a.cwd
                },
            )
            &&& c.label == if a.title is Some {
                a.title->0
            } else {
                a.id
            }
            &&& c.key == d.key
            &&& c.fingerprint == d.fingerprint <==> a.last_activity_ms == b.last_activity_ms
                && a.rollout_path == b.rollout_path
        }),
{
    let (c, d) = (thread_candidate(a), thread_candidate(b));
    if c.fingerprint == d.fingerprint {
        let (m, n) = (
            signed_decimal(a.last_activity_ms as int),
            signed_decimal(b.last_activity_ms as int),
        );
        law_signed_decimal_round_trip(a.last_activity_ms);
        law_signed_decimal_round_trip(b.last_activity_ms);
        lemma_decimal_has_no_colon(
            if a.last_activity_ms < 0 {
                -(a.last_activity_ms as int)
            } else {
                a.last_activity_ms as int
            },
        );
        lemma_decimal_has_no_colon(
            if b.last_activity_ms < 0 {
                -(b.last_activity_ms as int)
            } else {
                b.last_activity_ms as int
            },
        );
        let head = a.id + ":"@;
        assert(c.fingerprint =~= head + (m + ":"@ + a.rollout_path));
        assert(d.fingerprint =~= head + (n + ":"@ + b.rollout_path));
        assert(m + ":"@ + a.rollout_path =~= c.fingerprint.skip(head.len() as int));
        assert(n + ":"@ + b.rollout_path =~= d.fingerprint.skip(head.len() as int));
        lemma_numbers_before_colons(m, a.rollout_path, n, b.rollout_path);
    }
}

/// What is offered of a stale edge says what the edge says, and two edges
/// between the same ends differ in their fingerprints where their states do.
pub proof fn law_fingerprints_tell_edges(a: StaleSpawnEdgeView, b: StaleSpawnEdgeView)
    requires
        a.parent == b.parent,
        a.child == b.child,
    ensures
        ({
            let (c, d) = (edge_candidate(a), edge_candidate(b));
            &&& c.kind == MaintenanceKind::StaleSpawnEdge
            &&& c.detail == a.status
            &&& c.bytes == 0
            &&& c.project is None
            &&& c.key == d.key
            &&& c.fingerprint == d.fingerprint <==> a.status == b.status
        }),
{
    let (c, d) = (edge_candidate(a), edge_candidate(b));
    let head = a.parent + ":"@ + a.child + ":"@;
    assert(c.fingerprint.skip(head.len() as int) =~= a.status);
    assert(d.fingerprint.skip(head.len() as int) =~= b.status);
}

/// The file of a thread is accepted, with its size, exactly where it is a
/// regular file in the directory for sessions, or, for an archived thread, in
/// the one for archived sessions.
pub proof fn law_a_session_file_lies_where_it_must(
    home: Seq<char>,
    thread: CatalogThreadView,
    state: FileStateView,
)
    ensures
        ({
            let right_place = if thread.archived {
                below(thread.rollout_path, joined_path(home, "archived_sessions"@))
            } else {
                below(thread.rollout_path, joined_path(home, "sessions"@))
            };
            &&& rollout_size(home, thread, state) is Ok <==> right_place && state is Regular
            &&& rollout_size(home, thread, state) matches Ok(size) ==> (
            state matches FileStateView::Regular(bytes, modified) && size == bytes)
        }),
{
}

} // verus!
