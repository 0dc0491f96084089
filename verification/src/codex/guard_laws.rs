//! What a cleanup must find before it removes anything, in terms of what the
//! guards say of files, sizes and counts.

use crate::codex::disk::{
    check_copied, check_database_backup, check_existing_backup, check_one_change, check_removable,
};
use crate::codex::catalog::{CatalogThreadView, StaleSpawnEdge, StaleSpawnEdgeView};
use crate::codex::cleanup_laws::has_string;
use crate::codex::cli::tries_again;
use crate::codex::maintenance::{
    about, backup_root, batch_char, edge_candidate, edge_fingerprint, edge_from_fingerprint,
    law_edge_fingerprint_round_trip, remove_session_index_entry, rollout_backup_target,
    thread_candidate, thread_from_key, valid_batch_id, FileState,
};
use crate::domain::{result_view, VaultError, VaultErrorView};
use crate::ordered::lemma_filter_member;
use crate::path::{absolute, below, joined_path, parts_of, relative_to};
use crate::path_laws::{
    law_a_relative_path_leads_back, law_below_goes_on, law_joined_paths_hold_both,
};
use crate::storage::{check_version, retention_cutoff};
use crate::text::without_prefix;
use vstd::prelude::*;

verus! {

broadcast use vstd::group_vstd_default;

/// A rollout file may be removed exactly where a regular file stands there.
pub proof fn law_only_regular_files_are_removed(state: &FileState, r: Result<(), VaultError>)
    requires
        call_ensures(check_removable, (state,), r),
    ensures
        r is Ok <==> state is Regular,
{
}

/// A backup counts exactly where it has as many bytes as what it is of.
pub proof fn law_a_backup_has_all_bytes(
    source_bytes: u64,
    target_bytes: u64,
    name: &str,
    existing: Result<(), VaultError>,
    copied: Result<(), VaultError>,
    database: Result<(), VaultError>,
)
    requires
        call_ensures(check_existing_backup, (source_bytes, target_bytes, name), existing),
        call_ensures(check_copied, (target_bytes, source_bytes, name), copied),
        call_ensures(check_database_backup, (target_bytes, name), database),
    ensures
        existing is Ok <==> source_bytes == target_bytes,
        copied is Ok <==> source_bytes == target_bytes,
        database is Ok <==> target_bytes != 0,
{
}

/// A removal in a database counts exactly where it changed one row.
pub proof fn law_one_row_is_removed(changed: usize, r: Result<(), VaultError>)
    requires
        call_ensures(check_one_change, (changed,), r),
    ensures
        r is Ok <==> changed == 1,
{
}

/// The key of a leftover that is a thread gives the id of the thread back.
pub proof fn law_a_key_gives_its_thread_back(
    thread: CatalogThreadView,
    key: &str,
    r: Result<String, VaultError>,
)
    requires
        call_ensures(thread_from_key, (key,), r),
        key@ == thread_candidate(thread).key,
        thread.id.len() > 0,
    ensures
        r matches Ok(id) && id@ == thread.id,
{
    let prefix = "thread:"@;
    assert(key@.subrange(0, prefix.len() as int) =~= prefix);
    assert(key@.skip(prefix.len() as int) =~= thread.id);
    assert(without_prefix(key@, prefix) == Some(thread.id));
    assert(result_view(r) == Ok::<Seq<char>, VaultErrorView>(thread.id));
}

/// The fingerprint of a leftover that is an edge gives the edge back, where
/// neither end holds a colon or is empty.
pub proof fn law_a_fingerprint_gives_its_edge_back(
    edge: StaleSpawnEdgeView,
    fingerprint: &str,
    r: Result<StaleSpawnEdge, VaultError>,
)
    requires
        call_ensures(edge_from_fingerprint, (fingerprint,), r),
        fingerprint@ == edge_candidate(edge).fingerprint,
        !edge.parent.contains(':'),
        !edge.child.contains(':'),
        edge.parent.len() > 0,
        edge.child.len() > 0,
    ensures
        r matches Ok(found) && found.deep_view() == edge,
{
    law_edge_fingerprint_round_trip(edge);
    assert(fingerprint@ == edge_fingerprint(edge));
    assert(result_view(r) == Ok::<StaleSpawnEdgeView, VaultErrorView>(edge));
}

/// The backups of a batch go to a directory of their own below Codex's home,
/// exactly where the id of the batch is made of letters, digits, hyphens and
/// underscores: no id leads out of the home.
pub proof fn law_backups_stay_below_home(
    home: &str,
    batch_id: &str,
    r: Result<String, VaultError>,
)
    requires
        call_ensures(backup_root, (home, batch_id), r),
        absolute(home@),
    ensures
        r is Ok <==> batch_id@.len() > 0 && forall|i: int|
            0 <= i < batch_id@.len() ==> {
                let c = #[trigger] batch_id@[i];
                ||| 'a' <= c <= 'z'
                ||| 'A' <= c <= 'Z'
                ||| '0' <= c <= '9'
                ||| c == '-'
                ||| c == '_'
            },
        r matches Ok(place) ==> below(place@, home@) && parts_of(place@) == parts_of(home@)
            + parts_of("codex-vault-backups"@) + parts_of(batch_id@),
{
    reveal_strlit("codex-vault-backups");
    let all = "codex-vault-backups"@;
    assert(all[0] == 'c');
    if r is Ok {
        assert(!absolute(batch_id@)) by {
            if absolute(batch_id@) {
                assert(batch_char(batch_id@[0]));
            }
        }
        assert(r->Ok_0@ == joined_path(joined_path(home@, all), batch_id@)) by {
            assert(result_view(r)->Ok_0 == r->Ok_0@);
        }
        law_joined_paths_hold_both(home@, all);
        law_joined_paths_hold_both(joined_path(home@, all), batch_id@);
        law_below_goes_on(joined_path(home@, all), batch_id@, home@);
        law_below_goes_on(home@, all, r->Ok_0@);
    }
    if batch_id@.len() > 0 && forall|i: int|
        0 <= i < batch_id@.len() ==> {
            let c = #[trigger] batch_id@[i];
            ||| 'a' <= c <= 'z'
            ||| 'A' <= c <= 'Z'
            ||| '0' <= c <= '9'
            ||| c == '-'
            ||| c == '_'
        } {
        assert(valid_batch_id(batch_id@));
    }
}

/// A rollout file is backed up exactly where it lies in one of the two
/// directories of sessions below the home; its backup has the same path below
/// the backups that the file has below the home.
pub proof fn law_a_backup_keeps_the_path(
    home: &str,
    backups: &str,
    path: &str,
    r: Result<String, VaultError>,
)
    requires
        call_ensures(rollout_backup_target, (home, backups, path), r),
        absolute(home@),
    ensures
        r is Ok <==> below(path@, joined_path(home@, "sessions"@)) || below(
            path@,
            joined_path(home@, "archived_sessions"@),
        ),
        r matches Ok(target) ==> below(path@, home@) && parts_of(target@) == parts_of(backups@)
            + parts_of("rollouts"@) + parts_of(path@).skip(parts_of(home@).len() as int),
{
    reveal_strlit("sessions");
    reveal_strlit("archived_sessions");
    reveal_strlit("rollouts");
    assert("sessions"@[0] == 's' && "archived_sessions"@[0] == 'a' && "rollouts"@[0] == 'r');
    law_below_goes_on(home@, "sessions"@, path@);
    law_below_goes_on(home@, "archived_sessions"@, path@);
    law_a_relative_path_leads_back(path@, home@);
    if r is Ok {
        let relative = relative_to(path@, home@)->0;
        assert(r->Ok_0@ == joined_path(joined_path(backups@, "rollouts"@), relative)) by {
            assert(result_view(r)->Ok_0 == r->Ok_0@);
        }
        law_joined_paths_hold_both(backups@, "rollouts"@);
        law_joined_paths_hold_both(joined_path(backups@, "rollouts"@), relative);
        law_joined_paths_hold_both(home@, relative);
        let (a, b) = (parts_of(home@), parts_of(path@));
        assert(parts_of(relative) =~= b.skip(a.len() as int));
    }
}

/// The lines that stay in the session index are those that have the id neither
/// under `id` nor under `thread_id`, in their order, and it is told whether
/// there was another.
pub proof fn law_the_index_loses_one_thread(
    lines: &Vec<String>,
    id: &str,
    r: (Vec<String>, bool),
)
    requires
        call_ensures(remove_session_index_entry, (lines, id), r),
    ensures
        forall|line: Seq<char>| #[trigger]
            r.0.deep_view().contains(line) <==> lines.deep_view().contains(line) && !has_string(
                line,
                "id"@,
                id@,
            ) && !has_string(line, "thread_id"@, id@),
        r.1 <==> exists|i: int|
            0 <= i < lines@.len() && (has_string(
                #[trigger] lines.deep_view()[i],
                "id"@,
                id@,
            ) || has_string(lines.deep_view()[i], "thread_id"@, id@)),
        !r.1 ==> r.0.deep_view() == lines.deep_view(),
{
    let all = lines.deep_view();
    let keep = |line: Seq<char>| !about(line, id@);
    assert forall|line: Seq<char>| #[trigger] r.0.deep_view().contains(line) <==> (all.contains(
        line,
    ) && !has_string(line, "id"@, id@) && !has_string(line, "thread_id"@, id@)) by {
        lemma_filter_member(all, keep, line);
    }
    assert forall|line: Seq<char>| #[trigger] about(line, id@) == (has_string(line, "id"@, id@)
        || has_string(line, "thread_id"@, id@)) by {}
    if r.1 {
        let i = choose|i: int| 0 <= i < lines@.len() && about(#[trigger] all[i], id@);
        assert(has_string(all[i], "id"@, id@) || has_string(all[i], "thread_id"@, id@));
    } else {
        assert forall|i: int| 0 <= i < all.len() implies keep(#[trigger] all[i]) by {
            assert(!about(all[i], id@));
        }
        lemma_all_stay(all, keep);
    }
    if exists|i: int|
        0 <= i < lines@.len() && (has_string(#[trigger] all[i], "id"@, id@) || has_string(
            all[i],
            "thread_id"@,
            id@,
        )) {
        let i = choose|i: int|
            0 <= i < lines@.len() && (has_string(#[trigger] all[i], "id"@, id@) || has_string(
                all[i],
                "thread_id"@,
                id@,
            ));
        assert(about(all[i], id@));
    }
}

proof fn lemma_all_stay(s: Seq<Seq<char>>, keep: spec_fn(Seq<char>) -> bool)
    requires
        forall|i: int| 0 <= i < s.len() ==> keep(#[trigger] s[i]),
    ensures
        s.filter(keep) == s,
    decreases s.len(),
{
    reveal(Seq::filter);
    if s.len() > 0 {
        let head = s.drop_last();
        assert forall|i: int| 0 <= i < head.len() implies keep(#[trigger] head[i]) by {
            assert(head[i] == s[i]);
        }
        lemma_all_stay(head, keep);
        assert(keep(s[s.len() - 1]));
        assert(head.push(s.last()) =~= s);
    }
}

/// A record is old exactly where it is more than the days of retention older
/// than now.
pub proof fn law_what_is_retained(now: i64, days: u32, r: i64, at: i64)
    requires
        call_ensures(retention_cutoff, (now, days), r),
    ensures
        at < r <==> at + days * 86_400 < now,
{
}

/// A record is read in the layouts up to the present one and in no other.
pub proof fn law_which_layouts_are_read(version: i64, r: Result<(), VaultError>)
    requires
        call_ensures(check_version, (version,), r),
    ensures
        r is Ok <==> version == 0 || version == 1 || version == 2,
{
}

/// A program that did not start is started again only where its file was busy
/// and it was tried less than four times.
pub proof fn law_a_busy_program_is_tried_again(raw: Option<i32>, attempt: usize, r: bool)
    requires
        call_ensures(tries_again, (raw, attempt), r),
    ensures
        r <==> raw == Some(26i32) && attempt < 4,
{
}

} // verus!
