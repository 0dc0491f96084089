//! Which files and databases are found, in terms of the entries of the
//! directories and of the settings.

use crate::codex::disk::{
    place_name, rollout_name, searched_places, walked, EntryKind, Place, WalkEntryView, WalkView,
};
use crate::codex::locate::{
    database_directory, home_from, host_name, newest, newest_seen, shown_place, state_database,
    target_of, version_in, ActiveConnectionView, DirectoryEntryView,
};
use crate::outside::TomlFieldView;
use crate::path::{joined_path, last_part};
use crate::text::{
    decimal, digits_value, has_text, law_decimal_round_trip, occurs_at, unsigned_value, white,
    without_prefix, without_suffix,
};
use crate::text_laws::{all_white, law_trimming_takes_white_space_off_the_ends};
use vstd::prelude::*;

verus! {

broadcast use vstd::group_vstd_default;

/// A file counts as the rollout file of a session exactly where the last part
/// of its path has the ending of one behind at least one character.
pub proof fn law_which_files_are_rollouts(path: Seq<char>)
    ensures
        rollout_name(path) <==> exists|stem: Seq<char>|
            stem.len() > 0 && last_part(path) == Some(#[trigger] (stem + ".jsonl"@)),
{
    reveal_strlit(".jsonl");
    if rollout_name(path) {
        let name = last_part(path)->0;
        let stem = name.take(name.len() - 6);
        assert(name.subrange(name.len() - 6, name.len() as int) == ".jsonl"@);
        assert(name =~= stem + ".jsonl"@);
    }
    if exists|stem: Seq<char>|
        stem.len() > 0 && last_part(path) == Some(#[trigger] (stem + ".jsonl"@)) {
        let stem = choose|stem: Seq<char>|
            stem.len() > 0 && last_part(path) == Some(#[trigger] (stem + ".jsonl"@));
        let name = stem + ".jsonl"@;
        assert(name.subrange(name.len() - 6, name.len() as int) =~= ".jsonl"@);
    }
}

/// An entry of a directory can be told.
pub open spec fn told(entry: Result<WalkEntryView, Seq<char>>) -> bool {
    entry matches Ok(found) && found.kind is Ok
}

/// The entry is of the kind.
pub open spec fn told_as(entry: Result<WalkEntryView, Seq<char>>, kind: EntryKind) -> bool {
    entry matches Ok(found) && found.kind == Ok::<_, Seq<char>>(kind)
}

/// A walk takes from a directory exactly its regular files that are named like
/// rollout files and, where it goes on, its directories in their order; a link
/// is followed neither way. It fails exactly where one entry cannot be told.
pub proof fn law_what_a_walk_takes(
    walk: WalkView,
    directory: Seq<char>,
    entries: Seq<Result<WalkEntryView, Seq<char>>>,
    recursive: bool,
)
    ensures
        walked(walk, directory, entries, recursive) is Ok <==> forall|i: int|
            0 <= i < entries.len() ==> told(#[trigger] entries[i]),
        walked(walk, directory, entries, recursive) matches Ok(after) ==> {
            &&& forall|path: Seq<char>| #[trigger]
                after.files.contains(path) <==> walk.files.contains(path) || exists|i: int|
                    0 <= i < entries.len() && told_as(#[trigger] entries[i], EntryKind::File)
                        && entries[i]->Ok_0.path == path && rollout_name(path)
            &&& !recursive ==> after.pending == walk.pending
            &&& recursive ==> after.pending == walk.pending + entries.filter(
                |entry: Result<WalkEntryView, Seq<char>>| told_as(entry, EntryKind::Directory),
            ).map_values(|entry: Result<WalkEntryView, Seq<char>>| entry->Ok_0.path)
        },
    decreases entries.len(),
{
    reveal(Seq::filter);
    let is_dir = |entry: Result<WalkEntryView, Seq<char>>| told_as(entry, EntryKind::Directory);
    let path_of = |entry: Result<WalkEntryView, Seq<char>>| entry->Ok_0.path;
    if entries.len() == 0 {
        assert(walk.pending + entries.filter(is_dir).map_values(path_of) =~= walk.pending);
        assert(forall|i: int| 0 <= i < entries.len() ==> told(#[trigger] entries[i]));
    } else {
        let head = entries.drop_last();
        let last = entries.len() - 1;
        law_what_a_walk_takes(walk, directory, head, recursive);
        assert forall|i: int| 0 <= i < last implies #[trigger] head[i] == entries[i] by {}
        assert((forall|i: int| 0 <= i < entries.len() ==> told(#[trigger] entries[i])) <==> (
        forall|i: int| 0 <= i < head.len() ==> told(#[trigger] head[i])) && told(
            entries[last],
        )) by {
            if forall|i: int| 0 <= i < entries.len() ==> told(#[trigger] entries[i]) {
                assert(told(entries[last]));
                assert forall|i: int| 0 <= i < head.len() implies told(#[trigger] head[i]) by {
                    assert(told(entries[i]));
                }
            }
            if (forall|i: int| 0 <= i < head.len() ==> told(#[trigger] head[i])) && told(
                entries[last],
            ) {
                assert forall|i: int| 0 <= i < entries.len() implies told(
                    #[trigger] entries[i],
                ) by {
                    if i < last {
                        assert(told(head[i]));
                    }
                }
            }
        }
        if walked(walk, directory, entries, recursive) is Ok {
            let before = walked(walk, directory, head, recursive)->Ok_0;
            let after = walked(walk, directory, entries, recursive)->Ok_0;
            let entry = entries[last]->Ok_0;
            assert forall|path: Seq<char>| #[trigger] after.files.contains(path) <==> (
            walk.files.contains(path) || exists|i: int|
                0 <= i < entries.len() && told_as(#[trigger] entries[i], EntryKind::File)
                    && entries[i]->Ok_0.path == path && rollout_name(path)) by {
                assert(before.files.contains(path) <==> (walk.files.contains(path) || exists|i: int|
                    0 <= i < head.len() && told_as(#[trigger] head[i], EntryKind::File)
                        && head[i]->Ok_0.path == path && rollout_name(path)));
                if exists|i: int|
                    0 <= i < head.len() && told_as(#[trigger] head[i], EntryKind::File)
                        && head[i]->Ok_0.path == path && rollout_name(path) {
                    let i = choose|i: int|
                        0 <= i < head.len() && told_as(#[trigger] head[i], EntryKind::File)
                            && head[i]->Ok_0.path == path && rollout_name(path);
                    assert(told_as(entries[i], EntryKind::File));
                }
                if after.files.contains(path) && !before.files.contains(path) {
                    assert(told_as(entries[last], EntryKind::File));
                }
                if exists|i: int|
                    0 <= i < entries.len() && told_as(#[trigger] entries[i], EntryKind::File)
                        && entries[i]->Ok_0.path == path && rollout_name(path) {
                    let i = choose|i: int|
                        0 <= i < entries.len() && told_as(#[trigger] entries[i], EntryKind::File)
                            && entries[i]->Ok_0.path == path && rollout_name(path);
                    if i < last {
                        assert(told_as(head[i], EntryKind::File));
                    }
                }
            }
            if recursive {
                assert(after.pending =~= walk.pending + entries.filter(is_dir).map_values(path_of));
            }
        }
    }
}

/// A deleted thread is looked for in its file and in the session index, in
/// every table of the state that names threads, and, where there is a history,
/// in each of its tables.
pub proof fn law_where_a_deleted_thread_is_looked_for(history: bool, name: Seq<char>)
    ensures
        searched_places(history).contains(name) <==> {
            ||| name == place_name(Place::RolloutFile)
            ||| name == place_name(Place::SessionIndex)
            ||| name == place_name(Place::State("threads", "id"))
            ||| name == place_name(Place::State("thread_attachments", "thread_id"))
            ||| name == place_name(Place::State("thread_dynamic_tools", "thread_id"))
            ||| name == place_name(Place::State("thread_spawn_edges", "parent_thread_id"))
            ||| name == place_name(Place::State("thread_spawn_edges", "child_thread_id"))
            ||| history && name == place_name(Place::History("thread_items"))
            ||| history && name == place_name(Place::History("thread_turns"))
            ||| history && name == place_name(Place::History("thread_realtime_items"))
        },
{
    let places = searched_places(history);
    assert(places[0] == "rollout file"@ && places[1] == "session_index.jsonl"@);
    assert(places[2] == "threads"@ + "."@ + "id"@);
    assert(places[3] == "thread_attachments"@ + "."@ + "thread_id"@);
    assert(places[4] == "thread_dynamic_tools"@ + "."@ + "thread_id"@);
    assert(places[5] == "thread_spawn_edges"@ + "."@ + "parent_thread_id"@);
    assert(places[6] == "thread_spawn_edges"@ + "."@ + "child_thread_id"@);
    if history {
        assert(places[7] == "thread_items"@ && places[8] == "thread_turns"@ && places[9]
            == "thread_realtime_items"@);
        assert(places.len() == 10);
    } else {
        assert(places.len() == 7);
    }
    if places.contains(name) {
        let k = places.index_of(name);
        assert(places[k] == name);
    }
}

/// A name carries a version exactly where it is the prefix, a number that fits
/// and the ending, and the version is that number.
pub proof fn law_which_version_a_name_carries(name: Seq<char>, prefix: Seq<char>, n: int)
    ensures
        version_in(name, prefix) matches Some(version) ==> 0 <= version <= u32::MAX && exists|
            number: Seq<char>,
        |
            name == prefix + number + ".sqlite"@ && #[trigger] unsigned_value(
                number,
                u32::MAX as int,
            ) == Some(version),
        0 <= n <= u32::MAX ==> version_in(prefix + decimal(n) + ".sqlite"@, prefix) == Some(n),
{
    if version_in(name, prefix) is Some {
        let rest = without_prefix(name, prefix)->0;
        let number = without_suffix(rest, ".sqlite"@)->0;
        assert(name.subrange(0, prefix.len() as int) == prefix);
        assert(rest.subrange(
            rest.len() - ".sqlite"@.len(),
            rest.len() as int,
        ) == ".sqlite"@);
        assert(name =~= prefix + rest);
        assert(rest =~= number + ".sqlite"@);
        assert(name =~= prefix + number + ".sqlite"@);
        assert(unsigned_value(number, u32::MAX as int) == version_in(name, prefix));
        lemma_value_not_negative(number);
    }
    if 0 <= n <= u32::MAX {
        let whole = prefix + decimal(n) + ".sqlite"@;
        let rest = decimal(n) + ".sqlite"@;
        assert(whole.subrange(0, prefix.len() as int) =~= prefix);
        assert(without_prefix(whole, prefix)->0 =~= rest);
        assert(rest.subrange(
            rest.len() - ".sqlite"@.len(),
            rest.len() as int,
        ) =~= ".sqlite"@);
        assert(without_suffix(rest, ".sqlite"@)->0 =~= decimal(n));
        law_decimal_round_trip(n);
    }
}

proof fn lemma_value_not_negative(s: Seq<char>)
    ensures
        unsigned_value(s, u32::MAX as int) matches Some(n) ==> n >= 0,
{
    lemma_digits_not_negative(s);
    if s.len() > 0 {
        lemma_digits_not_negative(s.drop_first());
    }
}

proof fn lemma_digits_not_negative(s: Seq<char>)
    ensures
        digits_value(s) matches Some(n) ==> n >= 0,
    decreases s.len(),
{
    if s.len() > 1 {
        lemma_digits_not_negative(s.drop_last());
    }
}

/// The entry is a regular file whose name carries the version.
pub open spec fn is_version(
    entry: Result<DirectoryEntryView, Seq<char>>,
    prefix: Seq<char>,
    version: int,
    name: Seq<char>,
) -> bool {
    &&& entry is Ok
    &&& entry->Ok_0.name == Some(name)
    &&& entry->Ok_0.regular == Ok::<_, Seq<char>>(true)
    &&& version_in(name, prefix) == Some(version)
}

/// The entry stands in the way of an answer: it cannot be read, or carries a
/// version and cannot be looked at.
pub open spec fn in_doubt(entry: Result<DirectoryEntryView, Seq<char>>, prefix: Seq<char>) -> bool {
    ||| entry is Err
    ||| entry->Ok_0.name is Some && version_in(entry->Ok_0.name->0, prefix) is Some
        && entry->Ok_0.regular is Err
}

/// The newest database of a directory is a regular file with the highest
/// version of all, the last of those where several have it; there is none
/// exactly where no regular file carries a version; and there is no answer
/// exactly where an entry leaves it in doubt.
pub proof fn law_the_newest_database_is_found(
    entries: Seq<Result<DirectoryEntryView, Seq<char>>>,
    prefix: Seq<char>,
)
    ensures
        newest(entries, prefix) is Err <==> exists|i: int|
            0 <= i < entries.len() && in_doubt(#[trigger] entries[i], prefix),
        newest(entries, prefix) matches Ok(Some((version, name))) ==> exists|i: int|
            {
                &&& 0 <= i < entries.len()
                &&& is_version(#[trigger] entries[i], prefix, version, name)
                &&& forall|k: int, v: int, other: Seq<char>|
                    0 <= k < entries.len() && #[trigger] is_version(entries[k], prefix, v, other)
                        ==> v <= version && (k > i ==> v < version)
            },
        newest(entries, prefix) matches Ok(None) ==> forall|k: int, v: int, other: Seq<char>|
            0 <= k < entries.len() ==> !(#[trigger] is_version(entries[k], prefix, v, other)),
    decreases entries.len(),
{
    if entries.len() > 0 {
        let head = entries.drop_last();
        let last = entries.len() - 1;
        law_the_newest_database_is_found(head, prefix);
        assert forall|i: int| 0 <= i < last implies #[trigger] head[i] == entries[i] by {}
        if exists|i: int| 0 <= i < head.len() && in_doubt(#[trigger] head[i], prefix) {
            let i = choose|i: int| 0 <= i < head.len() && in_doubt(#[trigger] head[i], prefix);
            assert(in_doubt(entries[i], prefix));
        }
        if exists|i: int| 0 <= i < entries.len() && in_doubt(#[trigger] entries[i], prefix) {
            let i = choose|i: int|
                0 <= i < entries.len() && in_doubt(#[trigger] entries[i], prefix);
            if i < last {
                assert(in_doubt(head[i], prefix));
            }
        }
        if newest(entries, prefix) is Ok {
            assert(!in_doubt(entries[last], prefix));
            let best = newest(head, prefix)->Ok_0;
            let now = newest(entries, prefix)->Ok_0;
            let top = best->0;
            assert forall|k: int, v: int, other: Seq<char>| 0 <= k < last implies #[trigger]
                is_version(entries[k], prefix, v, other) == is_version(
                head[k],
                prefix,
                v,
                other,
            ) by {}
            let i = if best is Some {
                choose|i: int|
                    {
                        &&& 0 <= i < head.len()
                        &&& is_version(#[trigger] head[i], prefix, top.0, top.1)
                        &&& forall|k: int, v: int, other: Seq<char>|
                            0 <= k < head.len() && #[trigger] is_version(head[k], prefix, v, other)
                                ==> v <= top.0 && (k > i ==> v < top.0)
                    }
            } else {
                0
            };
            if now is Some {
                let (version, name) = now->0;
                if now == best && !is_version(entries[last], prefix, version, name) {
                    assert(is_version(entries[i], prefix, version, name));
                    assert forall|k: int, v: int, other: Seq<char>|
                        0 <= k < entries.len() && #[trigger] is_version(
                            entries[k],
                            prefix,
                            v,
                            other,
                        ) implies v <= version && (k > i ==> v < version) by {
                        if k < last {
                            assert(is_version(head[k], prefix, v, other));
                        }
                    }
                } else {
                    assert(is_version(entries[last], prefix, version, name));
                    assert forall|k: int, v: int, other: Seq<char>|
                        0 <= k < entries.len() && #[trigger] is_version(
                            entries[k],
                            prefix,
                            v,
                            other,
                        ) implies v <= version && (k > last ==> v < version) by {
                        if k < last {
                            assert(is_version(head[k], prefix, v, other));
                        }
                    }
                }
            } else {
                assert forall|k: int, v: int, other: Seq<char>| 0 <= k < entries.len() implies !(
                #[trigger] is_version(entries[k], prefix, v, other)) by {
                    if k < last {
                        assert(!is_version(head[k], prefix, v, other));
                    }
                }
            }
        }
    }
}

/// The state database is the newest one of its directory, and there is none
/// where the directory cannot be read or holds none.
pub proof fn law_the_state_database_is_the_newest(
    directory: Seq<char>,
    entries: Result<Seq<Result<DirectoryEntryView, Seq<char>>>, Seq<char>>,
)
    ensures
        entries is Err ==> state_database(directory, entries) is Err,
        entries matches Ok(list) ==> {
            &&& newest(list, "state_"@) matches Ok(Some((version, name))) ==> state_database(
                directory,
                entries,
            ) == Ok::<_, Seq<char>>(joined_path(directory, name))
            &&& !(newest(list, "state_"@) matches Ok(Some(_))) ==> state_database(
                directory,
                entries,
            ) is Err
        },
{
}

/// Codex's home is the one that was set for it, and without one lies in the
/// user's home; an empty setting is refused, not passed over.
pub proof fn law_where_codex_lives(codex_home: Option<Seq<char>>, home: Option<Seq<char>>)
    ensures
        codex_home is Some && codex_home->0.len() > 0 ==> home_from(codex_home, home) == Ok::<
            _,
            Seq<char>,
        >(codex_home->0),
        codex_home is Some && codex_home->0.len() == 0 ==> home_from(codex_home, home) is Err,
        codex_home is None && home is Some && home->0.len() > 0 ==> home_from(codex_home, home)
            == Ok::<_, Seq<char>>(joined_path(home->0, ".codex"@)),
        codex_home is None && (home is None || home->0.len() == 0) ==> home_from(codex_home, home)
            is Err,
{
}

/// The databases lie where the configuration says, else where the environment
/// says, else in Codex's home; a setting that is broken, no text or empty is
/// refused, not passed over.
pub proof fn law_where_the_databases_lie(
    home: Seq<char>,
    field: TomlFieldView,
    variable: Option<Seq<char>>,
)
    ensures
        field is Broken || field is NotText ==> database_directory(home, field, variable) is Err,
        field matches TomlFieldView::Text(path) ==> {
            &&& path.len() > 0 ==> database_directory(home, field, variable) == Ok::<_, Seq<char>>(
                path,
            )
            &&& path.len() == 0 ==> database_directory(home, field, variable) is Err
        },
        field is Absent && variable is Some && variable->0.len() > 0 ==> database_directory(
            home,
            field,
            variable,
        ) == Ok::<_, Seq<char>>(variable->0),
        field is Absent && variable is Some && variable->0.len() == 0 ==> database_directory(
            home,
            field,
            variable,
        ) is Err,
        field is Absent && variable is None ==> database_directory(home, field, variable) == Ok::<
            _,
            Seq<char>,
        >(home),
{
}

/// The host is named by the environment, else by the file without the white
/// space around its text, and is not known where both are empty.
pub proof fn law_how_the_host_is_named(variable: Option<Seq<char>>, file: Option<Seq<char>>)
    ensures
        variable is Some && variable->0.len() > 0 ==> host_name(variable, file) == variable->0,
        (variable is None || variable->0.len() == 0) && file is Some && !all_white(file->0) ==> {
            &&& host_name(variable, file).len() > 0
            &&& !white(host_name(variable, file)[0])
            &&& !white(host_name(variable, file).last())
            &&& exists|head: Seq<char>, tail: Seq<char>|
                file->0 == #[trigger] (head + host_name(variable, file) + tail) && all_white(head)
                    && all_white(tail)
        },
        (variable is None || variable->0.len() == 0) && (file is None || all_white(file->0))
            ==> host_name(variable, file) == "?"@,
{
    if file is Some {
        law_trimming_takes_white_space_off_the_ends(file->0);
    }
}

/// What is shown of a target tells the host and, where they are known, the
/// user, Codex's home and the databases.
pub proof fn law_a_target_tells_its_places(
    active: ActiveConnectionView,
    user: Option<Seq<char>>,
    host: Seq<char>,
    home: Result<Seq<char>, Seq<char>>,
    state: Result<Seq<char>, Seq<char>>,
)
    ensures
        ({
            let shown = target_of(active, user, host, home, state);
            &&& has_text(shown, host)
            &&& user matches Some(name) ==> has_text(shown, name)
            &&& home matches Ok(path) ==> has_text(shown, path)
            &&& state matches Ok(path) ==> has_text(shown, path)
            &&& has_text(
                shown,
                match active {
                    ActiveConnectionView::Attached(_) => "attached"@,
                    ActiveConnectionView::Managed => "managed"@,
                },
            )
        }),
{
    let shown = target_of(active, user, host, home, state);
    let name = match user {
        Some(user) => user,
        None => "?"@,
    };
    assert(shown.subrange(0, name.len() as int) =~= name);
    assert(occurs_at(shown, name, 0));
    let at = (name + "@"@).len() as int;
    assert(shown.subrange(at, at + host.len()) =~= host);
    assert(occurs_at(shown, host, at));
    let next = (name + "@"@ + host + " · "@).len() as int;
    if let Ok(path) = home {
        let k = next + ("CODEX_HOME"@ + "="@).len();
        assert(shown.subrange(k, k + path.len()) =~= path);
        assert(occurs_at(shown, path, k));
    }
    let third = next + shown_place("CODEX_HOME"@, home).len() + " · "@.len();
    if let Ok(path) = state {
        let k = third + ("SQLite"@ + "="@).len();
        assert(shown.subrange(k, k + path.len()) =~= path);
        assert(occurs_at(shown, path, k));
    }
    reveal_strlit("app-server=attached");
    reveal_strlit("app-server=managed");
    reveal_strlit("attached");
    reveal_strlit("managed");
    let word = match active {
        ActiveConnectionView::Attached(_) => "attached"@,
        ActiveConnectionView::Managed => "managed"@,
    };
    let k = shown.len() - word.len();
    assert(shown.subrange(k, k + word.len()) =~= word);
    assert(occurs_at(shown, word, k));
}

/// Where entries that cannot be looked at are passed by, the newest database is
/// still a regular file with the highest version of those that can be looked
/// at, and there is none exactly where no such file carries a version.
pub proof fn law_the_newest_database_seen_is_found(
    entries: Seq<Result<DirectoryEntryView, Seq<char>>>,
    prefix: Seq<char>,
)
    ensures
        newest_seen(entries, prefix) matches Some((version, name)) ==> exists|i: int|
            0 <= i < entries.len() && is_version(#[trigger] entries[i], prefix, version, name),
        forall|k: int, v: int, other: Seq<char>|
            0 <= k < entries.len() && #[trigger] is_version(entries[k], prefix, v, other)
                ==> newest_seen(entries, prefix) is Some && v <= newest_version_seen(
                entries,
                prefix,
            ),
    decreases entries.len(),
{
    if entries.len() > 0 {
        let head = entries.drop_last();
        let last = entries.len() - 1;
        law_the_newest_database_seen_is_found(head, prefix);
        assert forall|i: int| 0 <= i < last implies #[trigger] head[i] == entries[i] by {}
        if newest_seen(entries, prefix) is Some {
            let (version, name) = newest_seen(entries, prefix)->0;
            if !is_version(entries[last], prefix, version, name) {
                assert(newest_seen(head, prefix) == Some((version, name)));
                let i = choose|i: int|
                    0 <= i < head.len() && is_version(#[trigger] head[i], prefix, version, name);
                assert(is_version(entries[i], prefix, version, name));
            }
        }
        assert forall|k: int, v: int, other: Seq<char>|
            0 <= k < entries.len() && #[trigger] is_version(
                entries[k],
                prefix,
                v,
                other,
            ) implies newest_seen(entries, prefix) is Some && v <= newest_version_seen(
            entries,
            prefix,
        ) by {
            if k < last {
                assert(is_version(head[k], prefix, v, other));
            }
        }
    }
}

/// The version of the newest database that is seen.
pub open spec fn newest_version_seen(
    entries: Seq<Result<DirectoryEntryView, Seq<char>>>,
    prefix: Seq<char>,
) -> int {
    let (version, _) = newest_seen(entries, prefix)->0;
    version
}

} // verus!
