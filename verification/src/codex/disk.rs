//! The disk around a cleanup: which rollout files there are, when a backup
//! counts, and where a deleted thread must be gone from.

use crate::codex::maintenance::{FileState, FileStateView};
use crate::domain::{result_view, VaultError, VaultErrorView};
use crate::ordered::TextSet;
use crate::path::{file_name, last_part};
use crate::text::{chars_of, ends_with, has_suffix};
use vstd::prelude::*;
use vstd::string::*;

verus! {

broadcast use vstd::group_vstd_default;

/// What an entry of a directory is.
#[derive(Debug, Clone, Copy, PartialEq, Eq, Structural)]
pub enum EntryKind {
    Link,
    Directory,
    File,
    Other,
}

/// An entry of a directory: its path, and what it is or why that is not known.
pub struct WalkEntry {
    pub path: String,
    pub kind: Result<EntryKind, String>,
}

#[verifier::ext_equal]
pub struct WalkEntryView {
    pub path: Seq<char>,
    pub kind: Result<EntryKind, Seq<char>>,
}

impl DeepView for WalkEntry {
    type V = WalkEntryView;

    open spec fn deep_view(&self) -> WalkEntryView {
        WalkEntryView {
            path: self.path@,
            kind: match self.kind {
                Ok(kind) => Ok(kind),
                Err(problem) => Err(problem@),
            },
        }
    }
}

/// A walk through directories: those that are still to be read, and the rollout
/// files that were found.
pub struct Walk {
    pub pending: Vec<String>,
    pub files: TextSet,
}

#[verifier::ext_equal]
pub struct WalkView {
    pub pending: Seq<Seq<char>>,
    pub files: Set<Seq<char>>,
}

impl DeepView for Walk {
    type V = WalkView;

    open spec fn deep_view(&self) -> WalkView {
        WalkView { pending: self.pending.deep_view(), files: self.files@ }
    }
}

/// The path of a rollout file: its name ends in the extension and holds more.
pub open spec fn rollout_name(path: Seq<char>) -> bool {
    last_part(path) matches Some(name) && name.len() > 6 && has_suffix(name, ".jsonl"@)
}

fn names_rollout(path: &str) -> (r: bool)
    ensures
        r == rollout_name(path@),
{
    match file_name(path) {
        Some(name) => chars_of(name.as_str()).len() > 6 && ends_with(name.as_str(), ".jsonl"),
        None => false,
    }
}

/// Entries, as values.
pub open spec fn walk_view(entries: Seq<Result<WalkEntry, String>>) -> Seq<
    Result<WalkEntryView, Seq<char>>,
> {
    entries.map_values(|entry: Result<WalkEntry, String>| result_view(entry))
}

/// The walk after the entries of a directory. Links are not followed.
pub open spec fn walked(
    walk: WalkView,
    directory: Seq<char>,
    entries: Seq<Result<WalkEntryView, Seq<char>>>,
    recursive: bool,
) -> Result<WalkView, Seq<char>>
    decreases entries.len(),
{
    if entries.len() == 0 {
        Ok(walk)
    } else {
        match walked(walk, directory, entries.drop_last(), recursive) {
            Err(problem) => Err(problem),
            Ok(before) => match entries.last() {
                Err(problem) => Err("cannot inspect "@ + directory + ": "@ + problem),
                Ok(entry) => match entry.kind {
                    Err(problem) => Err("cannot inspect "@ + entry.path + ": "@ + problem),
                    Ok(EntryKind::Directory) => Ok(
                        if recursive {
                            WalkView { pending: before.pending.push(entry.path), ..before }
                        } else {
                            before
                        },
                    ),
                    Ok(EntryKind::File) => Ok(
                        if rollout_name(entry.path) {
                            WalkView { files: before.files.insert(entry.path), ..before }
                        } else {
                            before
                        },
                    ),
                    Ok(_) => Ok(before),
                },
            },
        }
    }
}

proof fn lemma_walk_fails(
    walk: WalkView,
    directory: Seq<char>,
    entries: Seq<Result<WalkEntryView, Seq<char>>>,
    recursive: bool,
    i: int,
)
    requires
        0 <= i <= entries.len(),
        walked(walk, directory, entries.take(i), recursive) is Err,
    ensures
        walked(walk, directory, entries, recursive) == walked(
            walk,
            directory,
            entries.take(i),
            recursive,
        ),
    decreases entries.len() - i,
{
    if i < entries.len() {
        assert(entries.take(i + 1).drop_last() =~= entries.take(i));
        lemma_walk_fails(walk, directory, entries, recursive, i + 1);
    } else {
        assert(entries.take(i) =~= entries);
    }
}

/// What the listing of a directory says, as values.
pub open spec fn directory_view(
    listing: Result<Vec<Result<WalkEntry, String>>, String>,
) -> Result<Seq<Result<WalkEntryView, Seq<char>>>, Seq<char>> {
    match listing {
        Ok(entries) => Ok(walk_view(entries@)),
        Err(problem) => Err(problem@),
    }
}

impl Walk {
    /// A walk from a directory on.
    pub fn from(root: &str) -> (r: Self)
        ensures
            r.deep_view() == (WalkView { pending: seq![root@], files: Set::empty() }),
    {
        let mut pending: Vec<String> = Vec::new();
        pending.push(root.to_owned());
        assert(pending.deep_view() =~= seq![root@]);
        Walk { pending, files: TextSet::new() }
    }

    /// The directory that is to be read next: the one that was found last.
    pub fn next_directory(&mut self) -> (r: Option<String>)
        ensures
            if old(self).deep_view().pending.len() == 0 {
                r is None && final(self).deep_view() == old(self).deep_view()
            } else {
                r matches Some(directory) && directory@ == old(self).deep_view().pending.last()
                    && final(self).deep_view() == (WalkView {
                    pending: old(self).deep_view().pending.drop_last(),
                    ..old(self).deep_view()
                })
            },
    {
        let ghost before = self.pending.deep_view();
        let ghost raw = self.pending@;
        let next = self.pending.pop();
        proof {
            assert(before.len() == raw.len());
            if raw.len() > 0 {
                assert(self.pending.deep_view() =~= before.drop_last());
            } else {
                assert(self.pending.deep_view() =~= before);
            }
        }
        next
    }

    /// The walk after the entries of a directory; one that fails is given up.
    pub fn take_entries(
        self,
        directory: &str,
        listing: &Result<Vec<Result<WalkEntry, String>>, String>,
        recursive: bool,
    ) -> (r: Result<Self, String>)
        ensures
            match directory_view(*listing) {
                Err(problem) => r matches Err(text) && text@ == "cannot scan "@ + directory@ + ": "@
                    + problem,
                Ok(entries) => result_view(r) == walked(
                    self.deep_view(),
                    directory@,
                    entries,
                    recursive,
                ),
            },
    {
        let entries = match listing {
            Ok(entries) => entries,
            Err(problem) => {
                return Err(
                    "cannot scan ".to_owned().concat(directory).concat(": ").concat(
                        problem.as_str(),
                    ),
                );
            },
        };
        let mut walk = self;
        let ghost start = self.deep_view();
        let ghost all = walk_view(entries@);
        let mut i: usize = 0;
        assert(all.take(0) =~= Seq::empty());
        while i < entries.len()
            invariant
                i <= entries@.len(),
                all == walk_view(entries@),
                start == self.deep_view(),
                directory_view(*listing) == Ok::<
                    Seq<Result<WalkEntryView, Seq<char>>>,
                    Seq<char>,
                >(all),
                walked(start, directory@, all.take(i as int), recursive) == Ok::<
                    WalkView,
                    Seq<char>,
                >(walk.deep_view()),
            decreases entries.len() - i,
        {
            proof {
                assert(all.take(i as int + 1).drop_last() =~= all.take(i as int));
                assert(all.take(i as int + 1).last() == result_view(entries@[i as int]));
                if walked(start, directory@, all.take(i as int + 1), recursive) is Err {
                    lemma_walk_fails(start, directory@, all, recursive, i as int + 1);
                }
            }
            match &entries[i] {
                Err(problem) => {
                    return Err(
                        "cannot inspect ".to_owned().concat(directory).concat(": ").concat(
                            problem.as_str(),
                        ),
                    );
                },
                Ok(entry) => match &entry.kind {
                    Err(problem) => {
                        return Err(
                            "cannot inspect ".to_owned().concat(entry.path.as_str()).concat(
                                ": ",
                            ).concat(problem.as_str()),
                        );
                    },
                    Ok(EntryKind::Directory) => {
                        if recursive {
                            let ghost before = walk.pending.deep_view();
                            walk.pending.push(entry.path.clone());
                            assert(walk.pending.deep_view() =~= before.push(entry.path@));
                        }
                    },
                    Ok(EntryKind::File) => {
                        if names_rollout(entry.path.as_str()) {
                            walk.files.insert(entry.path.clone());
                        }
                    },
                    Ok(_) => {},
                },
            }
            i += 1;
        }
        assert(all.take(i as int) =~= all);
        Ok(walk)
    }
}

/// A rollout file can be removed only where it is a regular file.
pub fn check_removable(state: &FileState) -> (r: Result<(), VaultError>)
    ensures
        match state.deep_view() {
            FileStateView::Regular(_, _) => r is Ok,
            FileStateView::Special => r matches Err(error) && error.deep_view()
                == VaultErrorView::Blocked("rollout is not a regular file"@),
            FileStateView::Absent(problem) => r matches Err(error) && error.deep_view()
                == VaultErrorView::Blocked("rollout changed: "@ + problem),
            FileStateView::Unreadable(problem) => r matches Err(error) && error.deep_view()
                == VaultErrorView::Blocked("rollout changed: "@ + problem),
        },
{
    match state {
        FileState::Regular(_, _) => Ok(()),
        FileState::Special => Err(
            VaultError::Blocked("rollout is not a regular file".to_owned()),
        ),
        FileState::Absent(problem) => Err(
            VaultError::Blocked("rollout changed: ".to_owned().concat(problem.as_str())),
        ),
        FileState::Unreadable(problem) => Err(
            VaultError::Blocked("rollout changed: ".to_owned().concat(problem.as_str())),
        ),
    }
}

/// A backup that is there already counts where it is as large as the file.
pub fn check_existing_backup(source_bytes: u64, target_bytes: u64, target: &str) -> (r: Result<
    (),
    VaultError,
>)
    ensures
        if source_bytes == target_bytes {
            r is Ok
        } else {
            r matches Err(error) && error.deep_view() == VaultErrorView::Storage(
                "backup target already exists with a different size: "@ + target@,
            )
        },
{
    if source_bytes == target_bytes {
        Ok(())
    } else {
        Err(
            VaultError::Storage(
                "backup target already exists with a different size: ".to_owned().concat(target),
            ),
        )
    }
}

/// A new backup counts where as many bytes were copied as the file holds.
pub fn check_copied(copied: u64, expected: u64, source: &str) -> (r: Result<(), VaultError>)
    ensures
        if copied == expected {
            r is Ok
        } else {
            r matches Err(error) && error.deep_view() == VaultErrorView::Storage(
                "backup size mismatch for "@ + source@,
            )
        },
{
    if copied == expected {
        Ok(())
    } else {
        Err(VaultError::Storage("backup size mismatch for ".to_owned().concat(source)))
    }
}

/// The backup of a database counts where it holds anything.
pub fn check_database_backup(bytes: u64, target: &str) -> (r: Result<(), VaultError>)
    ensures
        if bytes > 0 {
            r is Ok
        } else {
            r matches Err(error) && error.deep_view() == VaultErrorView::Storage(
                "state database backup is empty: "@ + target@,
            )
        },
{
    if bytes > 0 {
        Ok(())
    } else {
        Err(VaultError::Storage("state database backup is empty: ".to_owned().concat(target)))
    }
}

/// A cleanup must change exactly one row.
pub fn check_one_change(changed: usize) -> (r: Result<(), VaultError>)
    ensures
        if changed == 1 {
            r is Ok
        } else {
            r matches Err(error) && error.deep_view() == VaultErrorView::StalePreview
        },
{
    if changed == 1 {
        Ok(())
    } else {
        Err(VaultError::StalePreview)
    }
}

/// The columns of the state database that a deleted thread must be gone from.
pub open spec fn state_places() -> Seq<(Seq<char>, Seq<char>)> {
    seq![
        ("threads"@, "id"@),
        ("thread_attachments"@, "thread_id"@),
        ("thread_dynamic_tools"@, "thread_id"@),
        ("thread_spawn_edges"@, "parent_thread_id"@),
        ("thread_spawn_edges"@, "child_thread_id"@),
    ]
}

/// The tables of the history that a deleted thread must be gone from.
pub open spec fn history_places() -> Seq<Seq<char>> {
    seq!["thread_items"@, "thread_turns"@, "thread_realtime_items"@]
}

/// A place that a deleted thread must be gone from.
#[derive(Debug, PartialEq, Eq)]
pub enum Place {
    RolloutFile,
    SessionIndex,
    /// A table and a column of the state database.
    State(&'static str, &'static str),
    /// A table of the history.
    History(&'static str),
}

/// The name under which a place is reported.
pub open spec fn place_name(place: Place) -> Seq<char> {
    match place {
        Place::RolloutFile => "rollout file"@,
        Place::SessionIndex => "session_index.jsonl"@,
        Place::State(table, column) => table@ + "."@ + column@,
        Place::History(table) => table@,
    }
}

/// The names of all places that a deleted thread must be gone from: its rollout
/// file, the session index, the state database, and the history where there is
/// one.
pub open spec fn searched_places(history: bool) -> Seq<Seq<char>> {
    seq!["rollout file"@, "session_index.jsonl"@] + state_places().map_values(
        |place: (Seq<char>, Seq<char>)| place.0 + "."@ + place.1,
    ) + if history {
        history_places()
    } else {
        Seq::empty()
    }
}

/// All places that a deleted thread must be gone from.
pub fn residue_places(history: bool) -> (r: Vec<Place>)
    ensures
        r@.map_values(|place: Place| place_name(place)) == searched_places(history),
{
    let mut r = vec![
        Place::RolloutFile,
        Place::SessionIndex,
        Place::State("threads", "id"),
        Place::State("thread_attachments", "thread_id"),
        Place::State("thread_dynamic_tools", "thread_id"),
        Place::State("thread_spawn_edges", "parent_thread_id"),
        Place::State("thread_spawn_edges", "child_thread_id"),
    ];
    if history {
        r.push(Place::History("thread_items"));
        r.push(Place::History("thread_turns"));
        r.push(Place::History("thread_realtime_items"));
    }
    assert(r@.map_values(|place: Place| place_name(place)) =~= searched_places(history));
    r
}

impl Place {
    /// The name under which the place is reported.
    pub fn name(&self) -> (r: String)
        ensures
            r@ == place_name(*self),
    {
        match self {
            Place::RolloutFile => "rollout file".to_owned(),
            Place::SessionIndex => "session_index.jsonl".to_owned(),
            Place::State(table, column) => (*table).to_owned().concat(".").concat(*column),
            Place::History(table) => (*table).to_owned(),
        }
    }
}

} // verus!
