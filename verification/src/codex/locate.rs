//! Where Codex keeps its state, and how its server is reached.

use crate::domain::{result_view, VaultError, VaultErrorView};
use crate::outside::{field_of_toml, toml_field, TomlField, TomlFieldView};
use crate::path::{join_path, joined_path};
use crate::text::{
    chars_of, parse_unsigned, strip_prefix, strip_suffix, trim, trimmed, unsigned_value,
    without_prefix, without_suffix,
};
use vstd::prelude::*;
use vstd::string::*;

verus! {

broadcast use vstd::group_vstd_default;

/// How the server is to be reached.
#[derive(Debug, Clone, Copy, PartialEq, Eq, Structural)]
pub enum ConnectionMode {
    /// Through a running server's socket where there is one, else by a server
    /// of one's own.
    Auto,
    /// Through a running server's socket.
    Attached,
    /// By a server of one's own.
    Managed,
}

/// How the server is reached.
#[derive(Debug, PartialEq, Eq)]
pub enum ActiveConnection {
    /// Through the socket at a path.
    Attached(String),
    Managed,
}

#[verifier::ext_equal]
pub enum ActiveConnectionView {
    Attached(Seq<char>),
    Managed,
}

impl DeepView for ActiveConnection {
    type V = ActiveConnectionView;

    open spec fn deep_view(&self) -> ActiveConnectionView {
        match self {
            ActiveConnection::Attached(path) => ActiveConnectionView::Attached(path@),
            ActiveConnection::Managed => ActiveConnectionView::Managed,
        }
    }
}

/// How the server is reached, by what is asked for and the socket that exists.
pub open spec fn connection_for(requested: ConnectionMode, socket: Option<Seq<char>>) -> Result<
    ActiveConnectionView,
    VaultErrorView,
> {
    match (requested, socket) {
        (ConnectionMode::Managed, _) => Ok(ActiveConnectionView::Managed),
        (_, Some(path)) => Ok(ActiveConnectionView::Attached(path)),
        (ConnectionMode::Auto, None) => Ok(ActiveConnectionView::Managed),
        (ConnectionMode::Attached, None) => Err(
            VaultErrorView::Unavailable(
                "no running app-server control socket is available for attached mode"@,
            ),
        ),
    }
}

/// A socket that exists is never passed by, unless a server of its own was asked
/// for; and without one a server is started only where that was not ruled out.
pub proof fn law_a_socket_is_not_passed_by(requested: ConnectionMode, socket: Option<Seq<char>>)
    ensures
        connection_for(requested, socket) == Ok::<ActiveConnectionView, VaultErrorView>(
            ActiveConnectionView::Managed,
        ) <==> requested is Managed || (requested is Auto && socket is None),
        socket is Some && requested !is Managed ==> connection_for(requested, socket) == Ok::<
            ActiveConnectionView,
            VaultErrorView,
        >(ActiveConnectionView::Attached(socket->0)),
{
}

/// Chooses how to reach the server. `exists` says whether the socket is there.
pub fn select_connection(requested: ConnectionMode, socket: Option<&str>, exists: bool) -> (r:
    Result<ActiveConnection, VaultError>)
    ensures
        result_view(r) == connection_for(
            requested,
            match socket {
                Some(path) => if exists {
                    Some(path@)
                } else {
                    None
                },
                None => None,
            },
        ),
{
    let there = match socket {
        Some(path) => if exists {
            Some(path)
        } else {
            None
        },
        None => None,
    };
    match (requested, there) {
        (ConnectionMode::Managed, _) => Ok(ActiveConnection::Managed),
        (_, Some(path)) => Ok(ActiveConnection::Attached(path.to_owned())),
        (ConnectionMode::Auto, None) => Ok(ActiveConnection::Managed),
        (ConnectionMode::Attached, None) => Err(
            VaultError::Unavailable(
                "no running app-server control socket is available for attached mode".to_owned(),
            ),
        ),
    }
}

/// The name of the host: the variable, else the file, else unknown.
pub open spec fn host_name(variable: Option<Seq<char>>, file: Option<Seq<char>>) -> Seq<char> {
    if variable matches Some(name) && name.len() > 0 {
        variable->0
    } else if file matches Some(text) && trimmed(text).len() > 0 {
        trimmed(file->0)
    } else {
        "?"@
    }
}

/// A place, or that it is unknown.
pub open spec fn shown_place(name: Seq<char>, place: Result<Seq<char>, Seq<char>>) -> Seq<char> {
    match place {
        Ok(path) => name + "="@ + path,
        Err(_) => name + "=?"@,
    }
}

/// Whom and what the program works on.
pub open spec fn target_of(
    active: ActiveConnectionView,
    user: Option<Seq<char>>,
    host: Seq<char>,
    home: Result<Seq<char>, Seq<char>>,
    state: Result<Seq<char>, Seq<char>>,
) -> Seq<char> {
    let name = match user {
        Some(user) => user,
        None => "?"@,
    };
    let connection = match active {
        ActiveConnectionView::Attached(_) => "app-server=attached"@,
        ActiveConnectionView::Managed => "app-server=managed"@,
    };
    name + "@"@ + host + " · "@ + shown_place("CODEX_HOME"@, home) + " · "@ + shown_place(
        "SQLite"@,
        state,
    ) + " · "@ + connection
}

fn host_from(variable: &Option<String>, file: &Option<String>) -> (r: String)
    ensures
        r@ == host_name(variable.deep_view(), file.deep_view()),
{
    match variable {
        Some(name) => {
            if chars_of(name.as_str()).len() > 0 {
                return name.clone();
            }
        },
        None => {},
    }
    match file {
        Some(text) => {
            let name = trim(text.as_str());
            if chars_of(name.as_str()).len() > 0 {
                return name;
            }
        },
        None => {},
    }
    "?".to_owned()
}

fn place_text(name: &str, place: &Result<String, String>) -> (r: String)
    ensures
        r@ == shown_place(name@, result_view(*place)),
{
    match place {
        Ok(path) => name.to_owned().concat("=").concat(path.as_str()),
        Err(_) => name.to_owned().concat("=?"),
    }
}

/// Whom and what the program works on.
pub fn connection_target_summary(
    active: &ActiveConnection,
    user: &Option<String>,
    host_variable: &Option<String>,
    host_file: &Option<String>,
    codex_home: &Result<String, String>,
    codex_state_dir: &Result<String, String>,
) -> (r: String)
    ensures
        r@ == target_of(
            active.deep_view(),
            user.deep_view(),
            host_name(host_variable.deep_view(), host_file.deep_view()),
            result_view(*codex_home),
            result_view(*codex_state_dir),
        ),
{
    let name = match user {
        Some(user) => user.clone(),
        None => "?".to_owned(),
    };
    let connection = match active {
        ActiveConnection::Attached(_) => "app-server=attached",
        ActiveConnection::Managed => "app-server=managed",
    };
    name.concat("@").concat(host_from(host_variable, host_file).as_str()).concat(" · ").concat(
        place_text("CODEX_HOME", codex_home).as_str(),
    ).concat(" · ").concat(place_text("SQLite", codex_state_dir).as_str()).concat(" · ").concat(
        connection,
    )
}

/// The home of Codex, by the variables of the environment.
pub open spec fn home_from(codex_home: Option<Seq<char>>, home: Option<Seq<char>>) -> Result<
    Seq<char>,
    Seq<char>,
> {
    match codex_home {
        Some(path) => if path.len() == 0 {
            Err("CODEX_HOME is empty"@)
        } else {
            Ok(path)
        },
        None => match home {
            Some(path) => if path.len() == 0 {
                Err("HOME is unavailable and CODEX_HOME is not set"@)
            } else {
                Ok(joined_path(path, ".codex"@))
            },
            None => Err("HOME is unavailable and CODEX_HOME is not set"@),
        },
    }
}

/// The home of Codex.
pub fn default_codex_state_dir(codex_home: Option<String>, home: Option<String>) -> (r: Result<
    String,
    String,
>)
    ensures
        result_view(r) == home_from(codex_home.deep_view(), home.deep_view()),
{
    match codex_home {
        Some(path) => if chars_of(path.as_str()).len() == 0 {
            Err("CODEX_HOME is empty".to_owned())
        } else {
            Ok(path)
        },
        None => match home {
            Some(path) => if chars_of(path.as_str()).len() == 0 {
                Err("HOME is unavailable and CODEX_HOME is not set".to_owned())
            } else {
                Ok(join_path(path.as_str(), ".codex"))
            },
            None => Err("HOME is unavailable and CODEX_HOME is not set".to_owned()),
        },
    }
}

/// The configuration file.
#[derive(Debug, PartialEq, Eq)]
pub enum ConfigFile {
    Missing,
    Unreadable(String),
    Text(String),
}

#[verifier::ext_equal]
pub enum ConfigFileView {
    Missing,
    Unreadable(Seq<char>),
    Text(Seq<char>),
}

impl DeepView for ConfigFile {
    type V = ConfigFileView;

    open spec fn deep_view(&self) -> ConfigFileView {
        match self {
            ConfigFile::Missing => ConfigFileView::Missing,
            ConfigFile::Unreadable(problem) => ConfigFileView::Unreadable(problem@),
            ConfigFile::Text(text) => ConfigFileView::Text(text@),
        }
    }
}

/// The directory of the databases, by the field of the configuration and the
/// variable of the environment.
pub open spec fn database_directory(
    home: Seq<char>,
    field: TomlFieldView,
    variable: Option<Seq<char>>,
) -> Result<Seq<char>, Seq<char>> {
    let config = joined_path(home, "config.toml"@);
    match field {
        TomlFieldView::Broken(problem) => Err("cannot parse "@ + config + ": "@ + problem),
        TomlFieldView::NotText => Err("sqlite_home in "@ + config + " is not a string"@),
        TomlFieldView::Text(path) => if path.len() == 0 {
            Err("sqlite_home in "@ + config + " is empty"@)
        } else {
            Ok(path)
        },
        TomlFieldView::Absent => match variable {
            Some(path) => if path.len() == 0 {
                Err("CODEX_SQLITE_HOME is empty"@)
            } else {
                Ok(path)
            },
            None => Ok(home),
        },
    }
}

/// The directory of the databases, by the field that was read from the
/// configuration.
pub fn sqlite_dir_by_field(home: &str, field: TomlField, variable: Option<String>) -> (r: Result<
    String,
    String,
>)
    ensures
        result_view(r) == database_directory(home@, field.deep_view(), variable.deep_view()),
{
    let config = join_path(home, "config.toml");
    match field {
        TomlField::Broken(problem) => Err(
            "cannot parse ".to_owned().concat(config.as_str()).concat(": ").concat(
                problem.as_str(),
            ),
        ),
        TomlField::NotText => Err(
            "sqlite_home in ".to_owned().concat(config.as_str()).concat(" is not a string"),
        ),
        TomlField::Text(path) => if chars_of(path.as_str()).len() == 0 {
            Err("sqlite_home in ".to_owned().concat(config.as_str()).concat(" is empty"))
        } else {
            Ok(path)
        },
        TomlField::Absent => match variable {
            Some(path) => if chars_of(path.as_str()).len() == 0 {
                Err("CODEX_SQLITE_HOME is empty".to_owned())
            } else {
                Ok(path)
            },
            None => Ok(home.to_owned()),
        },
    }
}

/// The directory of the databases: what the configuration says, else the
/// variable of the environment, else the home.
pub fn default_codex_sqlite_dir(home: &str, config: ConfigFile, variable: Option<String>) -> (r:
    Result<String, String>)
    ensures
        result_view(r) == match config.deep_view() {
            ConfigFileView::Unreadable(problem) => Err::<Seq<char>, Seq<char>>(
                "cannot read "@ + joined_path(home@, "config.toml"@) + ": "@ + problem,
            ),
            ConfigFileView::Missing => database_directory(
                home@,
                TomlFieldView::Absent,
                variable.deep_view(),
            ),
            ConfigFileView::Text(text) => database_directory(
                home@,
                toml_field(text, "sqlite_home"@),
                variable.deep_view(),
            ),
        },
{
    match config {
        ConfigFile::Unreadable(problem) => Err(
            "cannot read ".to_owned().concat(join_path(home, "config.toml").as_str()).concat(
                ": ",
            ).concat(problem.as_str()),
        ),
        ConfigFile::Missing => sqlite_dir_by_field(home, TomlField::Absent, variable),
        ConfigFile::Text(text) => sqlite_dir_by_field(
            home,
            field_of_toml(text.as_str(), "sqlite_home"),
            variable,
        ),
    }
}

/// An entry of a directory.
#[derive(Debug, PartialEq, Eq)]
pub struct DirectoryEntry {
    /// None where the name is no UTF-8.
    pub name: Option<String>,
    /// Whether it is a regular file, or why that is not known.
    pub regular: Result<bool, String>,
}

#[verifier::ext_equal]
pub struct DirectoryEntryView {
    pub name: Option<Seq<char>>,
    pub regular: Result<bool, Seq<char>>,
}

impl DeepView for DirectoryEntry {
    type V = DirectoryEntryView;

    open spec fn deep_view(&self) -> DirectoryEntryView {
        DirectoryEntryView { name: self.name.deep_view(), regular: result_view(self.regular) }
    }
}

/// Entries, as values.
pub open spec fn entries_view(entries: Seq<Result<DirectoryEntry, String>>) -> Seq<
    Result<DirectoryEntryView, Seq<char>>,
> {
    entries.map_values(|entry: Result<DirectoryEntry, String>| result_view(entry))
}

/// The version in the name of a database.
pub open spec fn version_in(name: Seq<char>, prefix: Seq<char>) -> Option<int> {
    match without_prefix(name, prefix) {
        Some(rest) => match without_suffix(rest, ".sqlite"@) {
            Some(number) => unsigned_value(number, u32::MAX as int),
            None => None,
        },
        None => None,
    }
}

fn read_version(name: &str, prefix: &str) -> (r: Option<u64>)
    ensures
        match version_in(name@, prefix@) {
            Some(n) => r matches Some(m) && m == n,
            None => r is None,
        },
{
    match strip_prefix(name, prefix) {
        Some(rest) => match strip_suffix(rest.as_str(), ".sqlite") {
            Some(number) => parse_unsigned(number.as_str(), u32::MAX as u64),
            None => None,
        },
        None => None,
    }
}

/// The newer of two databases; of two with one version, the second.
pub open spec fn newer(best: Option<(int, Seq<char>)>, version: int, name: Seq<char>) -> Option<
    (int, Seq<char>),
> {
    match best {
        Some((known, _)) => if version >= known {
            Some((version, name))
        } else {
            best
        },
        None => Some((version, name)),
    }
}

/// The newest database among the entries, with its version. What stands in the
/// way of telling is an error.
pub open spec fn newest(
    entries: Seq<Result<DirectoryEntryView, Seq<char>>>,
    prefix: Seq<char>,
) -> Result<Option<(int, Seq<char>)>, Seq<char>>
    decreases entries.len(),
{
    if entries.len() == 0 {
        Ok(None)
    } else {
        match newest(entries.drop_last(), prefix) {
            Err(problem) => Err(problem),
            Ok(best) => match entries.last() {
                Err(problem) => Err("cannot inspect state directory: "@ + problem),
                Ok(entry) => match entry.name {
                    None => Ok(best),
                    Some(name) => match version_in(name, prefix) {
                        None => Ok(best),
                        Some(version) => match entry.regular {
                            Err(problem) => Err("cannot inspect "@ + name + ": "@ + problem),
                            Ok(false) => Ok(best),
                            Ok(true) => Ok(newer(best, version, name)),
                        },
                    },
                },
            },
        }
    }
}

/// The newest database among the entries that could be looked at.
pub open spec fn newest_seen(
    entries: Seq<Result<DirectoryEntryView, Seq<char>>>,
    prefix: Seq<char>,
) -> Option<(int, Seq<char>)>
    decreases entries.len(),
{
    if entries.len() == 0 {
        None
    } else {
        let best = newest_seen(entries.drop_last(), prefix);
        match entries.last() {
            Err(_) => best,
            Ok(entry) => match (entry.name, entry.regular) {
                (Some(name), Ok(true)) => match version_in(name, prefix) {
                    Some(version) => newer(best, version, name),
                    None => best,
                },
                _ => best,
            },
        }
    }
}

proof fn lemma_newest_fails(
    entries: Seq<Result<DirectoryEntryView, Seq<char>>>,
    prefix: Seq<char>,
    i: int,
)
    requires
        0 <= i <= entries.len(),
        newest(entries.take(i), prefix) is Err,
    ensures
        newest(entries, prefix) == newest(entries.take(i), prefix),
    decreases entries.len() - i,
{
    if i < entries.len() {
        assert(entries.take(i + 1).drop_last() =~= entries.take(i));
        lemma_newest_fails(entries, prefix, i + 1);
    } else {
        assert(entries.take(i) =~= entries);
    }
}

/// The best so far, as a value.
spec fn best_view(best: Option<(u64, String)>) -> Option<(int, Seq<char>)> {
    match best {
        Some((version, name)) => Some((version as int, name@)),
        None => None,
    }
}

fn keep_newer(best: Option<(u64, String)>, version: u64, name: &String) -> (r: Option<
    (u64, String),
>)
    ensures
        best_view(r) == newer(best_view(best), version as int, name@),
{
    match best {
        Some((known, kept)) => if version >= known {
            Some((version, name.clone()))
        } else {
            Some((known, kept))
        },
        None => Some((version, name.clone())),
    }
}

/// The path of the newest state database of a directory.
pub open spec fn state_database(
    directory: Seq<char>,
    entries: Result<Seq<Result<DirectoryEntryView, Seq<char>>>, Seq<char>>,
) -> Result<Seq<char>, Seq<char>> {
    match entries {
        Err(problem) => Err("cannot read "@ + directory + ": "@ + problem),
        Ok(entries) => match newest(entries, "state_"@) {
            Err(problem) => Err(problem),
            Ok(Some((_, name))) => Ok(joined_path(directory, name)),
            Ok(None) => Err("no versioned state_*.sqlite file exists in "@ + directory),
        },
    }
}

/// The entries of a directory, as values.
pub open spec fn listing_view(
    entries: Result<Vec<Result<DirectoryEntry, String>>, String>,
) -> Result<Seq<Result<DirectoryEntryView, Seq<char>>>, Seq<char>> {
    match entries {
        Ok(entries) => Ok(entries_view(entries@)),
        Err(problem) => Err(problem@),
    }
}

/// Finds the newest state database of a directory.
pub fn find_state_database(
    directory: &str,
    listing: &Result<Vec<Result<DirectoryEntry, String>>, String>,
) -> (r: Result<String, String>)
    ensures
        result_view(r) == state_database(directory@, listing_view(*listing)),
{
    let entries = match listing {
        Ok(entries) => entries,
        Err(problem) => {
            return Err(
                "cannot read ".to_owned().concat(directory).concat(": ").concat(problem.as_str()),
            );
        },
    };
    let ghost all = entries_view(entries@);
    let mut best: Option<(u64, String)> = None;
    let mut i: usize = 0;
    assert(all.take(0) =~= Seq::empty());
    while i < entries.len()
        invariant
            i <= entries@.len(),
            all == entries_view(entries@),
            listing_view(*listing) == Ok::<
                Seq<Result<DirectoryEntryView, Seq<char>>>,
                Seq<char>,
            >(all),
            newest(all.take(i as int), "state_"@) == Ok::<Option<(int, Seq<char>)>, Seq<char>>(
                best_view(best),
            ),
        decreases entries.len() - i,
    {
        proof {
            assert(all.take(i as int + 1).drop_last() =~= all.take(i as int));
            assert(all.take(i as int + 1).last() == result_view(entries@[i as int]));
            if newest(all.take(i as int + 1), "state_"@) is Err {
                lemma_newest_fails(all, "state_"@, i as int + 1);
            }
        }
        match &entries[i] {
            Err(problem) => {
                return Err(
                    "cannot inspect state directory: ".to_owned().concat(problem.as_str()),
                );
            },
            Ok(entry) => match &entry.name {
                None => {},
                Some(name) => match read_version(name.as_str(), "state_") {
                    None => {},
                    Some(version) => match &entry.regular {
                        Err(problem) => {
                            return Err(
                                "cannot inspect ".to_owned().concat(name.as_str()).concat(
                                    ": ",
                                ).concat(problem.as_str()),
                            );
                        },
                        Ok(regular) => {
                            if *regular {
                                best = keep_newer(best, version, name);
                            }
                        },
                    },
                },
            },
        }
        i += 1;
    }
    assert(all.take(i as int) =~= all);
    match best {
        Some((_, name)) => Ok(join_path(directory, name.as_str())),
        None => Err(
            "no versioned state_*.sqlite file exists in ".to_owned().concat(directory),
        ),
    }
}

/// Finds the newest database of a directory with a prefix, where one can be
/// seen.
pub fn latest_versioned_database(
    directory: &str,
    entries: &Vec<Result<DirectoryEntry, String>>,
    prefix: &str,
) -> (r: Option<String>)
    ensures
        r.deep_view() == match newest_seen(entries_view(entries@), prefix@) {
            Some((_, name)) => Some(joined_path(directory@, name)),
            None => None,
        },
{
    let ghost all = entries_view(entries@);
    let mut best: Option<(u64, String)> = None;
    let mut i: usize = 0;
    assert(all.take(0) =~= Seq::empty());
    while i < entries.len()
        invariant
            i <= entries@.len(),
            all == entries_view(entries@),
            newest_seen(all.take(i as int), prefix@) == best_view(best),
        decreases entries.len() - i,
    {
        proof {
            assert(all.take(i as int + 1).drop_last() =~= all.take(i as int));
            assert(all.take(i as int + 1).last() == result_view(entries@[i as int]));
        }
        match &entries[i] {
            Err(_) => {},
            Ok(entry) => match (&entry.name, &entry.regular) {
                (Some(name), Ok(regular)) => {
                    if *regular {
                        match read_version(name.as_str(), prefix) {
                            Some(version) => {
                                best = keep_newer(best, version, name);
                            },
                            None => {},
                        }
                    }
                },
                _ => {},
            },
        }
        i += 1;
    }
    assert(all.take(i as int) =~= all);
    match best {
        Some((_, name)) => Some(join_path(directory, name.as_str())),
        None => None,
    }
}

} // verus!
