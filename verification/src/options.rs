//! The arguments of the program.

use crate::codex::locate::ConnectionMode;
use crate::domain::result_view;
use crate::path::{join_path, joined_path};
use crate::text::{chars_of, same};
use vstd::prelude::*;
use vstd::string::*;

verus! {

broadcast use vstd::group_vstd_default;

/// What the program is to work with. A path is told by the place of the
/// argument that holds it.
#[derive(Debug, Clone, Copy, PartialEq, Eq, Structural)]
pub struct Options {
    pub codex: Option<usize>,
    pub database: Option<usize>,
    pub connection: ConnectionMode,
}

/// What the arguments ask for.
#[derive(Debug, Clone, Copy, PartialEq, Eq, Structural)]
pub enum Request {
    Help,
    Version,
    Run(Options),
}

/// The path behind a name: an argument that is not empty. One that is no UTF-8
/// stands as `None`.
pub open spec fn path_at(args: Seq<Option<Seq<char>>>, at: int, name: Seq<char>) -> Result<
    usize,
    Seq<char>,
> {
    if at < args.len() && args[at] != Some(Seq::<char>::empty()) {
        Ok(at as usize)
    } else {
        Err(name + " requires a non-empty path"@)
    }
}

/// The connection behind its name.
pub open spec fn connection_at(args: Seq<Option<Seq<char>>>, at: int) -> Result<
    ConnectionMode,
    Seq<char>,
> {
    if at < args.len() {
        match args[at] {
            Some(value) => if value == "auto"@ {
                Ok(ConnectionMode::Auto)
            } else if value == "attached"@ {
                Ok(ConnectionMode::Attached)
            } else if value == "managed"@ {
                Ok(ConnectionMode::Managed)
            } else {
                Err("--connection requires auto, attached or managed"@)
            },
            None => Err("--connection requires auto, attached or managed"@),
        }
    } else {
        Err("--connection requires auto, attached or managed"@)
    }
}

/// What the arguments from a place on ask for.
pub open spec fn request_from(args: Seq<Option<Seq<char>>>, at: int, options: Options) -> Result<
    Request,
    Seq<char>,
>
    decreases args.len() - at,
{
    if at >= args.len() {
        Ok(Request::Run(options))
    } else {
        match args[at] {
            None => Err("arguments must be valid UTF-8"@),
            Some(value) => if value == "-h"@ || value == "--help"@ {
                Ok(Request::Help)
            } else if value == "-V"@ || value == "--version"@ {
                Ok(Request::Version)
            } else if value == "--codex"@ {
                match path_at(args, at + 1, "--codex"@) {
                    Ok(path) => request_from(
                        args,
                        at + 2,
                        Options { codex: Some(path), ..options },
                    ),
                    Err(problem) => Err(problem),
                }
            } else if value == "--db"@ {
                match path_at(args, at + 1, "--db"@) {
                    Ok(path) => request_from(
                        args,
                        at + 2,
                        Options { database: Some(path), ..options },
                    ),
                    Err(problem) => Err(problem),
                }
            } else if value == "--connection"@ {
                match connection_at(args, at + 1) {
                    Ok(connection) => request_from(
                        args,
                        at + 2,
                        Options { connection, ..options },
                    ),
                    Err(problem) => Err(problem),
                }
            } else {
                Err("unknown argument: "@ + value)
            },
        }
    }
}

/// What the program works with where no argument says otherwise.
pub open spec fn default_options() -> Options {
    Options { codex: None, database: None, connection: ConnectionMode::Auto }
}

fn read_path(args: &Vec<Option<String>>, at: usize, name: &str) -> (r: Result<usize, String>)
    ensures
        result_view(r) == path_at(args.deep_view(), at as int, name@),
{
    if at < args.len() {
        assert(args.deep_view()[at as int] == args@[at as int].deep_view());
        let empty = match &args[at] {
            Some(value) => {
                let n: usize = chars_of(value.as_str()).len();
                proof {
                    if n == 0 {
                        assert(value@ =~= Seq::<char>::empty());
                    }
                }
                n == 0
            },
            None => false,
        };
        if !empty {
            return Ok(at);
        }
    }
    Err(name.to_owned().concat(" requires a non-empty path"))
}

fn read_connection(args: &Vec<Option<String>>, at: usize) -> (r: Result<ConnectionMode, String>)
    ensures
        match connection_at(args.deep_view(), at as int) {
            Ok(mode) => r matches Ok(found) && found == mode,
            Err(problem) => r matches Err(text) && text@ == problem,
        },
{
    if at < args.len() {
        assert(args.deep_view()[at as int] == args@[at as int].deep_view());
        match &args[at] {
            Some(value) => {
                let value = value.as_str();
                if same(value, "auto") {
                    return Ok(ConnectionMode::Auto);
                }
                if same(value, "attached") {
                    return Ok(ConnectionMode::Attached);
                }
                if same(value, "managed") {
                    return Ok(ConnectionMode::Managed);
                }
            },
            None => {},
        }
    }
    Err("--connection requires auto, attached or managed".to_owned())
}

impl Options {
    /// Reads the arguments behind the program's name. One that is no UTF-8
    /// stands as `None`.
    pub fn parse_from(args: &Vec<Option<String>>) -> (r: Result<Request, String>)
        ensures
            match request_from(args.deep_view(), 0, default_options()) {
                Ok(request) => r matches Ok(found) && found == request,
                Err(problem) => r matches Err(text) && text@ == problem,
            },
    {
        let ghost all = args.deep_view();
        let mut options = Options {
            codex: None,
            database: None,
            connection: ConnectionMode::Auto,
        };
        let mut at: usize = 0;
        while at < args.len()
            invariant
                all == args.deep_view(),
                request_from(all, 0, default_options()) == request_from(
                    all,
                    at as int,
                    options,
                ),
            decreases args.len() - at,
        {
            assert(all[at as int] == args@[at as int].deep_view());
            let value = match &args[at] {
                Some(value) => value.as_str(),
                None => {
                    return Err("arguments must be valid UTF-8".to_owned());
                },
            };
            if same(value, "-h") || same(value, "--help") {
                return Ok(Request::Help);
            }
            if same(value, "-V") || same(value, "--version") {
                return Ok(Request::Version);
            }
            if same(value, "--codex") {
                match read_path(args, at + 1, "--codex") {
                    Ok(path) => {
                        options = Options { codex: Some(path), ..options };
                    },
                    Err(problem) => {
                        return Err(problem);
                    },
                }
            } else if same(value, "--db") {
                match read_path(args, at + 1, "--db") {
                    Ok(path) => {
                        options = Options { database: Some(path), ..options };
                    },
                    Err(problem) => {
                        return Err(problem);
                    },
                }
            } else if same(value, "--connection") {
                match read_connection(args, at + 1) {
                    Ok(connection) => {
                        options = Options { connection, ..options };
                    },
                    Err(problem) => {
                        return Err(problem);
                    },
                }
            } else {
                return Err("unknown argument: ".to_owned().concat(value));
            }
            at = at + 2;
        }
        Ok(Request::Run(options))
    }
}

/// What the help says.
pub open spec fn help_text(version: Seq<char>) -> Seq<char> {
    "Codex Vault "@ + version
        + "\n\nUsage: codex-vault [--codex PATH] [--db PATH] [--connection auto|attached|managed]\n\nA local interactive TUI. No unattended write mode is provided."@
}

pub fn help(version: &str) -> (r: String)
    ensures
        r@ == help_text(version@),
{
    "Codex Vault ".to_owned().concat(version).concat(
        "\n\nUsage: codex-vault [--codex PATH] [--db PATH] [--connection auto|attached|managed]\n\nA local interactive TUI. No unattended write mode is provided.",
    )
}

/// Where the program keeps its own database, by the variables of the
/// environment.
pub open spec fn own_database(
    state_dir: Option<Seq<char>>,
    macos: bool,
    xdg_state_home: Option<Seq<char>>,
    home: Option<Seq<char>>,
) -> Result<Seq<char>, Seq<char>> {
    match state_dir {
        Some(path) => Ok(joined_path(path, "codex-vault.db"@)),
        None => if macos {
            match home {
                Some(home) => Ok(
                    joined_path(
                        home,
                        "Library/Application Support/codex-vault/codex-vault.db"@,
                    ),
                ),
                None => Err("HOME is required to locate application state"@),
            }
        } else {
            match (xdg_state_home, home) {
                (Some(path), _) => Ok(joined_path(path, "codex-vault/codex-vault.db"@)),
                (None, Some(home)) => Ok(
                    joined_path(home, ".local/state/codex-vault/codex-vault.db"@),
                ),
                (None, None) => Err("HOME is required to locate application state"@),
            }
        },
    }
}

/// Where the program keeps its own database.
pub fn database_path_from(
    state_dir: Option<String>,
    macos: bool,
    xdg_state_home: Option<String>,
    home: Option<String>,
) -> (r: Result<String, String>)
    ensures
        result_view(r) == own_database(
            state_dir.deep_view(),
            macos,
            xdg_state_home.deep_view(),
            home.deep_view(),
        ),
{
    match state_dir {
        Some(path) => Ok(join_path(path.as_str(), "codex-vault.db")),
        None => if macos {
            match home {
                Some(home) => Ok(
                    join_path(
                        home.as_str(),
                        "Library/Application Support/codex-vault/codex-vault.db",
                    ),
                ),
                None => Err("HOME is required to locate application state".to_owned()),
            }
        } else {
            match (xdg_state_home, home) {
                (Some(path), _) => Ok(join_path(path.as_str(), "codex-vault/codex-vault.db")),
                (None, Some(home)) => Ok(
                    join_path(home.as_str(), ".local/state/codex-vault/codex-vault.db"),
                ),
                (None, None) => Err("HOME is required to locate application state".to_owned()),
            }
        },
    }
}

} // verus!
