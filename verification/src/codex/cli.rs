//! The commands of the Codex command line.

use crate::domain::{result_view, Action, VaultError, VaultErrorView};
use crate::outside::{lossy_text, text_from_bytes};
use crate::text::{chars_of, join, joined, one, split_whitespace, text_between, words};
use vstd::prelude::*;
use vstd::string::*;

verus! {

broadcast use vstd::group_vstd_default;

/// How many characters of an error are shown.
pub const CLI_ERROR_LIMIT: usize = 512;

/// The command of an action.
pub open spec fn command_of(action: Action) -> Result<Seq<char>, VaultErrorView> {
    match action {
        Action::Archive => Ok("archive"@),
        Action::Restore => Ok("unarchive"@),
        Action::Delete => Ok("delete"@),
        Action::Cleanup => Err(
            VaultErrorView::Blocked(
                "dirty-data cleanup does not use the Codex CLI mutation path"@,
            ),
        ),
    }
}

pub fn cli_command(action: Action) -> (r: Result<&'static str, VaultError>)
    ensures
        match command_of(action) {
            Ok(command) => r matches Ok(text) && text@ == command,
            Err(error) => r matches Err(found) && found.deep_view() == error,
        },
{
    match action {
        Action::Archive => Ok("archive"),
        Action::Restore => Ok("unarchive"),
        Action::Delete => Ok("delete"),
        Action::Cleanup => Err(
            VaultError::Blocked(
                "dirty-data cleanup does not use the Codex CLI mutation path".to_owned(),
            ),
        ),
    }
}

/// The arguments of an action on a thread. A deletion alone is forced.
pub open spec fn arguments_of(action: Action, thread_id: Seq<char>) -> Result<
    Seq<Seq<char>>,
    VaultErrorView,
> {
    match command_of(action) {
        Err(error) => Err(error),
        Ok(command) => Ok(
            if action == Action::Delete {
                seq![command, "--force"@, thread_id]
            } else {
                seq![command, thread_id]
            },
        ),
    }
}

/// The arguments of an action on a thread.
pub fn cli_arguments(action: Action, thread_id: &str) -> (r: Result<Vec<String>, VaultError>)
    ensures
        result_view(r) == arguments_of(action, thread_id@),
{
    let command = match cli_command(action) {
        Ok(command) => command,
        Err(error) => {
            return Err(error);
        },
    };
    let mut arguments: Vec<String> = Vec::new();
    arguments.push(command.to_owned());
    if action == Action::Delete {
        arguments.push("--force".to_owned());
    }
    arguments.push(thread_id.to_owned());
    assert(Ok::<Seq<Seq<char>>, VaultErrorView>(arguments.deep_view()) == arguments_of(
        action,
        thread_id@,
    )) by {
        assert(arguments.deep_view() =~= arguments_of(action, thread_id@)->Ok_0);
    }
    Ok(arguments)
}

/// What is shown of an error: its words, cut after so many characters.
pub open spec fn shown_error(raw: Seq<char>) -> Seq<char> {
    let text = joined(words(raw), " "@);
    if text.len() == 0 {
        Seq::empty()
    } else if text.len() <= CLI_ERROR_LIMIT {
        ": "@ + text
    } else {
        ": "@ + (text.take(CLI_ERROR_LIMIT as int) + one('…'))
    }
}

/// What is shown of an error.
pub fn error_detail(raw: &str) -> (r: String)
    ensures
        r@ == shown_error(raw@),
{
    let text = join(&split_whitespace(raw), " ");
    let v = chars_of(text.as_str());
    if v.len() == 0 {
        let empty = String::new();
        assert(empty@ =~= Seq::empty());
        return empty;
    }
    if v.len() <= CLI_ERROR_LIMIT {
        return ": ".to_owned().concat(text.as_str());
    }
    let mut limited = text_between(&v, 0, CLI_ERROR_LIMIT);
    proof {
        assert(limited@ =~= text@.take(CLI_ERROR_LIMIT as int));
    }
    let ghost before = limited@;
    limited.push('…');
    assert(limited@ =~= before + one('…'));
    ": ".to_owned().concat(limited.as_str())
}

/// The output that tells of an error: what went to standard error, else what
/// went to standard output.
pub open spec fn telling(stderr: Seq<u8>, stdout: Seq<u8>) -> Seq<u8> {
    if stderr.len() == 0 {
        stdout
    } else {
        stderr
    }
}

/// What is shown of the output of a command that failed.
pub fn cli_error_detail(stderr: &Vec<u8>, stdout: &Vec<u8>) -> (r: String)
    ensures
        r@ == shown_error(lossy_text(telling(stderr@, stdout@))),
{
    let raw = if stderr.len() == 0 {
        text_from_bytes(stdout)
    } else {
        text_from_bytes(stderr)
    };
    error_detail(raw.as_str())
}

/// The error of a command that could not be started.
pub fn cannot_start(command: &str, problem: &str) -> (r: VaultError)
    ensures
        r.deep_view() == VaultErrorView::Command(
            "codex "@ + command@ + ": cannot start: "@ + problem@,
        ),
{
    VaultError::Command(
        "codex ".to_owned().concat(command).concat(": cannot start: ").concat(problem),
    )
}

/// The error of a command that took too long.
pub fn timed_out(command: &str) -> (r: VaultError)
    ensures
        r.deep_view() == VaultErrorView::Command("codex "@ + command@ + ": timed out"@),
{
    VaultError::Command("codex ".to_owned().concat(command).concat(": timed out"))
}

/// The error of a command whose end could not be awaited.
pub fn cannot_wait(command: &str, problem: &str) -> (r: VaultError)
    ensures
        r.deep_view() == VaultErrorView::Command(
            "codex "@ + command@ + ": cannot wait for completion: "@ + problem@,
        ),
{
    VaultError::Command(
        "codex ".to_owned().concat(command).concat(": cannot wait for completion: ").concat(
            problem,
        ),
    )
}

/// The error of a command that failed.
pub fn command_failed(command: &str, status: &str, stderr: &Vec<u8>, stdout: &Vec<u8>) -> (r:
    VaultError)
    ensures
        r.deep_view() == VaultErrorView::Command(
            "codex "@ + command@ + " exited with "@ + status@ + shown_error(
                lossy_text(telling(stderr@, stdout@)),
            ),
        ),
{
    VaultError::Command(
        "codex ".to_owned().concat(command).concat(" exited with ").concat(status).concat(
            cli_error_detail(stderr, stdout).as_str(),
        ),
    )
}

/// The error of a program file that is being written.
pub const TEXT_FILE_BUSY: i32 = 26;

/// How often a program is started before its error counts.
pub const START_ATTEMPTS: usize = 4;

/// Whether a program that did not start is started again, by the error of the
/// system and how often it was tried.
pub fn tries_again(raw: Option<i32>, attempt: usize) -> (r: bool)
    ensures
        r == (raw == Some(TEXT_FILE_BUSY) && attempt < START_ATTEMPTS),
{
    match raw {
        Some(code) => code == TEXT_FILE_BUSY && attempt < START_ATTEMPTS,
        None => false,
    }
}

} // verus!
