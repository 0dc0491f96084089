//! What the arguments of the program ask for, where its own record lies and
//! which words it shows, in terms of the arguments, the environment and the
//! files of words.

use crate::codex::locate::ConnectionMode;
use crate::domain::Language;
use crate::i18n::{entries_of, file_of, lines_of, text_under, without_return, LocalesView};
use crate::options::{
    connection_at, own_database, request_from, Options, Request,
};
use crate::path::{joined_path, lemma_split_last, split_by};
use crate::path_laws::law_a_cut_text_joins_again;
use crate::text::{has_text, lemma_first_of, occurs_at, one, split_at_first};
use crate::text_laws::law_parted_at_the_first;
use vstd::prelude::*;

verus! {

broadcast use vstd::group_vstd_default;

/// The argument is one of the three that a value follows.
pub open spec fn takes_a_value(arg: Option<Seq<char>>) -> bool {
    arg == Some("--codex"@) || arg == Some("--db"@) || arg == Some("--connection"@)
}

/// The last place, of those from which on values can follow, at which the
/// argument stands is `k`.
pub open spec fn last_named(
    args: Seq<Option<Seq<char>>>,
    at: int,
    name: Seq<char>,
    k: int,
) -> bool {
    &&& at <= k < args.len()
    &&& (k - at) % 2 == 0
    &&& args[k] == Some(name)
    &&& forall|j: int| k < j < args.len() && (j - at) % 2 == 0 ==> (#[trigger] args[j]) != Some(name)
}

/// The argument stands at none of the places from which on values can follow.
pub open spec fn never_named(args: Seq<Option<Seq<char>>>, at: int, name: Seq<char>) -> bool {
    forall|j: int| at <= j < args.len() && (j - at) % 2 == 0 ==> (#[trigger] args[j]) != Some(name)
}

proof fn lemma_option_names()
    ensures
        "--codex"@ != "--db"@ && "--codex"@ != "--connection"@ && "--db"@ != "--connection"@,
        "auto"@ != "attached"@ && "auto"@ != "managed"@ && "attached"@ != "managed"@,
{
    reveal_strlit("--codex");
    reveal_strlit("--db");
    reveal_strlit("--connection");
    reveal_strlit("auto");
    reveal_strlit("attached");
    reveal_strlit("managed");
    assert("--codex"@.len() == 7 && "--db"@.len() == 4 && "--connection"@.len() == 12);
    assert("auto"@.len() == 4 && "attached"@.len() == 8 && "managed"@.len() == 7);
}

/// The connection that the argument names.
pub open spec fn names_connection(arg: Option<Seq<char>>, connection: ConnectionMode) -> bool {
    ||| connection == ConnectionMode::Auto && arg == Some("auto"@)
    ||| connection == ConnectionMode::Attached && arg == Some("attached"@)
    ||| connection == ConnectionMode::Managed && arg == Some("managed"@)
}

/// Where the program is asked to run, the arguments are pairs of a name and a
/// value. The last value under each name counts, a path is not empty, and what
/// was not named stays as it was.
pub proof fn law_the_last_value_of_an_option_counts(
    args: Seq<Option<Seq<char>>>,
    at: int,
    options: Options,
    found: Options,
)
    requires
        0 <= at <= args.len() <= usize::MAX,
        request_from(args, at, options) == Ok::<Request, Seq<char>>(Request::Run(found)),
    ensures
        (args.len() - at) % 2 == 0,
        forall|j: int| at <= j < args.len() && (j - at) % 2 == 0 ==> takes_a_value(#[trigger] args[j]),
        never_named(args, at, "--codex"@) ==> found.codex == options.codex,
        never_named(args, at, "--db"@) ==> found.database == options.database,
        never_named(args, at, "--connection"@) ==> found.connection == options.connection,
        forall|k: int| #[trigger]
            last_named(args, at, "--codex"@, k) ==> found.codex == Some((k + 1) as usize) && k + 1
                < args.len() && args[k + 1] != Some(Seq::<char>::empty()),
        forall|k: int| #[trigger]
            last_named(args, at, "--db"@, k) ==> found.database == Some((k + 1) as usize) && k + 1
                < args.len() && args[k + 1] != Some(Seq::<char>::empty()),
        forall|k: int| #[trigger]
            last_named(args, at, "--connection"@, k) ==> k + 1 < args.len() && names_connection(
                args[k + 1],
                found.connection,
            ),
    decreases args.len() - at,
{
    lemma_option_names();
    if at < args.len() {
        let value = args[at]->0;
        assert(takes_a_value(args[at]));
        let next = if value == "--codex"@ {
            Options { codex: Some((at + 1) as usize), ..options }
        } else if value == "--db"@ {
            Options { database: Some((at + 1) as usize), ..options }
        } else {
            Options { connection: connection_at(args, at + 1)->Ok_0, ..options }
        };
        assert(at + 1 < args.len());
        law_the_last_value_of_an_option_counts(args, at + 2, next, found);
        assert forall|j: int| at <= j < args.len() && (j - at) % 2 == 0 implies takes_a_value(
            #[trigger] args[j],
        ) by {
            if j > at {
                assert((j - (at + 2)) % 2 == 0);
            }
        }
        assert forall|name: Seq<char>| #[trigger] never_named(args, at, name) implies never_named(
            args,
            at + 2,
            name,
        ) && args[at] != Some(name) by {
            assert((at - at) % 2 == 0);
            assert forall|j: int| at + 2 <= j < args.len() && (j - (at + 2)) % 2 == 0 implies (
            #[trigger] args[j]) != Some(name) by {
                assert((j - at) % 2 == 0);
            }
        }
        assert forall|name: Seq<char>, k: int| #[trigger]
            last_named(args, at, name, k) implies (k == at && never_named(args, at + 2, name)) || (k
            >= at + 2 && last_named(args, at + 2, name, k)) by {
            if k == at {
                assert forall|j: int| at + 2 <= j < args.len() && (j - (at + 2)) % 2 == 0 implies (
                #[trigger] args[j]) != Some(name) by {
                    assert((j - at) % 2 == 0);
                }
            } else {
                assert((k - (at + 2)) % 2 == 0);
                assert forall|j: int| k < j < args.len() && (j - (at + 2)) % 2 == 0 implies (
                #[trigger] args[j]) != Some(name) by {
                    assert((j - at) % 2 == 0);
                }
            }
        }
    }
}

/// Help and the version are given as soon as they are asked for, whatever
/// follows; an argument that is not known is refused by name.
pub proof fn law_help_comes_first(args: Seq<Option<Seq<char>>>, at: int, options: Options)
    requires
        0 <= at < args.len(),
    ensures
        request_from(args, at, options) == Ok::<Request, Seq<char>>(Request::Help) <== args[at]
            == Some("-h"@) || args[at] == Some("--help"@),
        args[at] == Some("-V"@) || args[at] == Some("--version"@) ==> request_from(
            args,
            at,
            options,
        ) == Ok::<Request, Seq<char>>(Request::Version),
        args[at] is None ==> request_from(args, at, options) is Err,
        args[at] matches Some(value) ==> value != "-h"@ && value != "--help"@ && value != "-V"@
            && value != "--version"@ && !takes_a_value(args[at]) ==> (request_from(
            args,
            at,
            options,
        ) matches Err(told) && has_text(told, value)),
{
    reveal_strlit("-h");
    reveal_strlit("--help");
    reveal_strlit("-V");
    reveal_strlit("--version");
    assert("-h"@.len() == 2 && "--help"@.len() == 6 && "-V"@.len() == 2 && "--version"@.len() == 9);
    assert("-h"@[1] == 'h' && "-V"@[1] == 'V');
    if let Some(value) = args[at] {
        let told = "unknown argument: "@ + value;
        let k = told.len() - value.len();
        assert(told.subrange(k, k + value.len()) =~= value);
        assert(occurs_at(told, value, k));
    }
}

/// The program's own record lies in the directory that was set for it; else
/// where the system keeps the state of programs, below the user's home or,
/// but for one system, where the environment says. Without any of these it has
/// no place.
pub proof fn law_where_the_record_lies(
    state_dir: Option<Seq<char>>,
    macos: bool,
    xdg_state_home: Option<Seq<char>>,
    home: Option<Seq<char>>,
)
    ensures
        ({
            let place = own_database(state_dir, macos, xdg_state_home, home);
            &&& state_dir matches Some(path) ==> place == Ok::<_, Seq<char>>(
                joined_path(path, "codex-vault.db"@),
            )
            &&& state_dir is None && macos && home is Some ==> place == Ok::<_, Seq<char>>(
                joined_path(home->0, "Library/Application Support/codex-vault/codex-vault.db"@),
            )
            &&& state_dir is None && !macos && xdg_state_home is Some ==> place == Ok::<
                _,
                Seq<char>,
            >(joined_path(xdg_state_home->0, "codex-vault/codex-vault.db"@))
            &&& state_dir is None && !macos && xdg_state_home is None && home is Some ==> place
                == Ok::<_, Seq<char>>(
                joined_path(home->0, ".local/state/codex-vault/codex-vault.db"@),
            )
            &&& state_dir is None && home is None && (macos || xdg_state_home is None)
                ==> place is Err
        }),
{
}

/// A line of words gives the key before its first equals sign the text behind
/// it; where a key comes more than once, the last line counts; a line without
/// the sign gives nothing.
pub proof fn law_which_words_a_key_has(lines: Seq<Seq<char>>, key: Seq<char>, text: Seq<char>, i: int)
    requires
        !key.contains('='),
        0 <= i < lines.len(),
        lines[i] == key.push('=') + text,
        forall|k: int|
            i < k < lines.len() ==> !exists|other: Seq<char>| (#[trigger] lines[k]) == #[trigger] (
            key.push('=') + other),
    ensures
        entries_of(lines).contains_key(key),
        entries_of(lines)[key] == text,
        text_under(entries_of(lines), key) == text,
    decreases lines.len(),
{
    let last = lines.len() - 1;
    if i == last {
        let line = lines[last];
        assert(line[key.len() as int] == '=');
        assert forall|k: int| 0 <= k < key.len() implies line[k] != '=' by {
            assert(line[k] == key[k]);
            assert(key.contains(key[k]));
        }
        lemma_first_of(line, '=', key.len() as int);
        assert(line.take(key.len() as int) =~= key);
        assert(line.skip(key.len() as int + 1) =~= text);
    } else {
        let head = lines.drop_last();
        assert forall|k: int| i < k < head.len() implies !exists|other: Seq<char>|
            (#[trigger] head[k]) == #[trigger] (key.push('=') + other) by {
            assert(head[k] == lines[k]);
        }
        law_which_words_a_key_has(head, key, text, i);
        law_parted_at_the_first(lines[last], '=');
        if let Some((found, rest)) = split_at_first(lines[last], '=') {
            if found == key {
                assert(lines[last] == key.push('=') + rest);
            }
        }
    }
}

/// A key that no line gives a text is shown as it is.
pub proof fn law_an_unknown_key_shows_itself(lines: Seq<Seq<char>>, key: Seq<char>)
    requires
        forall|k: int|
            0 <= k < lines.len() ==> !exists|other: Seq<char>| (#[trigger] lines[k])
                == #[trigger] (key.push('=') + other),
    ensures
        !entries_of(lines).contains_key(key),
        text_under(entries_of(lines), key) == key,
    decreases lines.len(),
{
    if lines.len() > 0 {
        let head = lines.drop_last();
        let last = lines.len() - 1;
        assert forall|k: int| 0 <= k < head.len() implies !exists|other: Seq<char>|
            (#[trigger] head[k]) == #[trigger] (key.push('=') + other) by {
            assert(head[k] == lines[k]);
        }
        law_an_unknown_key_shows_itself(head, key);
        law_parted_at_the_first(lines[last], '=');
        if let Some((found, rest)) = split_at_first(lines[last], '=') {
            if found == key {
                assert(lines[last] == key.push('=') + rest);
            }
        }
    }
}

/// No line of a text holds a line break, and a text without one and without
/// anything to cut off is its own only line.
pub proof fn law_lines_hold_no_breaks(text: Seq<char>)
    ensures
        forall|i: int| 0 <= i < lines_of(text).len() ==> !(#[trigger] lines_of(text)[i]).contains('\n'),
        !text.contains('\n') && text.len() > 0 ==> lines_of(text) == seq![text],
        text.len() == 0 ==> lines_of(text).len() == 0,
{
    law_a_cut_text_joins_again(text, '\n');
    let parts = split_by(text, '\n');
    let lines = lines_of(text);
    assert forall|i: int| 0 <= i < lines.len() implies !(#[trigger] lines[i]).contains('\n') by {
        assert(!parts[i].contains('\n'));
        if lines[i].contains('\n') {
            let k = lines[i].index_of('\n');
            assert(parts[i][k] == '\n');
        }
    }
    if !text.contains('\n') {
        assert forall|k: int| 0 <= k < text.len() implies text[k] != '\n' by {
            assert(text.contains(text[k]));
        }
        lemma_first_of(text, '\n', text.len() as int);
        assert(parts == seq![text]);
        if text.len() > 0 {
            assert(lines =~= seq![text]);
        }
    }
}

/// Each language has its own file of words.
pub proof fn law_each_language_has_its_words(locales: LocalesView)
    ensures
        file_of(locales, Language::En) == locales.en,
        file_of(locales, Language::ZhCn) == locales.zh_cn,
{
}

/// A line ends at a line break, with or without a carriage return before it,
/// and the end of the last line is optional.
pub proof fn law_how_lines_end(before: Seq<char>, line: Seq<char>)
    requires
        !line.contains('\n'),
        line.len() > 0 ==> line.last() != '\r',
    ensures
        lines_of(line + "\r\n"@) == seq![line],
        lines_of(line + "\n"@) == seq![line],
        lines_of(before + "\n"@ + line + "\n"@) == lines_of(before + "\n"@).push(line),
        lines_of(before + "\n"@ + line + "\r\n"@) == lines_of(before + "\n"@).push(line),
        line.len() > 0 ==> lines_of(before + "\n"@ + line) == lines_of(before + "\n"@).push(line),
{
    reveal_strlit("\r\n");
    reveal_strlit("\n");
    reveal_strlit("\r");
    let none = Seq::<char>::empty();
    let ret = line.push('\r');
    assert(!none.contains('\n'));
    assert(!ret.contains('\n')) by {
        if ret.contains('\n') {
            let k = ret.index_of('\n');
            assert(line[k] == '\n');
        }
    }
    lemma_split_last(line, '\n', none);
    lemma_split_last(ret, '\n', none);
    lemma_uncut(line);
    lemma_uncut(ret);
    assert(line + "\n"@ =~= line + one('\n') + none);
    assert(line + "\r\n"@ =~= ret + one('\n') + none);
    assert(ret.subrange(ret.len() - 1, ret.len() as int) =~= "\r"@);
    assert(ret.take(ret.len() - 1) =~= line);
    lemma_no_return(line);
    assert(without_return(ret) == line);
    assert(without_return(line) == line);
    assert(lines_of(line + "\r\n"@) =~= seq![line]);
    assert(lines_of(line + "\n"@) =~= seq![line]);
    lemma_split_last(before, '\n', none);
    assert(before + "\n"@ =~= before + one('\n') + none);
    lemma_split_last(before, '\n', line);
    lemma_split_last(before, '\n', ret);
    let (a, b) = (before + one('\n') + line, before + one('\n') + ret);
    assert(before + "\n"@ + line =~= a);
    lemma_split_last(a, '\n', none);
    lemma_split_last(b, '\n', none);
    assert(before + "\n"@ + line + "\n"@ =~= a + one('\n') + none);
    assert(before + "\n"@ + line + "\r\n"@ =~= b + one('\n') + none);
    assert(lines_of(before + "\n"@ + line + "\n"@) =~= lines_of(before + "\n"@).push(line));
    assert(lines_of(before + "\n"@ + line + "\r\n"@) =~= lines_of(before + "\n"@).push(line));
    if line.len() > 0 {
        assert(lines_of(before + "\n"@ + line) =~= lines_of(before + "\n"@).push(line));
    }
}

proof fn lemma_no_return(line: Seq<char>)
    requires
        line.len() > 0 ==> line.last() != '\r',
    ensures
        without_return(line) == line,
{
    reveal_strlit("\r");
    if line.len() > 0 && line.subrange(line.len() - 1, line.len() as int) == "\r"@ {
        assert(line.subrange(line.len() - 1, line.len() as int)[0] == line.last());
        assert("\r"@[0] == '\r');
    }
}

proof fn lemma_uncut(text: Seq<char>)
    requires
        !text.contains('\n'),
    ensures
        split_by(text, '\n') == seq![text],
{
    assert forall|k: int| 0 <= k < text.len() implies text[k] != '\n' by {
        assert(text.contains(text[k]));
    }
    lemma_first_of(text, '\n', text.len() as int);
}

} // verus!
