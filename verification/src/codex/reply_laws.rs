//! Which reply answers which request and what it is worth, and what the
//! command line is asked and tells, in terms of the messages and the bytes.

use crate::codex::cli::{arguments_of, shown_error, telling, CLI_ERROR_LIMIT};
use crate::codex::rpc::{
    all_source_kinds, answered, answers, batch_step, message_of, outcome_of, proves_support,
    required, BatchStepView, MessageView, PendingReadView, RpcOutcomeView,
};
use crate::codex::thread::source_of;
use crate::domain::{Action, VaultErrorView};
use crate::outside::{json_integer, json_member, json_string, json_unsigned, JsonView};
use crate::text::{has_text, joined, lemma_word_len, occurs_at, white, word_len, words};
use crate::text_laws::{all_white, no_white};
use vstd::prelude::*;

verus! {

broadcast use vstd::group_vstd_default;

/// A message answers a request exactly where it has the request's number under
/// `id` and names no method of its own; so it answers no two requests.
pub proof fn law_which_request_is_answered(text: Seq<char>, id: u64, other: u64)
    ensures
        answers(message_of(text), id) <==> {
            &&& json_member(text, "method"@) is None
            &&& json_member(text, "id"@) matches Some(number) && json_unsigned(number) == Some(id)
        },
        answers(message_of(text), id) && answers(message_of(text), other) ==> id == other,
{
}

/// A message answers the first of the waiting requests that has its number,
/// and none where none has.
pub proof fn law_which_waiting_read_is_answered(
    pending: Seq<PendingReadView>,
    message: MessageView,
    i: int,
)
    requires
        0 <= i <= pending.len(),
        forall|k: int|
            0 <= k < i ==> message.names_method || message.id != Some(
                (#[trigger] pending[k]).request_id,
            ),
        i < pending.len() ==> !message.names_method && message.id == Some(pending[i].request_id),
    ensures
        i < pending.len() ==> answered(pending, message) == Some(i),
        i == pending.len() ==> answered(pending, message) is None,
    decreases pending.len(),
{
    if pending.len() > 0 {
        let head = pending.drop_last();
        assert forall|k: int| 0 <= k < i && k < head.len() implies message.names_method
            || message.id != Some((#[trigger] head[k]).request_id) by {
            assert(head[k] == pending[k]);
        }
        if i < pending.len() {
            law_which_waiting_read_is_answered(head, message, i);
        } else {
            law_which_waiting_read_is_answered(head, message, i - 1);
            assert(message.names_method || message.id != Some(pending[i - 1].request_id));
        }
    }
}

/// A reply that has an error is a refusal with the code and the message of the
/// error, whatever else it has; without one it is its result; and with neither
/// it breaks the protocol.
pub proof fn law_what_a_reply_is_worth(text: Seq<char>, method: Seq<char>)
    ensures
        ({
            let outcome = outcome_of(message_of(text), method);
            let (error, result) = (json_member(text, "error"@), json_member(text, "result"@));
            &&& error matches Some(told) ==> {
                outcome matches Ok(RpcOutcomeView::Error(code, message)) && {
                    &&& code == match json_member(told, "code"@) {
                        Some(number) => json_integer(number),
                        None => None,
                    }
                    &&& json_member(told, "message"@) matches Some(words) ==> (json_string(
                        words,
                    ) matches Some(said) ==> message == said)
                }
            }
            &&& error is None && result is Some ==> outcome == Ok::<_, VaultErrorView>(
                RpcOutcomeView::Success(result->0),
            )
            &&& error is None && result is None ==> (
            outcome matches Err(VaultErrorView::Protocol(told)) && has_text(told, method))
        }),
{
    if json_member(text, "error"@) is None && json_member(text, "result"@) is None {
        let told = method + ": missing result"@;
        assert(told.subrange(0, method.len() as int) =~= method);
        assert(occurs_at(told, method, 0));
    }
}

/// What is required of a reply is its result; a refusal becomes an error that
/// tells the method and the message.
pub proof fn law_a_refusal_is_an_error(outcome: RpcOutcomeView, method: Seq<char>)
    ensures
        outcome matches RpcOutcomeView::Success(result) ==> required(outcome, method) == Ok::<
            _,
            VaultErrorView,
        >(result),
        outcome matches RpcOutcomeView::Error(code, message) ==> (required(
            outcome,
            method,
        ) matches Err(VaultErrorView::Protocol(told)) && has_text(told, method) && has_text(
            told,
            message,
        )),
{
    if let RpcOutcomeView::Error(code, message) = outcome {
        let told = method + ": "@ + message;
        assert(told.subrange(0, method.len() as int) =~= method);
        assert(occurs_at(told, method, 0));
        let at = told.len() - message.len();
        assert(told.subrange(at, at + message.len()) =~= message);
        assert(occurs_at(told, message, at));
    }
}

/// A method is proven to be there exactly by a refusal of its request or of
/// its arguments: a success proves nothing, and neither does any other
/// refusal.
pub proof fn law_what_proves_a_method(outcome: RpcOutcomeView)
    ensures
        outcome is Success ==> !proves_support(outcome),
        outcome matches RpcOutcomeView::Error(code, message) ==> (proves_support(outcome) <==> code
            == Some(-32600i64) || code == Some(-32602i64)),
{
}

/// A reply to one of several reads belongs to the thread that was asked for: a
/// refusal fails that thread alone, a result is read for it, and a reply with
/// neither breaks the whole.
pub proof fn law_a_read_belongs_to_its_thread(thread_id: Seq<char>, message: MessageView)
    ensures
        message.error is Some ==> (batch_step(thread_id, message) matches BatchStepView::Settled(
            id,
            read,
        ) && id == thread_id && read is Failed),
        message.error is None && message.result is Some ==> batch_step(thread_id, message)
            == BatchStepView::Parse(thread_id, message.result->0),
        message.error is None && message.result is None ==> batch_step(thread_id, message)
            is Broken,
{
}

/// The server is asked for the threads of exactly those sources that are told
/// apart by their names, and for those that it does not know itself.
pub proof fn law_every_source_is_asked_for(name: Seq<char>)
    ensures
        all_source_kinds().contains(name) <==> name == "unknown"@ || !(source_of(
            JsonView::Text(name),
        ) is Other),
{
    let kinds = all_source_kinds();
    assert(kinds[0] == "cli"@ && kinds[1] == "vscode"@ && kinds[2] == "exec"@ && kinds[3]
        == "appServer"@ && kinds[4] == "subAgent"@);
    assert(kinds[5] == "subAgentReview"@ && kinds[6] == "subAgentCompact"@ && kinds[7]
        == "subAgentThreadSpawn"@ && kinds[8] == "subAgentOther"@ && kinds[9] == "unknown"@);
}

/// The command line gets one command for each action on a session, another for
/// each, with the id of the session last and nothing between them but, for a
/// deletion alone, the word that spares it a question. A cleanup has none.
pub proof fn law_what_the_command_line_is_asked(
    action: Action,
    other: Action,
    id: Seq<char>,
    another: Seq<char>,
)
    ensures
        arguments_of(action, id) is Err <==> action == Action::Cleanup,
        arguments_of(action, id) matches Ok(args) ==> {
            &&& args.last() == id
            &&& args.len() == if action == Action::Delete {
                3int
            } else {
                2int
            }
            &&& args.contains("--force"@) && id != "--force"@ ==> action == Action::Delete
            &&& action == Action::Delete ==> args[1] == "--force"@ && args[0] == "delete"@
            &&& action == Action::Archive ==> args[0] == "archive"@
            &&& action == Action::Restore ==> args[0] == "unarchive"@
        },
        arguments_of(action, id) is Ok && arguments_of(action, id) == arguments_of(other, another)
            ==> action == other && id == another,
{
    reveal_strlit("archive");
    reveal_strlit("unarchive");
    reveal_strlit("delete");
    reveal_strlit("--force");
    assert("archive"@.len() == 7 && "unarchive"@.len() == 9 && "delete"@.len() == 6);
    assert("archive"@[0] == 'a' && "--force"@[0] == '-' && "--force"@.len() == 7);
    if let (Ok(a), Ok(b)) = (arguments_of(action, id), arguments_of(other, another)) {
        if a == b {
            assert(a[0] == b[0]);
            assert(a.last() == b.last());
        }
    }
}

/// What a failed command told is what it wrote to its errors, and what it
/// wrote to its output only where it wrote no error.
pub proof fn law_errors_tell_before_output(stderr: Seq<u8>, stdout: Seq<u8>)
    ensures
        stderr.len() > 0 ==> telling(stderr, stdout) == stderr,
        stderr.len() == 0 ==> telling(stderr, stdout) == stdout,
{
}

proof fn lemma_words_clean(s: Seq<char>)
    ensures
        forall|i: int|
            0 <= i < words(s).len() ==> (#[trigger] words(s)[i]).len() > 0 && no_white(words(s)[i]),
        words(s).len() == 0 <==> all_white(s),
    decreases s.len(),
{
    if s.len() > 0 {
        let rest = s.drop_first();
        if white(s[0]) {
            lemma_words_clean(rest);
            if all_white(s) {
                assert forall|i: int| 0 <= i < rest.len() implies white(#[trigger] rest[i]) by {
                    assert(white(s[i + 1]));
                }
            }
            if all_white(rest) {
                assert forall|i: int| 0 <= i < s.len() implies white(#[trigger] s[i]) by {
                    if i > 0 {
                        assert(white(rest[i - 1]));
                    }
                }
            }
        } else {
            let n = word_len(rest);
            lemma_word_len(rest);
            lemma_word_clean(rest);
            let tail = rest.skip(n);
            lemma_words_clean(tail);
            let first = s.take(1 + n);
            assert(words(s) == seq![first] + words(tail));
            assert(no_white(first)) by {
                assert forall|i: int| 0 <= i < first.len() implies !white(#[trigger] first[i]) by {
                    if i > 0 {
                        assert(first[i] == rest.take(n)[i - 1]);
                    }
                }
            }
            assert forall|i: int| 0 <= i < words(s).len() implies (#[trigger] words(s)[i]).len() > 0
                && no_white(words(s)[i]) by {
                if i > 0 {
                    assert(words(s)[i] == words(tail)[i - 1]);
                }
            }
            assert(!white(s[0]));
        }
    }
}

proof fn lemma_word_clean(s: Seq<char>)
    ensures
        no_white(s.take(word_len(s))),
    decreases s.len(),
{
    if s.len() > 0 && !white(s[0]) {
        let rest = s.drop_first();
        lemma_word_clean(rest);
        lemma_word_len(rest);
        let n = word_len(s);
        assert forall|i: int| 0 <= i < n implies !white(#[trigger] s.take(n)[i]) by {
            if i > 0 {
                assert(s.take(n)[i] == rest.take(n - 1)[i - 1]);
            }
        }
    }
}

proof fn lemma_joined_clean(parts: Seq<Seq<char>>)
    requires
        forall|i: int| 0 <= i < parts.len() ==> no_white(#[trigger] parts[i]),
    ensures
        forall|i: int|
            0 <= i < joined(parts, " "@).len() ==> !white(#[trigger] joined(parts, " "@)[i])
                || joined(parts, " "@)[i] == ' ',
    decreases parts.len(),
{
    reveal_strlit(" ");
    if parts.len() == 1 {
        assert(no_white(parts[0]));
    } else if parts.len() > 1 {
        let head = parts.drop_last();
        assert forall|i: int| 0 <= i < head.len() implies no_white(#[trigger] head[i]) by {
            assert(no_white(parts[i]));
        }
        lemma_joined_clean(head);
        assert(no_white(parts[parts.len() - 1]));
        let (a, all) = (joined(head, " "@), joined(parts, " "@));
        assert forall|i: int| 0 <= i < all.len() implies !white(#[trigger] all[i]) || all[i]
            == ' ' by {
            if i < a.len() {
                assert(all[i] == a[i]);
            } else if i > a.len() {
                assert(all[i] == parts.last()[i - a.len() - 1]);
            }
        }
    }
}

/// What is shown of an error fits on one line and has at most as many
/// characters as the limit and three more: nothing is shown exactly where the
/// error is blank, and no white space but single spaces.
pub proof fn law_a_shown_error_is_one_short_line(raw: Seq<char>)
    ensures
        shown_error(raw).len() == 0 <==> all_white(raw),
        shown_error(raw).len() <= CLI_ERROR_LIMIT + 3,
        forall|i: int|
            0 <= i < shown_error(raw).len() ==> !white(#[trigger] shown_error(raw)[i])
                || shown_error(raw)[i] == ' ',
{
    reveal_strlit(": ");
    lemma_words_clean(raw);
    lemma_joined_clean(words(raw));
    let text = joined(words(raw), " "@);
    lemma_joined_some(words(raw));
    assert forall|i: int| 0 <= i < shown_error(raw).len() implies !white(
        #[trigger] shown_error(raw)[i],
    ) || shown_error(raw)[i] == ' ' by {
        if i >= 2 && i - 2 < text.len() && i - 2 < CLI_ERROR_LIMIT {
            assert(shown_error(raw)[i] == text[i - 2]);
        }
    }
}

proof fn lemma_joined_some(parts: Seq<Seq<char>>)
    requires
        forall|i: int| 0 <= i < parts.len() ==> (#[trigger] parts[i]).len() > 0,
    ensures
        joined(parts, " "@).len() == 0 <==> parts.len() == 0,
{
    if parts.len() == 1 {
        assert(parts[0].len() > 0);
    } else if parts.len() > 1 {
        assert(parts[parts.len() - 1].len() > 0);
    }
}

} // verus!
