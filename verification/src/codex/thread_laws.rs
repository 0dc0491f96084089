//! What a session takes from a listed thread, in terms of the thread's fields.

use crate::codex::thread::{mapped, parent_of, runtime_of, source_of, ThreadView};
use crate::domain::{RuntimeStatusView, SessionSourceView};
use crate::outside::{
    as_string, json_integer, json_kind, json_member, json_string, json_string_at, rendered,
    rfc3339_seconds, second_of, JsonKind, JsonView,
};
use crate::text::{has_text, law_signed_decimal_round_trip, occurs_at, signed_decimal, signed_value};
use crate::text_laws::{all_white, law_trimming_takes_white_space_off_the_ends};
use vstd::prelude::*;

verus! {

broadcast use vstd::group_vstd_default;

/// A thread becomes a session exactly where it has an id and a directory that
/// are not blank, and keeps both, with its project, its pin and what the
/// caller says of its archive state and source.
pub proof fn law_a_session_keeps_what_its_thread_says(
    thread: ThreadView,
    archived: bool,
    source: SessionSourceView,
)
    ensures
        mapped(thread, archived, source) is Ok <==> !all_white(thread.id)
            && thread.cwd is Some && !all_white(thread.cwd->0),
        mapped(thread, archived, source) matches Ok((node, warnings)) ==> {
            &&& node.id == thread.id
            &&& Some(node.cwd) == thread.cwd
            &&& node.project == thread.project_id
            &&& node.pinned == thread.is_pinned
            &&& node.archived == archived
            &&& node.source == source
            &&& node.rollout_bytes is None
            &&& node.provider is None
            &&& node.model is None
        },
{
    law_trimming_takes_white_space_off_the_ends(thread.id);
    if thread.cwd is Some {
        law_trimming_takes_white_space_off_the_ends(thread.cwd->0);
    }
}

/// A session is called by the name of its thread, without a name by its title,
/// and by its id where what it would be called is blank.
pub proof fn law_how_a_session_is_called(
    thread: ThreadView,
    archived: bool,
    source: SessionSourceView,
)
    ensures
        mapped(thread, archived, source) matches Ok((node, warnings)) ==> {
            &&& thread.name is Some && !all_white(thread.name->0) ==> node.title == thread.name->0
            &&& thread.name is Some && all_white(thread.name->0) ==> node.title == thread.id
            &&& thread.name is None && thread.title is Some && !all_white(thread.title->0)
                ==> node.title == thread.title->0
            &&& thread.name is None && (thread.title is None || all_white(thread.title->0))
                ==> node.title == thread.id
        },
{
    if thread.name is Some {
        law_trimming_takes_white_space_off_the_ends(thread.name->0);
    }
    if thread.title is Some {
        law_trimming_takes_white_space_off_the_ends(thread.title->0);
    }
}

/// The second that a field tells, where it is there and tells one.
pub open spec fn told_by(field: Option<JsonView>) -> Option<int> {
    if field is Some {
        second_of(field->0)
    } else {
        None
    }
}

/// A session was last active when its recency says, else when it was updated,
/// else when it was created; a field that is there and tells no second is
/// passed over with a warning that names the thread, one for each such field,
/// and there is no other warning.
pub proof fn law_when_a_session_was_active(
    thread: ThreadView,
    archived: bool,
    source: SessionSourceView,
)
    ensures
        mapped(thread, archived, source) matches Ok((node, warnings)) ==> {
            let (recency, updated, created) = (
                told_by(thread.recency_at),
                told_by(thread.updated_at),
                told_by(thread.created_at),
            );
            let bad = |field: Option<JsonView>|
                if field is Some && second_of(field->0) is None {
                    1int
                } else {
                    0int
                };
            &&& recency is Some ==> node.last_activity == Some(recency->0 as i64)
            &&& recency is None && updated is Some ==> node.last_activity == Some(
                updated->0 as i64,
            )
            &&& recency is None && updated is None && created is Some ==> node.last_activity
                == Some(created->0 as i64)
            &&& recency is None && updated is None && created is None
                ==> node.last_activity is None
            &&& warnings.len() == bad(thread.recency_at) + bad(thread.updated_at) + bad(
                thread.created_at,
            )
            &&& forall|i: int|
                0 <= i < warnings.len() ==> has_text(#[trigger] warnings[i], thread.id)
        },
{
    if mapped(thread, archived, source) is Ok {
        let warnings = mapped(thread, archived, source)->Ok_0.1;
        assert forall|i: int| 0 <= i < warnings.len() implies has_text(
            #[trigger] warnings[i],
            thread.id,
        ) by {
            let at = "thread "@.len() as int;
            assert(warnings[i].subrange(at, at + thread.id.len()) =~= thread.id);
            assert(occurs_at(warnings[i], thread.id, at));
        }
    }
}

/// An integer tells itself as a second, and so does a text that writes one; any
/// other text tells the second of the time that it writes; a number of JSON tells the integer that it is, and a string of JSON what its
/// text tells.
pub proof fn law_which_second_is_told(n: i64, text: Seq<char>)
    ensures
        second_of(JsonView::Integer(n)) == Some(n as int),
        second_of(JsonView::Text(signed_decimal(n as int))) == Some(n as int),
        signed_value(text) is None ==> (rfc3339_seconds(text) matches Ok(seconds) ==> second_of(
            JsonView::Text(text),
        ) == Some(seconds as int)),
        signed_value(text) is None && rfc3339_seconds(text) is Err ==> second_of(
            JsonView::Text(text),
        ) is None,
        json_kind(text) is Number ==> second_of(JsonView::Raw(text)) == match json_integer(text) {
            Some(m) => Some(m as int),
            None => None,
        },
        json_kind(text) is Text && json_string(text) is Some ==> second_of(JsonView::Raw(text))
            == second_of(JsonView::Text(json_string(text)->0)),
        json_kind(text) != JsonKind::Number && json_kind(text) != JsonKind::Text ==> second_of(
            JsonView::Raw(text),
        ) is None,
{
    law_signed_decimal_round_trip(n);
}

/// The parent of a session is the one that its thread gives, else the one that
/// its source names as the spawning thread.
pub proof fn law_which_parent_a_session_has(
    thread: ThreadView,
    archived: bool,
    source: SessionSourceView,
)
    ensures
        mapped(thread, archived, source) matches Ok((node, warnings)) ==> {
            &&& thread.parent_thread_id is Some ==> node.parent_id == thread.parent_thread_id
            &&& thread.parent_thread_id is None ==> (thread.source matches JsonView::Raw(text)
                ==> node.parent_id == json_string_at(
                text,
                "/subAgent/thread_spawn/parent_thread_id"@,
            ))
            &&& thread.parent_thread_id is None && !(thread.source is Raw)
                ==> node.parent_id is None
            &&& node.parent_id == parent_of(thread)
        },
{
    reveal_strlit("");
    reveal_strlit("/subAgent/thread_spawn/parent_thread_id");
    assert(""@.len() == 0);
    assert("/subAgent/thread_spawn/parent_thread_id"@.len() > 0);
}

/// A source is told by its name, where it is a string; an object that has a
/// sub-agent in either spelling is a descendant; nothing is unknown; and every
/// other source is kept with its name or its text.
pub proof fn law_which_source_a_thread_has(value: JsonView)
    ensures
        ({
            let (name, source) = (as_string(value), source_of(value));
            let spawned = value matches JsonView::Raw(text) && (json_member(text, "subAgent"@)
                is Some || json_member(text, "subagent"@) is Some);
            let nothing = value matches JsonView::Raw(text) && json_kind(text) is Null;
            &&& source == SessionSourceView::Cli <==> name == Some("cli"@)
            &&& source == SessionSourceView::Vscode <==> name == Some("vscode"@)
            &&& source == SessionSourceView::Exec <==> name == Some("exec"@)
            &&& source == SessionSourceView::AppServer <==> name == Some("appServer"@)
            &&& source == SessionSourceView::Descendant <==> name == Some("subAgent"@) || name
                == Some("subAgentReview"@) || name == Some("subAgentCompact"@) || name == Some(
                "subAgentThreadSpawn"@,
            ) || name == Some("subAgentOther"@) || (name is None && spawned)
            &&& source == SessionSourceView::Unknown <==> name is None && !spawned && nothing
            &&& source matches SessionSourceView::Other(kept) ==> kept == match name {
                Some(name) => name,
                None => rendered(value),
            }
        }),
{
    reveal_strlit("cli");
    reveal_strlit("vscode");
    reveal_strlit("exec");
    reveal_strlit("appServer");
    reveal_strlit("subAgent");
    reveal_strlit("subAgentReview");
    reveal_strlit("subAgentCompact");
    reveal_strlit("subAgentThreadSpawn");
    reveal_strlit("subAgentOther");
    assert("cli"@.len() == 3 && "vscode"@.len() == 6 && "exec"@.len() == 4 && "appServer"@.len()
        == 9);
    assert("subAgent"@.len() == 8 && "subAgentReview"@.len() == 14 && "subAgentCompact"@.len()
        == 15 && "subAgentThreadSpawn"@.len() == 19 && "subAgentOther"@.len() == 13);
}

/// A session runs as the kind of its thread's status says: it is quiet only
/// under the two kinds that say so, it is active with its flags, and a kind
/// that is missing or not known is kept as unknown.
pub proof fn law_how_a_session_runs(
    thread: ThreadView,
    archived: bool,
    source: SessionSourceView,
)
    ensures
        mapped(thread, archived, source) matches Ok((node, warnings)) ==> {
            &&& thread.status is None ==> node.status == RuntimeStatusView::Unknown("missing"@)
            &&& node.status == RuntimeStatusView::NotLoaded <==> thread.status is Some
                && thread.status->0.kind == "notLoaded"@
            &&& node.status == RuntimeStatusView::Idle <==> thread.status is Some
                && thread.status->0.kind == "idle"@
            &&& node.status == RuntimeStatusView::SystemError <==> thread.status is Some
                && thread.status->0.kind == "systemError"@
            &&& node.status is Active <==> thread.status is Some && thread.status->0.kind
                == "active"@
            &&& node.status matches RuntimeStatusView::Active(flags) ==> flags
                == thread.status->0.active_flags
            &&& thread.status is Some ==> (node.status matches RuntimeStatusView::Unknown(kind)
                ==> kind == thread.status->0.kind)
            &&& node.status == runtime_of(thread.status)
        },
{
    reveal_strlit("notLoaded");
    reveal_strlit("idle");
    reveal_strlit("systemError");
    reveal_strlit("active");
    assert("notLoaded"@.len() == 9 && "idle"@.len() == 4 && "systemError"@.len() == 11
        && "active"@.len() == 6);
}

} // verus!
