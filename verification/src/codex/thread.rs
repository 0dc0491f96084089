//! Threads as the server lists them.

use crate::domain::{
    copy_option, result_view, RuntimeStatus, RuntimeStatusView, SessionNode, SessionNodeView,
    SessionSource, SessionSourceView, VaultError, VaultErrorView,
};
use crate::outside::{
    as_string, has_member, is_null, parse_timestamp, rendered, second_of, string_below, JsonValue,
    JsonView,
};
use crate::text::{copy_texts, same, trim, trimmed};
use vstd::prelude::*;
use vstd::string::*;

verus! {

broadcast use vstd::group_vstd_default;

/// The status of a thread.
#[derive(Debug, PartialEq, Eq)]
pub struct StatusDto {
    pub kind: String,
    pub active_flags: Vec<String>,
}

#[verifier::ext_equal]
pub struct StatusView {
    pub kind: Seq<char>,
    pub active_flags: Seq<Seq<char>>,
}

impl DeepView for StatusDto {
    type V = StatusView;

    open spec fn deep_view(&self) -> StatusView {
        StatusView { kind: self.kind@, active_flags: self.active_flags.deep_view() }
    }
}

impl Clone for StatusDto {
    fn clone(&self) -> (r: Self)
        ensures
            r.deep_view() == self.deep_view(),
    {
        StatusDto { kind: self.kind.clone(), active_flags: copy_texts(&self.active_flags) }
    }
}

/// A thread as the server lists it.
#[derive(Debug, PartialEq, Eq)]
pub struct ThreadDto {
    pub id: String,
    pub name: Option<String>,
    pub title: Option<String>,
    pub cwd: Option<String>,
    pub project_id: Option<String>,
    pub recency_at: Option<JsonValue>,
    pub updated_at: Option<JsonValue>,
    pub created_at: Option<JsonValue>,
    pub is_pinned: Option<bool>,
    pub parent_thread_id: Option<String>,
    pub source: JsonValue,
    pub status: Option<StatusDto>,
}

#[verifier::ext_equal]
pub struct ThreadView {
    pub id: Seq<char>,
    pub name: Option<Seq<char>>,
    pub title: Option<Seq<char>>,
    pub cwd: Option<Seq<char>>,
    pub project_id: Option<Seq<char>>,
    pub recency_at: Option<JsonView>,
    pub updated_at: Option<JsonView>,
    pub created_at: Option<JsonView>,
    pub is_pinned: Option<bool>,
    pub parent_thread_id: Option<Seq<char>>,
    pub source: JsonView,
    pub status: Option<StatusView>,
}

impl DeepView for ThreadDto {
    type V = ThreadView;

    open spec fn deep_view(&self) -> ThreadView {
        ThreadView {
            id: self.id@,
            name: self.name.deep_view(),
            title: self.title.deep_view(),
            cwd: self.cwd.deep_view(),
            project_id: self.project_id.deep_view(),
            recency_at: self.recency_at.deep_view(),
            updated_at: self.updated_at.deep_view(),
            created_at: self.created_at.deep_view(),
            is_pinned: self.is_pinned,
            parent_thread_id: self.parent_thread_id.deep_view(),
            source: self.source.deep_view(),
            status: self.status.deep_view(),
        }
    }
}

fn copy_value(value: &Option<JsonValue>) -> (r: Option<JsonValue>)
    ensures
        r.deep_view() == value.deep_view(),
{
    match value {
        Some(value) => Some(value.clone()),
        None => None,
    }
}

impl Clone for ThreadDto {
    fn clone(&self) -> (r: Self)
        ensures
            r.deep_view() == self.deep_view(),
    {
        ThreadDto {
            id: self.id.clone(),
            name: copy_option(&self.name),
            title: copy_option(&self.title),
            cwd: copy_option(&self.cwd),
            project_id: copy_option(&self.project_id),
            recency_at: copy_value(&self.recency_at),
            updated_at: copy_value(&self.updated_at),
            created_at: copy_value(&self.created_at),
            is_pinned: self.is_pinned,
            parent_thread_id: copy_option(&self.parent_thread_id),
            source: self.source.clone(),
            status: match &self.status {
                Some(status) => Some(status.clone()),
                None => None,
            },
        }
    }
}

/// The parent of a thread: the one that is given, else the one that its source
/// names.
pub open spec fn parent_of(thread: ThreadView) -> Option<Seq<char>> {
    match thread.parent_thread_id {
        Some(parent) => Some(parent),
        None => string_below(thread.source, "/subAgent/thread_spawn/parent_thread_id"@),
    }
}

impl ThreadDto {
    /// The parent of the thread.
    pub fn parent_thread_id(&self) -> (r: Option<String>)
        ensures
            r.deep_view() == parent_of(self.deep_view()),
    {
        match &self.parent_thread_id {
            Some(parent) => Some(parent.clone()),
            None => self.source.string_at("/subAgent/thread_spawn/parent_thread_id"),
        }
    }
}

/// The source that a name stands for.
pub open spec fn named_source(name: Seq<char>) -> SessionSourceView {
    if name == "cli"@ {
        SessionSourceView::Cli
    } else if name == "vscode"@ {
        SessionSourceView::Vscode
    } else if name == "exec"@ {
        SessionSourceView::Exec
    } else if name == "appServer"@ {
        SessionSourceView::AppServer
    } else if name == "subAgent"@ || name == "subAgentReview"@ || name == "subAgentCompact"@
        || name == "subAgentThreadSpawn"@ || name == "subAgentOther"@ {
        SessionSourceView::Descendant
    } else {
        SessionSourceView::Other(name)
    }
}

/// The source that a value stands for, by what is read from it.
pub open spec fn source_by(
    name: Option<Seq<char>>,
    sub_agent: bool,
    null: bool,
    text: Seq<char>,
) -> SessionSourceView {
    match name {
        Some(name) => named_source(name),
        None => if sub_agent {
            SessionSourceView::Descendant
        } else if null {
            SessionSourceView::Unknown
        } else {
            SessionSourceView::Other(text)
        },
    }
}

/// The source that a value stands for.
pub open spec fn source_of(value: JsonView) -> SessionSourceView {
    source_by(
        as_string(value),
        has_member(value, "subAgent"@) || has_member(value, "subagent"@),
        is_null(value),
        rendered(value),
    )
}

/// The source that a value stands for, by what was read from it.
pub fn source_from(name: Option<String>, sub_agent: bool, null: bool, text: String) -> (r:
    SessionSource)
    ensures
        r.deep_view() == source_by(name.deep_view(), sub_agent, null, text@),
{
    match name {
        Some(name) => {
            let value = name.as_str();
            if same(value, "cli") {
                SessionSource::Cli
            } else if same(value, "vscode") {
                SessionSource::Vscode
            } else if same(value, "exec") {
                SessionSource::Exec
            } else if same(value, "appServer") {
                SessionSource::AppServer
            } else if same(value, "subAgent") || same(value, "subAgentReview") || same(
                value,
                "subAgentCompact",
            ) || same(value, "subAgentThreadSpawn") || same(value, "subAgentOther") {
                SessionSource::Descendant
            } else {
                SessionSource::Other(name)
            }
        },
        None => if sub_agent {
            SessionSource::Descendant
        } else if null {
            SessionSource::Unknown
        } else {
            SessionSource::Other(text)
        },
    }
}

/// The source that a value stands for.
pub fn parse_source(value: &JsonValue) -> (r: SessionSource)
    ensures
        r.deep_view() == source_of(value.deep_view()),
{
    source_from(
        value.as_str(),
        value.has("subAgent") || value.has("subagent"),
        value.null(),
        value.render(),
    )
}

/// Nothing but white space.
pub open spec fn blank(text: Seq<char>) -> bool {
    trimmed(text).len() == 0
}

pub fn is_blank(text: &str) -> (r: bool)
    ensures
        r == blank(text@),
{
    crate::text::chars_of(trim(text).as_str()).len() == 0
}

/// The run-time status that a thread's status stands for.
pub open spec fn runtime_of(status: Option<StatusView>) -> RuntimeStatusView {
    match status {
        None => RuntimeStatusView::Unknown("missing"@),
        Some(status) => if status.kind == "notLoaded"@ {
            RuntimeStatusView::NotLoaded
        } else if status.kind == "idle"@ {
            RuntimeStatusView::Idle
        } else if status.kind == "systemError"@ {
            RuntimeStatusView::SystemError
        } else if status.kind == "active"@ {
            RuntimeStatusView::Active(status.active_flags)
        } else {
            RuntimeStatusView::Unknown(status.kind)
        },
    }
}

fn runtime_from(status: &Option<StatusDto>) -> (r: RuntimeStatus)
    ensures
        r.deep_view() == runtime_of(status.deep_view()),
{
    match status {
        None => RuntimeStatus::Unknown("missing".to_owned()),
        Some(status) => {
            let kind = status.kind.as_str();
            if same(kind, "notLoaded") {
                RuntimeStatus::NotLoaded
            } else if same(kind, "idle") {
                RuntimeStatus::Idle
            } else if same(kind, "systemError") {
                RuntimeStatus::SystemError
            } else if same(kind, "active") {
                RuntimeStatus::Active(copy_texts(&status.active_flags))
            } else {
                RuntimeStatus::Unknown(status.kind.clone())
            }
        },
    }
}

/// The second that a field gives.
pub open spec fn field_second(field: Option<JsonView>) -> Option<int> {
    match field {
        Some(value) => second_of(value),
        None => None,
    }
}

/// The first second that the fields give.
pub open spec fn activity_of(thread: ThreadView) -> Option<int> {
    match field_second(thread.recency_at) {
        Some(n) => Some(n),
        None => match field_second(thread.updated_at) {
            Some(n) => Some(n),
            None => field_second(thread.created_at),
        },
    }
}

/// The warning about a field that gives no second.
pub open spec fn field_warning(
    id: Seq<char>,
    name: Seq<char>,
    field: Option<JsonView>,
) -> Seq<Seq<char>> {
    match field {
        Some(value) => if second_of(value) is None {
            seq!["thread "@ + id + " has an invalid "@ + name + " value: "@ + rendered(value)]
        } else {
            Seq::empty()
        },
        None => Seq::empty(),
    }
}

/// The warnings about the fields of a thread.
pub open spec fn thread_warnings(thread: ThreadView) -> Seq<Seq<char>> {
    field_warning(thread.id, "recencyAt"@, thread.recency_at) + field_warning(
        thread.id,
        "updatedAt"@,
        thread.updated_at,
    ) + field_warning(thread.id, "createdAt"@, thread.created_at)
}

/// A text that is not blank.
pub open spec fn unless_blank(text: Option<Seq<char>>) -> Option<Seq<char>> {
    match text {
        Some(value) => if blank(value) {
            None
        } else {
            Some(value)
        },
        None => None,
    }
}

/// The title of a thread: its name, else its title, else its id.
pub open spec fn title_of(thread: ThreadView) -> Seq<char> {
    let chosen = match thread.name {
        Some(name) => Some(name),
        None => thread.title,
    };
    match unless_blank(chosen) {
        Some(title) => title,
        None => thread.id,
    }
}

/// The session of a thread.
pub open spec fn session_of(
    thread: ThreadView,
    archived: bool,
    source: SessionSourceView,
) -> SessionNodeView {
    SessionNodeView {
        id: thread.id,
        title: title_of(thread),
        project: thread.project_id,
        provider: None,
        model: None,
        cwd: thread.cwd->0,
        rollout_bytes: None,
        last_activity: match activity_of(thread) {
            Some(n) => Some(n as i64),
            None => None,
        },
        archived,
        pinned: thread.is_pinned,
        status: runtime_of(thread.status),
        parent_id: parent_of(thread),
        source,
    }
}

/// What a thread is mapped to: an id and a directory are required.
pub open spec fn mapped(
    thread: ThreadView,
    archived: bool,
    source: SessionSourceView,
) -> Result<(SessionNodeView, Seq<Seq<char>>), VaultErrorView> {
    if blank(thread.id) {
        Err(VaultErrorView::Protocol("thread id is empty"@))
    } else if unless_blank(thread.cwd) is None {
        Err(VaultErrorView::Protocol("thread "@ + thread.id + " has no cwd"@))
    } else {
        Ok((session_of(thread, archived, source), thread_warnings(thread)))
    }
}

fn read_field(
    id: &String,
    name: &str,
    field: &Option<JsonValue>,
    warnings: &mut Vec<String>,
) -> (r: Option<i64>)
    ensures
        match field_second(field.deep_view()) {
            Some(n) => r matches Some(m) && m == n,
            None => r is None,
        },
        final(warnings).deep_view() == old(warnings).deep_view() + field_warning(
            id@,
            name@,
            field.deep_view(),
        ),
{
    let ghost before = warnings.deep_view();
    match field {
        Some(value) => match parse_timestamp(value) {
            Some(second) => {
                assert(warnings.deep_view() =~= before + field_warning(
                    id@,
                    name@,
                    field.deep_view(),
                ));
                Some(second)
            },
            None => {
                let warning = "thread ".to_owned().concat(id.as_str()).concat(
                    " has an invalid ",
                ).concat(name).concat(" value: ").concat(value.render().as_str());
                warnings.push(warning);
                assert(warnings.deep_view() =~= before.push(warning@));
                assert(warnings.deep_view() =~= before + field_warning(
                    id@,
                    name@,
                    field.deep_view(),
                ));
                None
            },
        },
        None => {
            assert(warnings.deep_view() =~= before + field_warning(id@, name@, field.deep_view()));
            None
        },
    }
}

/// Maps a thread to a session, with warnings about what it could not read.
pub fn map_thread(dto: ThreadDto, archived: bool, source: SessionSource) -> (r: Result<
    (SessionNode, Vec<String>),
    VaultError,
>)
    ensures
        result_view(r) == mapped(dto.deep_view(), archived, source.deep_view()),
{
    if is_blank(dto.id.as_str()) {
        return Err(VaultError::Protocol("thread id is empty".to_owned()));
    }
    let parent_id = dto.parent_thread_id();
    let cwd = match &dto.cwd {
        Some(value) => if is_blank(value.as_str()) {
            None
        } else {
            Some(value.clone())
        },
        None => None,
    };
    let cwd = match cwd {
        Some(value) => value,
        None => {
            return Err(
                VaultError::Protocol(
                    "thread ".to_owned().concat(dto.id.as_str()).concat(" has no cwd"),
                ),
            );
        },
    };
    let chosen = match &dto.name {
        Some(name) => Some(name.clone()),
        None => copy_option(&dto.title),
    };
    let title = match chosen {
        Some(value) => if is_blank(value.as_str()) {
            dto.id.clone()
        } else {
            value
        },
        None => dto.id.clone(),
    };
    let status = runtime_from(&dto.status);
    let mut warnings: Vec<String> = Vec::new();
    assert(warnings.deep_view() =~= Seq::empty());
    let recency = read_field(&dto.id, "recencyAt", &dto.recency_at, &mut warnings);
    let updated = read_field(&dto.id, "updatedAt", &dto.updated_at, &mut warnings);
    let created = read_field(&dto.id, "createdAt", &dto.created_at, &mut warnings);
    assert(warnings.deep_view() =~= thread_warnings(dto.deep_view()));
    let last_activity = if recency.is_some() {
        recency
    } else if updated.is_some() {
        updated
    } else {
        created
    };
    Ok(
        (
            SessionNode {
                id: dto.id,
                title,
                project: dto.project_id,
                provider: None,
                model: None,
                cwd,
                rollout_bytes: None,
                last_activity,
                archived,
                pinned: dto.is_pinned,
                status,
                parent_id,
                source,
            },
            warnings,
        ),
    )
}

} // verus!
