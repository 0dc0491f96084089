//! The task catalog: threads and the edges between them, read row by row.

use crate::codex::thread::{
    blank, is_blank, unless_blank, StatusDto, StatusView, ThreadDto, ThreadView,
};
use crate::domain::{copy_option, result_view};
use crate::ordered::TextMap;
use crate::outside::{
    json_kind, kind_of_json, string_below, JsonKind, JsonValue, JsonView,
};
use crate::text::same;
use vstd::prelude::*;
use vstd::string::*;

verus! {

broadcast use vstd::group_vstd_default;

/// A row of the thread table. Each cell holds its value, or why it could not
/// be read.
pub struct CatalogRow {
    pub id: Result<String, String>,
    pub title: Result<Option<String>, String>,
    pub cwd: Result<String, String>,
    pub project: Result<Option<String>, String>,
    pub provider: Result<Option<String>, String>,
    pub model: Result<Option<String>, String>,
    /// None where the cell holds no integer.
    pub archived: Result<Option<i64>, String>,
    /// None where the cell holds no integer.
    pub pinned: Result<Option<i64>, String>,
    pub last_activity_ms: Result<i64, String>,
    pub rollout_path: Result<String, String>,
    pub source: Result<String, String>,
}

#[verifier::ext_equal]
pub struct CatalogRowView {
    pub id: Result<Seq<char>, Seq<char>>,
    pub title: Result<Option<Seq<char>>, Seq<char>>,
    pub cwd: Result<Seq<char>, Seq<char>>,
    pub project: Result<Option<Seq<char>>, Seq<char>>,
    pub provider: Result<Option<Seq<char>>, Seq<char>>,
    pub model: Result<Option<Seq<char>>, Seq<char>>,
    pub archived: Result<Option<i64>, Seq<char>>,
    pub pinned: Result<Option<i64>, Seq<char>>,
    pub last_activity_ms: Result<i64, Seq<char>>,
    pub rollout_path: Result<Seq<char>, Seq<char>>,
    pub source: Result<Seq<char>, Seq<char>>,
}

impl DeepView for CatalogRow {
    type V = CatalogRowView;

    open spec fn deep_view(&self) -> CatalogRowView {
        CatalogRowView {
            id: result_view(self.id),
            title: result_view(self.title),
            cwd: result_view(self.cwd),
            project: result_view(self.project),
            provider: result_view(self.provider),
            model: result_view(self.model),
            archived: result_view(self.archived),
            pinned: result_view(self.pinned),
            last_activity_ms: result_view(self.last_activity_ms),
            rollout_path: result_view(self.rollout_path),
            source: result_view(self.source),
        }
    }
}

/// A thread of the catalog.
#[derive(Debug, PartialEq, Eq)]
pub struct CatalogThread {
    pub id: String,
    pub title: Option<String>,
    pub cwd: String,
    pub project: Option<String>,
    pub provider: Option<String>,
    pub model: Option<String>,
    pub archived: bool,
    pub pinned: bool,
    pub last_activity_ms: i64,
    pub rollout_path: String,
    pub source: JsonValue,
    pub parent_id: Option<String>,
}

#[verifier::ext_equal]
pub struct CatalogThreadView {
    pub id: Seq<char>,
    pub title: Option<Seq<char>>,
    pub cwd: Seq<char>,
    pub project: Option<Seq<char>>,
    pub provider: Option<Seq<char>>,
    pub model: Option<Seq<char>>,
    pub archived: bool,
    pub pinned: bool,
    pub last_activity_ms: i64,
    pub rollout_path: Seq<char>,
    pub source: JsonView,
    pub parent_id: Option<Seq<char>>,
}

impl DeepView for CatalogThread {
    type V = CatalogThreadView;

    open spec fn deep_view(&self) -> CatalogThreadView {
        CatalogThreadView {
            id: self.id@,
            title: self.title.deep_view(),
            cwd: self.cwd@,
            project: self.project.deep_view(),
            provider: self.provider.deep_view(),
            model: self.model.deep_view(),
            archived: self.archived,
            pinned: self.pinned,
            last_activity_ms: self.last_activity_ms,
            rollout_path: self.rollout_path@,
            source: self.source.deep_view(),
            parent_id: self.parent_id.deep_view(),
        }
    }
}

/// Whole seconds of milliseconds, cut towards zero.
pub open spec fn whole_seconds(ms: int) -> int {
    if ms >= 0 {
        ms / 1000
    } else {
        -((-ms) / 1000)
    }
}

fn seconds_from_ms(ms: i64) -> (r: i64)
    ensures
        r == whole_seconds(ms as int),
{
    if ms >= 0 {
        ((ms as u64) / 1000) as i64
    } else {
        let magnitude: u64 = if ms == i64::MIN {
            9_223_372_036_854_775_808
        } else {
            (-ms) as u64
        };
        -((magnitude / 1000) as i64)
    }
}

/// What the catalog alone knows of a thread.
pub open spec fn catalog_only(thread: CatalogThreadView, reason: Seq<char>) -> ThreadView {
    ThreadView {
        id: thread.id,
        name: None,
        title: thread.title,
        cwd: Some(thread.cwd),
        project_id: thread.project,
        recency_at: Some(
            JsonView::Integer(whole_seconds(thread.last_activity_ms as int) as i64),
        ),
        updated_at: None,
        created_at: None,
        is_pinned: Some(thread.pinned),
        parent_thread_id: thread.parent_id,
        source: thread.source,
        status: Some(
            StatusView { kind: "catalogOnly:"@ + reason, active_flags: Seq::empty() },
        ),
    }
}

/// A listed thread with what the catalog knows of it: the catalog decides on
/// everything that it holds.
pub open spec fn with_catalog(dto: ThreadView, thread: CatalogThreadView) -> ThreadView {
    ThreadView {
        title: match thread.title {
            Some(title) => Some(title),
            None => dto.title,
        },
        cwd: Some(thread.cwd),
        project_id: thread.project,
        recency_at: Some(
            JsonView::Integer(whole_seconds(thread.last_activity_ms as int) as i64),
        ),
        is_pinned: Some(thread.pinned),
        parent_thread_id: thread.parent_id,
        source: thread.source,
        ..dto
    }
}

impl CatalogThread {
    /// What the catalog alone knows of the thread.
    pub fn fallback_dto(&self, reason: &str) -> (r: ThreadDto)
        ensures
            r.deep_view() == catalog_only(self.deep_view(), reason@),
    {
        let flags: Vec<String> = Vec::new();
        assert(flags.deep_view() =~= Seq::empty());
        ThreadDto {
            id: self.id.clone(),
            name: None,
            title: copy_option(&self.title),
            cwd: Some(self.cwd.clone()),
            project_id: copy_option(&self.project),
            recency_at: Some(JsonValue::Integer(seconds_from_ms(self.last_activity_ms))),
            updated_at: None,
            created_at: None,
            is_pinned: Some(self.pinned),
            parent_thread_id: copy_option(&self.parent_id),
            source: self.source.clone(),
            status: Some(
                StatusDto { kind: "catalogOnly:".to_owned().concat(reason), active_flags: flags },
            ),
        }
    }

    /// A listed thread with what the catalog knows of it.
    pub fn apply_to_dto(&self, dto: ThreadDto) -> (r: ThreadDto)
        ensures
            r.deep_view() == with_catalog(dto.deep_view(), self.deep_view()),
    {
        ThreadDto {
            id: dto.id,
            name: dto.name,
            title: match &self.title {
                Some(title) => Some(title.clone()),
                None => dto.title,
            },
            cwd: Some(self.cwd.clone()),
            project_id: copy_option(&self.project),
            recency_at: Some(JsonValue::Integer(seconds_from_ms(self.last_activity_ms))),
            updated_at: dto.updated_at,
            created_at: dto.created_at,
            is_pinned: Some(self.pinned),
            parent_thread_id: copy_option(&self.parent_id),
            source: self.source.clone(),
            status: dto.status,
        }
    }
}

/// The source of a catalog row: JSON where it is JSON, else a string.
pub open spec fn catalog_source(raw: Seq<char>) -> JsonView {
    if json_kind(raw) is Broken {
        JsonView::Text(raw)
    } else {
        JsonView::Raw(raw)
    }
}

/// The parent that a source names.
pub open spec fn source_parent(source: JsonView) -> Option<Seq<char>> {
    match string_below(source, "/subAgent/thread_spawn/parent_thread_id"@) {
        Some(parent) => Some(parent),
        None => string_below(source, "/subagent/thread_spawn/parent_thread_id"@),
    }
}

pub fn parse_catalog_source(raw: &str) -> (r: JsonValue)
    ensures
        r.deep_view() == catalog_source(raw@),
{
    if kind_of_json(raw) == JsonKind::Broken {
        JsonValue::Text(raw.to_owned())
    } else {
        JsonValue::Raw(raw.to_owned())
    }
}

pub fn catalog_parent_from_source(source: &JsonValue) -> (r: Option<String>)
    ensures
        r.deep_view() == source_parent(source.deep_view()),
{
    match source.string_at("/subAgent/thread_spawn/parent_thread_id") {
        Some(parent) => Some(parent),
        None => source.string_at("/subagent/thread_spawn/parent_thread_id"),
    }
}

/// What is wrong with a cell that must hold zero or one.
pub open spec fn bool_problem(cell: Result<Option<i64>, Seq<char>>, field: Seq<char>) -> Option<
    Seq<char>,
> {
    match cell {
        Err(problem) => Some(field + " cannot be read: "@ + problem),
        Ok(Some(0)) => None,
        Ok(Some(1)) => None,
        Ok(_) => Some(field + " is not 0 or 1"@),
    }
}

/// What is wrong with a row, the first thing that is.
pub open spec fn row_problem(row: CatalogRowView) -> Option<Seq<char>> {
    if row.id is Err {
        Some("thread id is not text: "@ + row.id->Err_0)
    } else {
        let id = row.id->Ok_0;
        if blank(id) {
            Some("thread id is empty"@)
        } else if row.cwd is Err {
            Some("cwd cannot be read for "@ + id + ": "@ + row.cwd->Err_0)
        } else if blank(row.cwd->Ok_0) {
            Some("cwd is empty for "@ + id)
        } else if row.rollout_path is Err {
            Some("rollout_path cannot be read for "@ + id + ": "@ + row.rollout_path->Err_0)
        } else if blank(row.rollout_path->Ok_0) {
            Some("rollout_path is empty for "@ + id)
        } else if row.source is Err {
            Some("source cannot be read for "@ + id + ": "@ + row.source->Err_0)
        } else if row.title is Err {
            Some("title cannot be read for "@ + id + ": "@ + row.title->Err_0)
        } else if row.project is Err {
            Some("project_id cannot be read for "@ + id + ": "@ + row.project->Err_0)
        } else if row.provider is Err {
            Some("model_provider cannot be read for "@ + id + ": "@ + row.provider->Err_0)
        } else if row.model is Err {
            Some("model cannot be read for "@ + id + ": "@ + row.model->Err_0)
        } else if bool_problem(row.archived, "archived for "@ + id) is Some {
            bool_problem(row.archived, "archived for "@ + id)
        } else if bool_problem(row.pinned, "is_pinned for "@ + id) is Some {
            bool_problem(row.pinned, "is_pinned for "@ + id)
        } else if row.last_activity_ms is Err {
            Some("updated_at_ms cannot be read for "@ + id + ": "@ + row.last_activity_ms->Err_0)
        } else {
            None
        }
    }
}

/// The thread of a row with which nothing is wrong.
pub open spec fn row_thread(row: CatalogRowView) -> CatalogThreadView {
    let source = catalog_source(row.source->Ok_0);
    CatalogThreadView {
        id: row.id->Ok_0,
        title: unless_blank(row.title->Ok_0),
        cwd: row.cwd->Ok_0,
        project: row.project->Ok_0,
        provider: row.provider->Ok_0,
        model: row.model->Ok_0,
        archived: row.archived->Ok_0 == Some(1i64),
        pinned: row.pinned->Ok_0 == Some(1i64),
        last_activity_ms: row.last_activity_ms->Ok_0,
        rollout_path: row.rollout_path->Ok_0,
        source,
        parent_id: source_parent(source),
    }
}

/// The threads of the rows, or the first thing that is wrong.
pub open spec fn threads_of(rows: Seq<Result<CatalogRowView, Seq<char>>>) -> Result<
    Map<Seq<char>, CatalogThreadView>,
    Seq<char>,
>
    decreases rows.len(),
{
    if rows.len() == 0 {
        Ok(Map::empty())
    } else {
        match threads_of(rows.drop_last()) {
            Err(problem) => Err(problem),
            Ok(threads) => match rows.last() {
                Err(problem) => Err("cannot read threads catalog row: "@ + problem),
                Ok(row) => match row_problem(row) {
                    Some(problem) => Err(problem),
                    None => if threads.contains_key(row.id->Ok_0) {
                        Err("duplicate thread row for "@ + row.id->Ok_0)
                    } else {
                        Ok(threads.insert(row.id->Ok_0, row_thread(row)))
                    },
                },
            },
        }
    }
}

fn sqlite_bool(cell: &Result<Option<i64>, String>, field: &str) -> (r: Result<bool, String>)
    ensures
        match bool_problem(result_view(*cell), field@) {
            Some(problem) => r matches Err(text) && text@ == problem,
            None => r matches Ok(value) && value == (result_view(*cell)->Ok_0 == Some(1i64)),
        },
{
    match cell {
        Err(problem) => Err(
            field.to_owned().concat(" cannot be read: ").concat(problem.as_str()),
        ),
        Ok(Some(n)) => if *n == 0 {
            Ok(false)
        } else if *n == 1 {
            Ok(true)
        } else {
            Err(field.to_owned().concat(" is not 0 or 1"))
        },
        Ok(None) => Err(field.to_owned().concat(" is not 0 or 1")),
    }
}

fn cell_text(
    cell: &Result<Option<String>, String>,
    before: &str,
    id: &str,
) -> (r: Result<Option<String>, String>)
    ensures
        match result_view(*cell) {
            Ok(value) => r matches Ok(text) && text.deep_view() == value,
            Err(problem) => r matches Err(text) && text@ == before@ + id@ + ": "@ + problem,
        },
{
    match cell {
        Ok(value) => Ok(copy_option(value)),
        Err(problem) => Err(before.to_owned().concat(id).concat(": ").concat(problem.as_str())),
    }
}

/// The thread of a row, or what is wrong with it.
pub fn thread_from_row(row: &CatalogRow) -> (r: Result<CatalogThread, String>)
    ensures
        match row_problem(row.deep_view()) {
            Some(problem) => r matches Err(text) && text@ == problem,
            None => r matches Ok(thread) && thread.deep_view() == row_thread(row.deep_view()),
        },
{
    let id = match &row.id {
        Ok(id) => id.clone(),
        Err(problem) => {
            return Err("thread id is not text: ".to_owned().concat(problem.as_str()));
        },
    };
    if is_blank(id.as_str()) {
        return Err("thread id is empty".to_owned());
    }
    let cwd = match &row.cwd {
        Ok(cwd) => cwd.clone(),
        Err(problem) => {
            return Err(
                "cwd cannot be read for ".to_owned().concat(id.as_str()).concat(": ").concat(
                    problem.as_str(),
                ),
            );
        },
    };
    if is_blank(cwd.as_str()) {
        return Err("cwd is empty for ".to_owned().concat(id.as_str()));
    }
    let rollout_path = match &row.rollout_path {
        Ok(path) => path.clone(),
        Err(problem) => {
            return Err(
                "rollout_path cannot be read for ".to_owned().concat(id.as_str()).concat(
                    ": ",
                ).concat(problem.as_str()),
            );
        },
    };
    if is_blank(rollout_path.as_str()) {
        return Err("rollout_path is empty for ".to_owned().concat(id.as_str()));
    }
    let source = match &row.source {
        Ok(raw) => parse_catalog_source(raw.as_str()),
        Err(problem) => {
            return Err(
                "source cannot be read for ".to_owned().concat(id.as_str()).concat(": ").concat(
                    problem.as_str(),
                ),
            );
        },
    };
    let title = match cell_text(&row.title, "title cannot be read for ", id.as_str()) {
        Ok(Some(title)) => if is_blank(title.as_str()) {
            None
        } else {
            Some(title)
        },
        Ok(None) => None,
        Err(problem) => {
            return Err(problem);
        },
    };
    let project = match cell_text(&row.project, "project_id cannot be read for ", id.as_str()) {
        Ok(value) => value,
        Err(problem) => {
            return Err(problem);
        },
    };
    let provider = match cell_text(
        &row.provider,
        "model_provider cannot be read for ",
        id.as_str(),
    ) {
        Ok(value) => value,
        Err(problem) => {
            return Err(problem);
        },
    };
    let model = match cell_text(&row.model, "model cannot be read for ", id.as_str()) {
        Ok(value) => value,
        Err(problem) => {
            return Err(problem);
        },
    };
    let archived = match sqlite_bool(
        &row.archived,
        "archived for ".to_owned().concat(id.as_str()).as_str(),
    ) {
        Ok(value) => value,
        Err(problem) => {
            return Err(problem);
        },
    };
    let pinned = match sqlite_bool(
        &row.pinned,
        "is_pinned for ".to_owned().concat(id.as_str()).as_str(),
    ) {
        Ok(value) => value,
        Err(problem) => {
            return Err(problem);
        },
    };
    let last_activity_ms = match &row.last_activity_ms {
        Ok(value) => *value,
        Err(problem) => {
            return Err(
                "updated_at_ms cannot be read for ".to_owned().concat(id.as_str()).concat(
                    ": ",
                ).concat(problem.as_str()),
            );
        },
    };
    let parent_id = catalog_parent_from_source(&source);
    Ok(
        CatalogThread {
            id,
            title,
            cwd,
            project,
            provider,
            model,
            archived,
            pinned,
            last_activity_ms,
            rollout_path,
            source,
            parent_id,
        },
    )
}

/// The rows as values.
pub open spec fn rows_view(rows: Seq<Result<CatalogRow, String>>) -> Seq<
    Result<CatalogRowView, Seq<char>>,
> {
    rows.map_values(|row: Result<CatalogRow, String>| result_view(row))
}

proof fn lemma_threads_of_fails(rows: Seq<Result<CatalogRowView, Seq<char>>>, i: int)
    requires
        0 <= i <= rows.len(),
        threads_of(rows.take(i)) is Err,
    ensures
        threads_of(rows) == threads_of(rows.take(i)),
    decreases rows.len() - i,
{
    if i < rows.len() {
        assert(rows.take(i + 1).drop_last() =~= rows.take(i));
        lemma_threads_of_fails(rows, i + 1);
    } else {
        assert(rows.take(i) =~= rows);
    }
}

/// Reads the threads of the catalog.
pub fn catalog_threads(rows: &Vec<Result<CatalogRow, String>>) -> (r: Result<
    TextMap<CatalogThread>,
    String,
>)
    ensures
        result_view(r) == threads_of(rows_view(rows@)),
{
    let ghost all = rows_view(rows@);
    let mut threads: TextMap<CatalogThread> = TextMap::new();
    let mut i: usize = 0;
    assert(all.take(0) =~= Seq::empty());
    while i < rows.len()
        invariant
            i <= rows@.len(),
            all == rows_view(rows@),
            threads_of(all.take(i as int)) == Ok::<Map<Seq<char>, CatalogThreadView>, Seq<char>>(
                threads@,
            ),
        decreases rows.len() - i,
    {
        proof {
            assert(all.take(i as int + 1).drop_last() =~= all.take(i as int));
            assert(all.take(i as int + 1).last() == result_view(rows@[i as int]));
            if threads_of(all.take(i as int + 1)) is Err {
                lemma_threads_of_fails(all, i as int + 1);
            }
        }
        match &rows[i] {
            Err(problem) => {
                return Err(
                    "cannot read threads catalog row: ".to_owned().concat(problem.as_str()),
                );
            },
            Ok(row) => match thread_from_row(row) {
                Err(problem) => {
                    return Err(problem);
                },
                Ok(thread) => {
                    let id = thread.id.clone();
                    if threads.get(id.as_str()).is_some() {
                        return Err("duplicate thread row for ".to_owned().concat(id.as_str()));
                    }
                    threads.insert(id, thread);
                },
            },
        }
        i += 1;
    }
    assert(all.take(i as int) =~= all);
    Ok(threads)
}

/// A row of the edge table.
pub struct EdgeRow {
    pub parent: Result<String, String>,
    pub child: Result<String, String>,
    pub status: Result<String, String>,
}

#[verifier::ext_equal]
pub struct EdgeRowView {
    pub parent: Result<Seq<char>, Seq<char>>,
    pub child: Result<Seq<char>, Seq<char>>,
    pub status: Result<Seq<char>, Seq<char>>,
}

impl DeepView for EdgeRow {
    type V = EdgeRowView;

    open spec fn deep_view(&self) -> EdgeRowView {
        EdgeRowView {
            parent: result_view(self.parent),
            child: result_view(self.child),
            status: result_view(self.status),
        }
    }
}

/// An edge whose child is not in the catalog.
#[derive(Debug, PartialEq, Eq)]
pub struct StaleSpawnEdge {
    pub parent: String,
    pub child: String,
    pub status: String,
}

#[verifier::ext_equal]
pub struct StaleSpawnEdgeView {
    pub parent: Seq<char>,
    pub child: Seq<char>,
    pub status: Seq<char>,
}

impl DeepView for StaleSpawnEdge {
    type V = StaleSpawnEdgeView;

    open spec fn deep_view(&self) -> StaleSpawnEdgeView {
        StaleSpawnEdgeView { parent: self.parent@, child: self.child@, status: self.status@ }
    }
}

/// The catalog: its threads with their parents, and what its edges left over.
pub struct CatalogSnapshot {
    pub threads: TextMap<CatalogThread>,
    pub ignored_orphan_edges: usize,
    pub unresolved_child_edges: usize,
    pub stale_edges: Vec<StaleSpawnEdge>,
}

#[verifier::ext_equal]
pub struct CatalogSnapshotView {
    pub threads: Map<Seq<char>, CatalogThreadView>,
    pub ignored_orphan_edges: usize,
    pub unresolved_child_edges: usize,
    pub stale_edges: Seq<StaleSpawnEdgeView>,
}

impl DeepView for CatalogSnapshot {
    type V = CatalogSnapshotView;

    open spec fn deep_view(&self) -> CatalogSnapshotView {
        CatalogSnapshotView {
            threads: self.threads@,
            ignored_orphan_edges: self.ignored_orphan_edges,
            unresolved_child_edges: self.unresolved_child_edges,
            stale_edges: self.stale_edges.deep_view(),
        }
    }
}

/// One more, as far as a machine can count.
pub open spec fn counted(n: usize) -> usize {
    if n < usize::MAX {
        (n + 1) as usize
    } else {
        n
    }
}

/// The catalog with one more edge: an edge to a missing child is stale, one
/// from a missing parent is unresolved, and any other gives the child its
/// parent, which must not contradict its source.
pub open spec fn with_edge(
    catalog: CatalogSnapshotView,
    parent: Seq<char>,
    child: Seq<char>,
    status: Seq<char>,
) -> Result<CatalogSnapshotView, Seq<char>> {
    if !catalog.threads.contains_key(child) {
        Ok(
            CatalogSnapshotView {
                ignored_orphan_edges: counted(catalog.ignored_orphan_edges),
                stale_edges: catalog.stale_edges.push(
                    StaleSpawnEdgeView { parent, child, status },
                ),
                ..catalog
            },
        )
    } else if !catalog.threads.contains_key(parent) {
        Ok(
            CatalogSnapshotView {
                unresolved_child_edges: counted(catalog.unresolved_child_edges),
                ..catalog
            },
        )
    } else {
        match catalog.threads[child].parent_id {
            Some(known) => if known != parent {
                Err(
                    "conflicting parent metadata for "@ + child + ": source="@ + known
                        + ", edge="@ + parent,
                )
            } else {
                Ok(catalog)
            },
            None => Ok(
                CatalogSnapshotView {
                    threads: catalog.threads.insert(
                        child,
                        CatalogThreadView { parent_id: Some(parent), ..catalog.threads[child] },
                    ),
                    ..catalog
                },
            ),
        }
    }
}

/// The catalog of the threads and edges, or the first thing that is wrong with
/// an edge.
pub open spec fn catalog_of(
    threads: Map<Seq<char>, CatalogThreadView>,
    edges: Seq<Result<EdgeRowView, Seq<char>>>,
) -> Result<CatalogSnapshotView, Seq<char>>
    decreases edges.len(),
{
    if edges.len() == 0 {
        Ok(
            CatalogSnapshotView {
                threads,
                ignored_orphan_edges: 0,
                unresolved_child_edges: 0,
                stale_edges: Seq::empty(),
            },
        )
    } else {
        match catalog_of(threads, edges.drop_last()) {
            Err(problem) => Err(problem),
            Ok(catalog) => match edges.last() {
                Err(problem) => Err("cannot read thread_spawn_edges row: "@ + problem),
                Ok(edge) => match edge.parent {
                    Err(problem) => Err("spawn parent id is not text: "@ + problem),
                    Ok(parent) => match edge.child {
                        Err(problem) => Err("spawn child id is not text: "@ + problem),
                        Ok(child) => match edge.status {
                            Err(problem) => Err("spawn status is not text: "@ + problem),
                            Ok(status) => with_edge(catalog, parent, child, status),
                        },
                    },
                },
            },
        }
    }
}

/// The edges as values.
pub open spec fn edges_view(edges: Seq<Result<EdgeRow, String>>) -> Seq<
    Result<EdgeRowView, Seq<char>>,
> {
    edges.map_values(|edge: Result<EdgeRow, String>| result_view(edge))
}

proof fn lemma_catalog_of_fails(
    threads: Map<Seq<char>, CatalogThreadView>,
    edges: Seq<Result<EdgeRowView, Seq<char>>>,
    i: int,
)
    requires
        0 <= i <= edges.len(),
        catalog_of(threads, edges.take(i)) is Err,
    ensures
        catalog_of(threads, edges) == catalog_of(threads, edges.take(i)),
    decreases edges.len() - i,
{
    if i < edges.len() {
        assert(edges.take(i + 1).drop_last() =~= edges.take(i));
        lemma_catalog_of_fails(threads, edges, i + 1);
    } else {
        assert(edges.take(i) =~= edges);
    }
}

fn add_edge(catalog: CatalogSnapshot, parent: &String, child: &String, status: &String) -> (r:
    Result<CatalogSnapshot, String>)
    ensures
        result_view(r) == with_edge(catalog.deep_view(), parent@, child@, status@),
{
    let mut catalog = catalog;
    let ghost before = catalog.deep_view();
    let parent_exists = catalog.threads.get(parent.as_str()).is_some();
    match catalog.threads.remove(child.as_str()) {
        None => {
            assert(catalog.threads@ =~= before.threads);
            catalog.ignored_orphan_edges = catalog.ignored_orphan_edges.saturating_add(1);
            catalog.stale_edges.push(
                StaleSpawnEdge {
                    parent: parent.clone(),
                    child: child.clone(),
                    status: status.clone(),
                },
            );
            assert(catalog.stale_edges.deep_view() =~= before.stale_edges.push(
                StaleSpawnEdgeView { parent: parent@, child: child@, status: status@ },
            ));
            Ok(catalog)
        },
        Some(thread) => {
            let mut thread = thread;
            let ghost tv = thread.deep_view();
            if !parent_exists {
                catalog.threads.insert(child.clone(), thread);
                assert(catalog.threads@ =~= before.threads);
                catalog.unresolved_child_edges = catalog.unresolved_child_edges.saturating_add(1);
                return Ok(catalog);
            }
            match &thread.parent_id {
                Some(known) => {
                    if !same(known.as_str(), parent.as_str()) {
                        return Err(
                            "conflicting parent metadata for ".to_owned().concat(
                                child.as_str(),
                            ).concat(": source=").concat(known.as_str()).concat(", edge=").concat(
                                parent.as_str(),
                            ),
                        );
                    }
                },
                None => {
                    thread.parent_id = Some(parent.clone());
                },
            }
            let ghost now = thread.deep_view();
            catalog.threads.insert(child.clone(), thread);
            proof {
                if tv.parent_id is Some {
                    assert(now =~= tv);
                    assert(catalog.threads@ =~= before.threads);
                } else {
                    assert(now =~= CatalogThreadView { parent_id: Some(parent@), ..tv });
                    assert(catalog.threads@ =~= before.threads.insert(child@, now));
                }
            }
            Ok(catalog)
        },
    }
}

/// Gives the threads of the catalog their parents.
pub fn attach_edges(threads: TextMap<CatalogThread>, edges: &Vec<Result<EdgeRow, String>>) -> (r:
    Result<CatalogSnapshot, String>)
    ensures
        result_view(r) == catalog_of(threads@, edges_view(edges@)),
{
    let ghost all = edges_view(edges@);
    let ghost start = threads@;
    let mut catalog = CatalogSnapshot {
        threads,
        ignored_orphan_edges: 0,
        unresolved_child_edges: 0,
        stale_edges: Vec::new(),
    };
    let mut i: usize = 0;
    proof {
        assert(all.take(0) =~= Seq::empty());
        assert(catalog.stale_edges.deep_view() =~= Seq::empty());
    }
    while i < edges.len()
        invariant
            i <= edges@.len(),
            all == edges_view(edges@),
            start == threads@,
            catalog_of(start, all.take(i as int)) == Ok::<CatalogSnapshotView, Seq<char>>(
                catalog.deep_view(),
            ),
        decreases edges.len() - i,
    {
        proof {
            assert(all.take(i as int + 1).drop_last() =~= all.take(i as int));
            assert(all.take(i as int + 1).last() == result_view(edges@[i as int]));
            if catalog_of(start, all.take(i as int + 1)) is Err {
                lemma_catalog_of_fails(start, all, i as int + 1);
            }
        }
        let edge = match &edges[i] {
            Ok(edge) => edge,
            Err(problem) => {
                return Err(
                    "cannot read thread_spawn_edges row: ".to_owned().concat(problem.as_str()),
                );
            },
        };
        let parent = match &edge.parent {
            Ok(value) => value,
            Err(problem) => {
                return Err("spawn parent id is not text: ".to_owned().concat(problem.as_str()));
            },
        };
        let child = match &edge.child {
            Ok(value) => value,
            Err(problem) => {
                return Err("spawn child id is not text: ".to_owned().concat(problem.as_str()));
            },
        };
        let status = match &edge.status {
            Ok(value) => value,
            Err(problem) => {
                return Err("spawn status is not text: ".to_owned().concat(problem.as_str()));
            },
        };
        catalog = match add_edge(catalog, parent, child, status) {
            Ok(next) => next,
            Err(problem) => {
                return Err(problem);
            },
        };
        i += 1;
    }
    assert(all.take(i as int) =~= all);
    Ok(catalog)
}

} // verus!
