//! What the task catalog says of a thread and of its edges, in terms of the
//! cells of its rows.

use crate::codex::catalog::{
    catalog_of, catalog_only, row_problem, row_thread, threads_of, with_catalog, CatalogRowView,
    CatalogThreadView, EdgeRowView, StaleSpawnEdgeView,
};
use crate::codex::thread::{mapped, parent_of, ThreadView};
use crate::domain::{RuntimeStatusView, SessionSourceView};
use crate::outside::{json_kind, json_string_at, JsonView};
use crate::text_laws::{all_white, law_trimming_takes_white_space_off_the_ends};
use vstd::prelude::*;

verus! {

broadcast use vstd::group_vstd_default;

/// The second `s` is the one in which the millisecond `ms` falls, counted from
/// the epoch towards it.
pub open spec fn in_second(ms: int, s: int) -> bool {
    &&& ms >= 0 ==> 1000 * s <= ms < 1000 * s + 1000
    &&& ms <= 0 ==> 1000 * s - 1000 < ms <= 1000 * s
}

/// A session that the catalog knows was last active in the second in which the
/// millisecond of the catalog falls, whether the server lists the thread or
/// the catalog alone has it, and whatever the server says of the time.
pub proof fn law_catalogued_activity_is_in_seconds(
    dto: ThreadView,
    thread: CatalogThreadView,
    reason: Seq<char>,
    archived: bool,
    source: SessionSourceView,
)
    ensures
        mapped(with_catalog(dto, thread), archived, source) matches Ok((node, warnings)) ==> {
            node.last_activity matches Some(s) && in_second(thread.last_activity_ms as int, s as int)
        },
        mapped(catalog_only(thread, reason), archived, source) matches Ok((node, warnings)) ==> {
            node.last_activity matches Some(s) && in_second(thread.last_activity_ms as int, s as int)
        },
{
}

/// A session that the catalog knows has the directory, the project, the pin
/// and, where the catalog has one, the parent that the catalog says; the
/// server's own name for it stays, and the catalog's title stands where the
/// server has no name and the title is not blank.
pub proof fn law_the_catalog_decides_on_its_fields(
    dto: ThreadView,
    thread: CatalogThreadView,
    archived: bool,
    source: SessionSourceView,
)
    ensures
        mapped(with_catalog(dto, thread), archived, source) is Ok <==> !all_white(dto.id)
            && !all_white(thread.cwd),
        mapped(with_catalog(dto, thread), archived, source) matches Ok((node, warnings)) ==> {
            &&& node.id == dto.id
            &&& node.cwd == thread.cwd
            &&& node.project == thread.project
            &&& node.pinned == Some(thread.pinned)
            &&& node.archived == archived
            &&& node.source == source
            &&& thread.parent_id is Some ==> node.parent_id == thread.parent_id
            &&& thread.parent_id is None ==> node.parent_id == parent_of(
                ThreadView { parent_thread_id: None, source: thread.source, ..dto },
            )
            &&& dto.name is Some && !all_white(dto.name->0) ==> node.title == dto.name->0
            &&& dto.name is None && thread.title is Some && !all_white(thread.title->0)
                ==> node.title == thread.title->0
        },
{
    law_trimming_takes_white_space_off_the_ends(dto.id);
    law_trimming_takes_white_space_off_the_ends(thread.cwd);
    if dto.name is Some {
        law_trimming_takes_white_space_off_the_ends(dto.name->0);
    }
    if thread.title is Some {
        law_trimming_takes_white_space_off_the_ends(thread.title->0);
    }
}

/// A thread that the catalog alone has keeps every field of the catalog, and
/// its status says why the server does not list it.
pub proof fn law_the_catalog_alone_keeps_its_fields(
    thread: CatalogThreadView,
    reason: Seq<char>,
    archived: bool,
    source: SessionSourceView,
)
    ensures
        mapped(catalog_only(thread, reason), archived, source) is Ok <==> !all_white(thread.id)
            && !all_white(thread.cwd),
        mapped(catalog_only(thread, reason), archived, source) matches Ok((node, warnings)) ==> {
            &&& node.id == thread.id
            &&& node.cwd == thread.cwd
            &&& node.project == thread.project
            &&& node.pinned == Some(thread.pinned)
            &&& node.archived == archived
            &&& thread.parent_id is Some ==> node.parent_id == thread.parent_id
            &&& thread.title is Some && !all_white(thread.title->0) ==> node.title
                == thread.title->0
            &&& thread.title is None || all_white(thread.title->0) ==> node.title == thread.id
            &&& node.status matches RuntimeStatusView::Unknown(kind) && kind.len()
                >= reason.len() && kind.skip(kind.len() - reason.len()) == reason
            &&& warnings.len() == 0
        },
{
    law_trimming_takes_white_space_off_the_ends(thread.id);
    law_trimming_takes_white_space_off_the_ends(thread.cwd);
    if thread.title is Some {
        law_trimming_takes_white_space_off_the_ends(thread.title->0);
    }
    let kind = "catalogOnly:"@ + reason;
    assert(kind.skip(kind.len() - reason.len()) =~= reason);
    reveal_strlit("catalogOnly:");
    reveal_strlit("notLoaded");
    reveal_strlit("idle");
    reveal_strlit("systemError");
    reveal_strlit("active");
    assert(kind[0] == 'c');
    assert("notLoaded"@[0] == 'n' && "idle"@[0] == 'i' && "systemError"@[0] == 's' && "active"@[0]
        == 'a');
}

/// A cell holds zero or one.
pub open spec fn holds_a_flag(cell: Result<Option<i64>, Seq<char>>) -> bool {
    cell == Ok::<Option<i64>, Seq<char>>(Some(0)) || cell == Ok::<Option<i64>, Seq<char>>(Some(1))
}

/// A row of the catalog can be taken: its cells can be read, what names the
/// thread, its directory and its file is not blank, and its flags are zero or
/// one.
pub open spec fn takeable(row: CatalogRowView) -> bool {
    &&& row.id is Ok && !all_white(row.id->Ok_0)
    &&& row.cwd is Ok && !all_white(row.cwd->Ok_0)
    &&& row.rollout_path is Ok && !all_white(row.rollout_path->Ok_0)
    &&& row.source is Ok
    &&& row.title is Ok
    &&& row.project is Ok
    &&& row.provider is Ok
    &&& row.model is Ok
    &&& row.last_activity_ms is Ok
    &&& holds_a_flag(row.archived)
    &&& holds_a_flag(row.pinned)
}

proof fn lemma_takeable(row: CatalogRowView)
    ensures
        row_problem(row) is None <==> takeable(row),
{
    if row.id is Ok {
        law_trimming_takes_white_space_off_the_ends(row.id->Ok_0);
    }
    if row.cwd is Ok {
        law_trimming_takes_white_space_off_the_ends(row.cwd->Ok_0);
    }
    if row.rollout_path is Ok {
        law_trimming_takes_white_space_off_the_ends(row.rollout_path->Ok_0);
    }
}

/// The thread says what the cells of the row say.
pub open spec fn says(row: CatalogRowView, thread: CatalogThreadView) -> bool {
    &&& row.id == Ok::<_, Seq<char>>(thread.id)
    &&& row.cwd == Ok::<_, Seq<char>>(thread.cwd)
    &&& row.rollout_path == Ok::<_, Seq<char>>(thread.rollout_path)
    &&& row.project == Ok::<_, Seq<char>>(thread.project)
    &&& row.provider == Ok::<_, Seq<char>>(thread.provider)
    &&& row.model == Ok::<_, Seq<char>>(thread.model)
    &&& row.last_activity_ms == Ok::<_, Seq<char>>(thread.last_activity_ms)
    &&& thread.archived <==> row.archived == Ok::<_, Seq<char>>(Some(1i64))
    &&& thread.pinned <==> row.pinned == Ok::<_, Seq<char>>(Some(1i64))
    &&& thread.title is Some ==> row.title == Ok::<_, Seq<char>>(thread.title) && !all_white(
        thread.title->0,
    )
    &&& thread.title is None ==> row.title is Ok && (row.title->Ok_0 matches Some(title)
        ==> all_white(title))
    &&& row.source is Ok && thread.source == if json_kind(row.source->Ok_0) is Broken {
        JsonView::Text(row.source->Ok_0)
    } else {
        JsonView::Raw(row.source->Ok_0)
    }
    &&& thread.source matches JsonView::Raw(text) ==> names_parent(text, thread.parent_id)
    &&& !(thread.source is Raw) ==> thread.parent_id is None
}

/// The parent is the one that a source names as the thread that spawned it,
/// under either spelling of its key, the first before the second.
pub open spec fn names_parent(text: Seq<char>, parent: Option<Seq<char>>) -> bool {
    let first = json_string_at(text, "/subAgent/thread_spawn/parent_thread_id"@);
    let second = json_string_at(text, "/subagent/thread_spawn/parent_thread_id"@);
    &&& first is Some ==> parent == first
    &&& first is None && second is Some ==> parent == second
    &&& first is None && second is None ==> parent is None
}

proof fn lemma_pointers()
    ensures
        "/subAgent/thread_spawn/parent_thread_id"@ != ""@,
        "/subagent/thread_spawn/parent_thread_id"@ != ""@,
{
    reveal_strlit("");
    reveal_strlit("/subAgent/thread_spawn/parent_thread_id");
    reveal_strlit("/subagent/thread_spawn/parent_thread_id");
    assert(""@.len() == 0);
    assert("/subAgent/thread_spawn/parent_thread_id"@.len() > 0);
    assert("/subagent/thread_spawn/parent_thread_id"@.len() > 0);
}

/// The catalog is taken exactly where each of its rows can be taken and no two
/// of them name the same thread; it then has one thread for each row, which
/// says what the row says, and no other.
pub proof fn law_each_row_is_a_thread(rows: Seq<Result<CatalogRowView, Seq<char>>>)
    ensures
        threads_of(rows) is Ok <==> {
            &&& forall|i: int|
                0 <= i < rows.len() ==> (#[trigger] rows[i]) is Ok && takeable(rows[i]->Ok_0)
            &&& forall|i: int, k: int|
                0 <= i < k < rows.len() ==> (#[trigger] rows[i])->Ok_0.id != (
                #[trigger] rows[k])->Ok_0.id
        },
        threads_of(rows) matches Ok(threads) ==> {
            &&& forall|i: int|
                0 <= i < rows.len() ==> threads.contains_key((#[trigger] rows[i])->Ok_0.id->Ok_0)
                    && says(rows[i]->Ok_0, threads[rows[i]->Ok_0.id->Ok_0])
            &&& forall|id: Seq<char>| #[trigger]
                threads.contains_key(id) ==> exists|i: int|
                    0 <= i < rows.len() && (#[trigger] rows[i])->Ok_0.id->Ok_0 == id
        },
    decreases rows.len(),
{
    if rows.len() > 0 {
        let head = rows.drop_last();
        let last = rows.len() - 1;
        law_each_row_is_a_thread(head);
        lemma_pointers();
        assert forall|i: int| 0 <= i < last implies #[trigger] head[i] == rows[i] by {}
        if rows[last] is Ok {
            lemma_takeable(rows[last]->Ok_0);
            if rows[last]->Ok_0.title is Ok && rows[last]->Ok_0.title->Ok_0 is Some {
                law_trimming_takes_white_space_off_the_ends(rows[last]->Ok_0.title->Ok_0->0);
            }
        }
        if threads_of(rows) is Ok {
            let row = rows[last]->Ok_0;
            let before = threads_of(head)->Ok_0;
            let threads = threads_of(rows)->Ok_0;
            assert(threads == before.insert(row.id->Ok_0, row_thread(row)));
            assert(says(row, row_thread(row)));
            assert forall|i: int| 0 <= i < rows.len() implies (#[trigger] rows[i]) is Ok
                && takeable(rows[i]->Ok_0) && threads.contains_key(rows[i]->Ok_0.id->Ok_0) && says(
                rows[i]->Ok_0,
                threads[rows[i]->Ok_0.id->Ok_0],
            ) by {
                if i < last {
                    assert(head[i] == rows[i]);
                    assert(before.contains_key(rows[i]->Ok_0.id->Ok_0));
                }
            }
            assert forall|i: int, k: int| 0 <= i < k < rows.len() implies (
            #[trigger] rows[i])->Ok_0.id != (#[trigger] rows[k])->Ok_0.id by {
                assert(head[i] == rows[i]);
                if k < last {
                    assert(head[k] == rows[k]);
                } else {
                    assert(before.contains_key(rows[i]->Ok_0.id->Ok_0));
                }
            }
            assert forall|id: Seq<char>| #[trigger] threads.contains_key(id) implies exists|i: int|
                0 <= i < rows.len() && (#[trigger] rows[i])->Ok_0.id->Ok_0 == id by {
                if id == row.id->Ok_0 {
                    assert(rows[last]->Ok_0.id->Ok_0 == id);
                } else {
                    assert(before.contains_key(id));
                    let i = choose|i: int|
                        0 <= i < head.len() && (#[trigger] head[i])->Ok_0.id->Ok_0 == id;
                    assert(rows[i]->Ok_0.id->Ok_0 == id);
                }
            }
        } else if (forall|i: int|
            0 <= i < rows.len() ==> (#[trigger] rows[i]) is Ok && takeable(rows[i]->Ok_0)) && (
        forall|i: int, k: int|
            0 <= i < k < rows.len() ==> (#[trigger] rows[i])->Ok_0.id != (
            #[trigger] rows[k])->Ok_0.id) {
            assert(rows[last] is Ok && takeable(rows[last]->Ok_0));
            assert forall|i: int| 0 <= i < head.len() implies (#[trigger] head[i]) is Ok
                && takeable(head[i]->Ok_0) by {
                assert(rows[i] is Ok);
            }
            assert forall|i: int, k: int| 0 <= i < k < head.len() implies (
            #[trigger] head[i])->Ok_0.id != (#[trigger] head[k])->Ok_0.id by {
                assert(rows[i]->Ok_0.id != rows[k]->Ok_0.id);
            }
            let before = threads_of(head)->Ok_0;
            let id = rows[last]->Ok_0.id->Ok_0;
            if before.contains_key(id) {
                let i = choose|i: int|
                    0 <= i < head.len() && (#[trigger] head[i])->Ok_0.id->Ok_0 == id;
                assert(head[i] == rows[i]);
                assert(rows[i] is Ok && takeable(rows[i]->Ok_0));
                assert(rows[i]->Ok_0.id != rows[last]->Ok_0.id);
            }
        }
    }
}

/// A row of the table of edges can be read.
pub open spec fn legible(edge: Result<EdgeRowView, Seq<char>>) -> bool {
    edge matches Ok(row) && row.parent is Ok && row.child is Ok && row.status is Ok
}

pub open spec fn parent_in(edge: Result<EdgeRowView, Seq<char>>) -> Seq<char> {
    edge->Ok_0.parent->Ok_0
}

pub open spec fn child_in(edge: Result<EdgeRowView, Seq<char>>) -> Seq<char> {
    edge->Ok_0.child->Ok_0
}

/// How many there are, as far as a machine can count.
pub open spec fn tallied(n: nat) -> int {
    if n <= usize::MAX {
        n as int
    } else {
        usize::MAX as int
    }
}

/// The rows whose child is not a thread.
pub open spec fn childless(
    threads: Map<Seq<char>, CatalogThreadView>,
    edges: Seq<Result<EdgeRowView, Seq<char>>>,
) -> Seq<Result<EdgeRowView, Seq<char>>> {
    edges.filter(|e: Result<EdgeRowView, Seq<char>>| !threads.contains_key(child_in(e)))
}

/// The rows whose child is a thread and whose parent is not.
pub open spec fn parentless(
    threads: Map<Seq<char>, CatalogThreadView>,
    edges: Seq<Result<EdgeRowView, Seq<char>>>,
) -> Seq<Result<EdgeRowView, Seq<char>>> {
    edges.filter(
        |e: Result<EdgeRowView, Seq<char>>|
            threads.contains_key(child_in(e)) && !threads.contains_key(parent_in(e)),
    )
}

/// Both ends of the edge are threads.
pub open spec fn resolved(
    threads: Map<Seq<char>, CatalogThreadView>,
    edge: Result<EdgeRowView, Seq<char>>,
) -> bool {
    threads.contains_key(child_in(edge)) && threads.contains_key(parent_in(edge))
}

/// The edges leave over exactly the rows whose child is not a thread, in their
/// order and with what they say, and count them; they count the rows whose
/// child is a thread and whose parent is not; no thread comes or goes, and of
/// a thread only its parent can change, to the one that a row with both ends
/// among the threads gives it.
pub proof fn law_stale_edges_lack_their_child(
    threads: Map<Seq<char>, CatalogThreadView>,
    edges: Seq<Result<EdgeRowView, Seq<char>>>,
)
    requires
        catalog_of(threads, edges) is Ok,
    ensures
        ({
            let catalog = catalog_of(threads, edges)->Ok_0;
            &&& forall|i: int| 0 <= i < edges.len() ==> legible(#[trigger] edges[i])
            &&& catalog.stale_edges == childless(threads, edges).map_values(
                |e: Result<EdgeRowView, Seq<char>>|
                    StaleSpawnEdgeView {
                        parent: parent_in(e),
                        child: child_in(e),
                        status: e->Ok_0.status->Ok_0,
                    },
            )
            &&& catalog.ignored_orphan_edges == tallied(childless(threads, edges).len())
            &&& catalog.unresolved_child_edges == tallied(parentless(threads, edges).len())
            &&& catalog.threads.dom() == threads.dom()
            &&& forall|id: Seq<char>| #[trigger]
                threads.contains_key(id) ==> catalog.threads[id] == (CatalogThreadView {
                    parent_id: catalog.threads[id].parent_id,
                    ..threads[id]
                })
            &&& forall|id: Seq<char>| #[trigger]
                threads.contains_key(id) && catalog.threads[id].parent_id != threads[id].parent_id
                    ==> exists|i: int|
                    0 <= i < edges.len() && resolved(threads, #[trigger] edges[i]) && child_in(
                        edges[i],
                    ) == id
            &&& forall|i: int|
                0 <= i < edges.len() && resolved(threads, #[trigger] edges[i])
                    ==> catalog.threads[child_in(edges[i])].parent_id == Some(parent_in(edges[i]))
            &&& forall|id: Seq<char>| #[trigger]
                threads.contains_key(id) && threads[id].parent_id is Some
                    ==> catalog.threads[id].parent_id == threads[id].parent_id
        }),
    decreases edges.len(),
{
    reveal(Seq::filter);
    let to_stale = |e: Result<EdgeRowView, Seq<char>>|
        StaleSpawnEdgeView {
            parent: parent_in(e),
            child: child_in(e),
            status: e->Ok_0.status->Ok_0,
        };
    let catalog = catalog_of(threads, edges)->Ok_0;
    if edges.len() == 0 {
        assert(catalog.stale_edges =~= childless(threads, edges).map_values(to_stale));
    } else {
        let head = edges.drop_last();
        let last = edges.len() - 1;
        law_stale_edges_lack_their_child(threads, head);
        let before = catalog_of(threads, head)->Ok_0;
        let edge = edges[last];
        let (parent, child) = (parent_in(edge), child_in(edge));
        assert(legible(edge));
        assert forall|i: int| 0 <= i < last implies #[trigger] head[i] == edges[i] by {}
        assert forall|i: int| 0 <= i < edges.len() implies legible(#[trigger] edges[i]) by {
            if i < last {
                assert(legible(head[i]));
            }
        }
        assert(before.threads.contains_key(child) == threads.contains_key(child)) by {
            assert(before.threads.dom().contains(child) == threads.dom().contains(child));
        }
        assert(before.threads.contains_key(parent) == threads.contains_key(parent)) by {
            assert(before.threads.dom().contains(parent) == threads.dom().contains(parent));
        }
        if !threads.contains_key(child) {
            assert(childless(threads, edges) == childless(threads, head).push(edge));
            assert(parentless(threads, edges) == parentless(threads, head));
            assert(catalog.stale_edges =~= childless(threads, edges).map_values(to_stale));
        } else {
            assert(childless(threads, edges) == childless(threads, head));
            if !threads.contains_key(parent) {
                assert(parentless(threads, edges) == parentless(threads, head).push(edge));
            } else {
                assert(parentless(threads, edges) == parentless(threads, head));
                assert(resolved(threads, edges[last]) && child_in(edges[last]) == child);
            }
        }
        assert(catalog.threads.dom() =~= threads.dom());
        assert forall|id: Seq<char>| #[trigger]
            threads.contains_key(id) && catalog.threads[id].parent_id
                != threads[id].parent_id implies exists|i: int|
            0 <= i < edges.len() && resolved(threads, #[trigger] edges[i]) && child_in(edges[i])
                == id by {
            if before.threads[id].parent_id != threads[id].parent_id {
                let i = choose|i: int|
                    0 <= i < head.len() && resolved(threads, #[trigger] head[i]) && child_in(
                        head[i],
                    ) == id;
                assert(edges[i] == head[i]);
            } else {
                assert(id == child);
                assert(resolved(threads, edges[last]) && child_in(edges[last]) == id);
            }
        }
        assert forall|i: int| 0 <= i < edges.len() && resolved(threads, #[trigger] edges[i]) implies
            catalog.threads[child_in(edges[i])].parent_id == Some(parent_in(edges[i])) by {
            if i < last {
                assert(head[i] == edges[i]);
                assert(before.threads[child_in(edges[i])].parent_id == Some(parent_in(edges[i])));
            }
        }
    }
}

/// The edges can be attached exactly where every row can be read and no thread
/// would get two parents: neither two from the rows, nor one from a row and
/// another from its source.
pub proof fn law_contradicting_parents_are_refused(
    threads: Map<Seq<char>, CatalogThreadView>,
    edges: Seq<Result<EdgeRowView, Seq<char>>>,
)
    ensures
        catalog_of(threads, edges) is Ok <==> {
            &&& forall|i: int| 0 <= i < edges.len() ==> legible(#[trigger] edges[i])
            &&& forall|i: int|
                0 <= i < edges.len() && resolved(threads, #[trigger] edges[i]) ==> (
                threads[child_in(edges[i])].parent_id matches Some(known) ==> known == parent_in(
                    edges[i],
                ))
            &&& forall|i: int, k: int|
                0 <= i < k < edges.len() && resolved(threads, #[trigger] edges[i]) && resolved(
                    threads,
                    #[trigger] edges[k],
                ) && child_in(edges[i]) == child_in(edges[k]) ==> parent_in(edges[i])
                    == parent_in(edges[k])
        },
    decreases edges.len(),
{
    if catalog_of(threads, edges) is Ok {
        law_stale_edges_lack_their_child(threads, edges);
        let catalog = catalog_of(threads, edges)->Ok_0;
        assert forall|i: int|
            0 <= i < edges.len() && resolved(threads, #[trigger] edges[i]) implies (threads[child_in(
            edges[i],
        )].parent_id matches Some(known) ==> known == parent_in(edges[i])) by {
            assert(threads.contains_key(child_in(edges[i])));
        }
    } else if edges.len() > 0 && (forall|i: int|
        0 <= i < edges.len() ==> legible(#[trigger] edges[i])) && (forall|i: int|
        0 <= i < edges.len() && resolved(threads, #[trigger] edges[i]) ==> (threads[child_in(
            edges[i],
        )].parent_id matches Some(known) ==> known == parent_in(edges[i]))) && (forall|
        i: int,
        k: int,
    |
        0 <= i < k < edges.len() && resolved(threads, #[trigger] edges[i]) && resolved(
            threads,
            #[trigger] edges[k],
        ) && child_in(edges[i]) == child_in(edges[k]) ==> parent_in(edges[i]) == parent_in(
            edges[k],
        )) {
        let head = edges.drop_last();
        let last = edges.len() - 1;
        assert forall|i: int| 0 <= i < last implies #[trigger] head[i] == edges[i] by {}
        law_contradicting_parents_are_refused(threads, head);
        law_stale_edges_lack_their_child(threads, head);
        let before = catalog_of(threads, head)->Ok_0;
        let edge = edges[last];
        let (parent, child) = (parent_in(edge), child_in(edge));
        assert(legible(edge));
        assert(before.threads.contains_key(child) == threads.contains_key(child)) by {
            assert(before.threads.dom().contains(child) == threads.dom().contains(child));
        }
        assert(before.threads.contains_key(parent) == threads.contains_key(parent)) by {
            assert(before.threads.dom().contains(parent) == threads.dom().contains(parent));
        }
        if resolved(threads, edge) {
            if before.threads[child].parent_id != threads[child].parent_id {
                let i = choose|i: int|
                    0 <= i < head.len() && resolved(threads, #[trigger] head[i]) && child_in(
                        head[i],
                    ) == child;
                assert(edges[i] == head[i]);
                assert(before.threads[child].parent_id == Some(parent_in(edges[i])));
                assert(parent_in(edges[i]) == parent_in(edges[last]));
            }
        }
    }
}

} // verus!
