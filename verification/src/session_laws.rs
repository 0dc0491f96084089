//! Which sessions begin a tree, which are protected and which an action
//! changes, in terms of the fields of the sessions.

use crate::domain::{
    error_message, language_of, node_protection, Action, Language, ProtectionReasonView,
    RuntimeStatusView, ScanSnapshotView, SessionNodeView, SessionSourceView, SessionTreeView,
    VaultErrorView,
};
use crate::text::{ascii_lower, bytes_lt, same_ignoring_ascii_case, text_lt};
use crate::tree::{
    impacted, is_root, node_reasons, recency, scan_reasons, total_size, tree_of, trees_of,
};
use crate::tree_laws::{law_impacted_members, law_one_tree_per_root};
use vstd::prelude::*;
use vstd::utf8::*;

verus! {

broadcast use vstd::group_vstd_default;

/// Archiving changes exactly the sessions that are not archived; restoring and
/// deleting change exactly those that are; a cleanup changes none.
pub proof fn law_what_an_action_changes(nodes: Seq<SessionNodeView>, id: Seq<char>)
    ensures
        impacted(nodes, Action::Archive).contains(id) <==> exists|i: int|
            0 <= i < nodes.len() && (#[trigger] nodes[i]).id == id && !nodes[i].archived,
        impacted(nodes, Action::Restore).contains(id) <==> exists|i: int|
            0 <= i < nodes.len() && (#[trigger] nodes[i]).id == id && nodes[i].archived,
        impacted(nodes, Action::Delete).contains(id) <==> exists|i: int|
            0 <= i < nodes.len() && (#[trigger] nodes[i]).id == id && nodes[i].archived,
        !impacted(nodes, Action::Cleanup).contains(id),
{
    law_impacted_members(nodes, Action::Archive, id);
    law_impacted_members(nodes, Action::Restore, id);
    law_impacted_members(nodes, Action::Delete, id);
    law_impacted_members(nodes, Action::Cleanup, id);
}

/// A tree begins at exactly those sessions that have no parent and that a
/// person began in a terminal or an editor.
pub proof fn law_where_trees_begin(snapshot: ScanSnapshotView, id: Seq<char>)
    ensures
        (exists|t: SessionTreeView| #[trigger] trees_of(snapshot).contains(t) && t.root_id == id)
            <==> exists|i: int|
            0 <= i < snapshot.nodes.len() && (#[trigger] snapshot.nodes[i]).id == id
                && snapshot.nodes[i].parent_id is None && (snapshot.nodes[i].source
                == SessionSourceView::Cli || snapshot.nodes[i].source == SessionSourceView::Vscode),
{
    law_one_tree_per_root(snapshot);
    if exists|t: SessionTreeView| #[trigger] trees_of(snapshot).contains(t) && t.root_id == id {
        let t = choose|t: SessionTreeView| #[trigger]
            trees_of(snapshot).contains(t) && t.root_id == id;
        let root = choose|root: SessionNodeView|
            snapshot.nodes.contains(root) && is_root(root) && t == #[trigger] tree_of(
                snapshot,
                root,
            );
        let i = snapshot.nodes.index_of(root);
        assert(snapshot.nodes[i] == root);
        assert(root.id == id);
    }
    if exists|i: int|
        0 <= i < snapshot.nodes.len() && (#[trigger] snapshot.nodes[i]).id == id
            && snapshot.nodes[i].parent_id is None && (snapshot.nodes[i].source
            == SessionSourceView::Cli || snapshot.nodes[i].source == SessionSourceView::Vscode) {
        let i = choose|i: int|
            0 <= i < snapshot.nodes.len() && (#[trigger] snapshot.nodes[i]).id == id
                && snapshot.nodes[i].parent_id is None && (snapshot.nodes[i].source
                == SessionSourceView::Cli || snapshot.nodes[i].source == SessionSourceView::Vscode);
        let root = snapshot.nodes[i];
        assert(snapshot.nodes.contains(root));
        assert(trees_of(snapshot).contains(tree_of(snapshot, root)));
    }
}

/// The trees come with the latest activity first, and those without any
/// activity come last.
pub proof fn law_latest_trees_come_first(snapshot: ScanSnapshotView, i: int, j: int)
    requires
        0 <= i < j < trees_of(snapshot).len(),
    ensures
        ({
            let (sooner, later) = (
                trees_of(snapshot)[i].last_activity,
                trees_of(snapshot)[j].last_activity,
            );
            &&& sooner is Some && later is Some ==> sooner->0 >= later->0
            &&& sooner is None && later is Some ==> later->0 == i64::MIN
        }),
{
    law_one_tree_per_root(snapshot);
    assert(recency(trees_of(snapshot)[i]) >= recency(trees_of(snapshot)[j]));
}

/// Why a session is protected: a pin comes first, then an unknown pin, then a
/// source that nothing is known of, then a missing activity; else what runs in
/// it, with a wait for approval before a wait for input, and a status that is
/// not known to be quiet by its name.
pub proof fn law_why_a_session_is_protected(node: SessionNodeView)
    ensures
        ({
            let why = node_protection(node);
            let unknown = node.source is Unknown || node.source is Other;
            &&& why == Some(ProtectionReasonView::Pinned) <==> node.pinned == Some(true)
            &&& why == Some(ProtectionReasonView::PinnedUnknown) <==> node.pinned is None
            &&& why == Some(ProtectionReasonView::UnverifiableSource) <==> node.pinned == Some(
                false,
            ) && unknown
            &&& why == Some(ProtectionReasonView::MissingTimestamp) <==> node.pinned == Some(false)
                && !unknown && node.last_activity is None
            &&& node.pinned == Some(false) && !unknown && node.last_activity is Some ==> {
                &&& why is None <==> node.status == RuntimeStatusView::NotLoaded || node.status
                    == RuntimeStatusView::Idle
                &&& node.status matches RuntimeStatusView::Active(flags) ==> {
                    let approval = flags.contains("waitingOnApproval"@);
                    let input = flags.contains("waitingOnUserInput"@);
                    &&& why == Some(ProtectionReasonView::WaitingApproval) <==> approval
                    &&& why == Some(ProtectionReasonView::WaitingInput) <==> !approval && input
                    &&& why == Some(ProtectionReasonView::Running) <==> !approval && !input
                }
                &&& node.status matches RuntimeStatusView::Unknown(name) ==> why == Some(
                    ProtectionReasonView::UnsafeStatus(name),
                )
                &&& node.status == RuntimeStatusView::SystemError ==> why == Some(
                    ProtectionReasonView::UnsafeStatus("systemError"@),
                )
            }
        }),
{
    if let Some(pinned) = node.pinned {
        assert(pinned == true || pinned == false);
    }
}

proof fn lemma_reasons(nodes: Seq<SessionNodeView>, reason: ProtectionReasonView)
    ensures
        node_reasons(nodes).contains(reason) <==> exists|i: int|
            0 <= i < nodes.len() && node_protection(#[trigger] nodes[i]) == Some(reason),
    decreases nodes.len(),
{
    if nodes.len() > 0 {
        let head = nodes.drop_last();
        let last = nodes.len() - 1;
        lemma_reasons(head, reason);
        let (before, now) = (node_reasons(head), node_reasons(nodes));
        if now.contains(reason) {
            let k = now.index_of(reason);
            if k < before.len() {
                assert(before[k] == reason);
                assert(before.contains(reason));
                let i = choose|i: int|
                    0 <= i < head.len() && node_protection(#[trigger] head[i]) == Some(reason);
                assert(nodes[i] == head[i]);
            } else {
                assert(node_protection(nodes[last]) == Some(reason));
            }
        }
        if exists|i: int|
            0 <= i < nodes.len() && node_protection(#[trigger] nodes[i]) == Some(reason) {
            let i = choose|i: int|
                0 <= i < nodes.len() && node_protection(#[trigger] nodes[i]) == Some(reason);
            if i < last {
                assert(head[i] == nodes[i]);
                assert(before.contains(reason));
                assert(now[before.index_of(reason)] == reason);
            } else {
                assert(now[now.len() - 1] == reason);
            }
        }
    }
}

/// A tree says why it is protected: for every reason that protects one of its
/// sessions, and for a scan that was incomplete or could not write, and for
/// nothing else.
pub proof fn law_a_tree_says_why_it_is_protected(
    snapshot: ScanSnapshotView,
    root: SessionNodeView,
    reason: ProtectionReasonView,
)
    ensures
        tree_of(snapshot, root).protection.contains(reason) <==> {
            ||| exists|i: int|
                0 <= i < tree_of(snapshot, root).nodes.len() && node_protection(
                    #[trigger] tree_of(snapshot, root).nodes[i],
                ) == Some(reason)
            ||| reason == ProtectionReasonView::IncompleteRelations && !snapshot.relation_complete
            ||| reason == ProtectionReasonView::WriteCapabilityMissing && !snapshot.write_capable
        },
{
    let tree = tree_of(snapshot, root);
    lemma_reasons(tree.nodes, reason);
    let (a, b) = (node_reasons(tree.nodes), scan_reasons(snapshot));
    assert(tree.protection == a + b);
    if a.contains(reason) {
        assert(tree.protection[a.index_of(reason)] == reason);
    }
    if b.contains(reason) {
        assert(tree.protection[a.len() + b.index_of(reason)] == reason);
    }
    if tree.protection.contains(reason) {
        let k = tree.protection.index_of(reason);
        if k < a.len() {
            assert(a[k] == reason);
        } else {
            assert(b[k - a.len()] == reason);
        }
    }
    if !snapshot.relation_complete {
        assert(b[0] == ProtectionReasonView::IncompleteRelations);
    }
    if !snapshot.write_capable {
        assert(b[b.len() - 1] == ProtectionReasonView::WriteCapabilityMissing);
    }
}

/// A tree takes as many bytes as the files of its sessions together, where all
/// of them are known and the sum can be written; the size of one tree with
/// another is the sum of theirs.
pub proof fn law_sizes_add_up(
    a: Seq<SessionNodeView>,
    b: Seq<SessionNodeView>,
    node: SessionNodeView,
)
    ensures
        total_size(Seq::empty()) == Some(0int),
        node.rollout_bytes is None ==> total_size(seq![node]) is None,
        node.rollout_bytes matches Some(bytes) ==> total_size(seq![node]) == Some(bytes as int),
        (total_size(a) is None || total_size(b) is None) ==> total_size(a + b) is None,
        total_size(a) is Some && total_size(b) is Some ==> total_size(a + b) == if total_size(
            a,
        )->0 + total_size(b)->0 <= u64::MAX {
            Some(total_size(a)->0 + total_size(b)->0)
        } else {
            None
        },
    decreases b.len(),
{
    reveal_with_fuel(total_size, 2);
    assert(seq![node].drop_last() =~= Seq::empty());
    lemma_size_bounded(a);
    if b.len() == 0 {
        assert(a + b =~= a);
    } else {
        law_sizes_add_up(a, b.drop_last(), node);
        lemma_size_bounded(b.drop_last());
        assert((a + b).drop_last() =~= a + b.drop_last());
        assert((a + b).last() == b.last());
    }
}

proof fn lemma_size_bounded(a: Seq<SessionNodeView>)
    ensures
        total_size(a) matches Some(n) ==> 0 <= n <= u64::MAX,
    decreases a.len(),
{
    if a.len() > 0 {
        lemma_size_bounded(a.drop_last());
    }
}

/// One text comes before another exactly where, at the first byte in which
/// their encodings differ, its byte is the smaller, or where it ends there.
pub proof fn law_order_of_texts(a: Seq<char>, b: Seq<char>)
    ensures
        text_lt(a, b) <==> exists|k: int|
            {
                &&& 0 <= k <= encode_utf8(a).len()
                &&& k < encode_utf8(b).len()
                &&& #[trigger] encode_utf8(a).take(k) == encode_utf8(b).take(k)
                &&& k < encode_utf8(a).len() ==> encode_utf8(a)[k] < encode_utf8(b)[k]
            },
{
    lemma_bytes_order(encode_utf8(a), encode_utf8(b));
}

proof fn lemma_bytes_order(a: Seq<u8>, b: Seq<u8>)
    ensures
        bytes_lt(a, b) <==> exists|k: int|
            {
                &&& 0 <= k <= a.len()
                &&& k < b.len()
                &&& #[trigger] a.take(k) == b.take(k)
                &&& k < a.len() ==> a[k] < b[k]
            },
    decreases a.len(),
{
    if a.len() == 0 || b.len() == 0 || a[0] != b[0] {
        if b.len() > 0 && (a.len() == 0 || a[0] < b[0]) {
            assert(a.take(0) =~= b.take(0));
        }
        if exists|k: int|
            {
                &&& 0 <= k <= a.len()
                &&& k < b.len()
                &&& #[trigger] a.take(k) == b.take(k)
                &&& k < a.len() ==> a[k] < b[k]
            } {
            let k = choose|k: int|
                {
                    &&& 0 <= k <= a.len()
                    &&& k < b.len()
                    &&& #[trigger] a.take(k) == b.take(k)
                    &&& k < a.len() ==> a[k] < b[k]
                };
            if k > 0 {
                assert(a.take(k)[0] == a[0] && b.take(k)[0] == b[0]);
            }
        }
    } else {
        let (x, y) = (a.drop_first(), b.drop_first());
        lemma_bytes_order(x, y);
        if bytes_lt(x, y) {
            let k = choose|k: int|
                {
                    &&& 0 <= k <= x.len()
                    &&& k < y.len()
                    &&& #[trigger] x.take(k) == y.take(k)
                    &&& k < x.len() ==> x[k] < y[k]
                };
            assert(a.take(k + 1) =~= seq![a[0]] + x.take(k));
            assert(b.take(k + 1) =~= seq![b[0]] + y.take(k));
        }
        if exists|k: int|
            {
                &&& 0 <= k <= a.len()
                &&& k < b.len()
                &&& #[trigger] a.take(k) == b.take(k)
                &&& k < a.len() ==> a[k] < b[k]
            } {
            let k = choose|k: int|
                {
                    &&& 0 <= k <= a.len()
                    &&& k < b.len()
                    &&& #[trigger] a.take(k) == b.take(k)
                    &&& k < a.len() ==> a[k] < b[k]
                };
            assert(k > 0);
            assert(x.take(k - 1) =~= a.take(k).drop_first());
            assert(y.take(k - 1) =~= b.take(k).drop_first());
        }
    }
}

proof fn lemma_letters(c: char)
    ensures
        ascii_lower(c) == 101 ==> c == 'e' || c == 'E',
        ascii_lower(c) == 110 ==> c == 'n' || c == 'N',
{
    assert(c as int == c as u32 as int);
}

/// English is chosen by its two letters in either case, and by nothing else.
pub proof fn law_english_by_its_letters(value: Seq<char>)
    ensures
        language_of(value) == Language::En <==> value.len() == 2 && (value[0] == 'e' || value[0]
            == 'E') && (value[1] == 'n' || value[1] == 'N'),
{
    reveal_strlit("en");
    assert("en"@.len() == 2 && "en"@[0] == 'e' && "en"@[1] == 'n');
    assert(ascii_lower('e') == 101 && ascii_lower('E') == 101);
    assert(ascii_lower('n') == 110 && ascii_lower('N') == 110);
    if value.len() == 2 {
        if same_ignoring_ascii_case(value, "en"@) {
            assert(ascii_lower(value[0]) == 101);
            assert(ascii_lower(value[1]) == 110);
            lemma_letters(value[0]);
            lemma_letters(value[1]);
        }
        if (value[0] == 'e' || value[0] == 'E') && (value[1] == 'n' || value[1] == 'N') {
            assert forall|i: int| 0 <= i < value.len() implies ascii_lower(#[trigger] value[i])
                == ascii_lower("en"@[i]) by {
                if i > 0 {
                    assert(i == 1);
                }
            }
        }
    }
}

/// An error is told with what it holds, and errors of different kinds are told
/// differently, whatever they hold.
pub proof fn law_errors_are_told_apart(a: VaultErrorView, b: VaultErrorView)
    ensures
        error_message(a) == error_message(b) ==> a == b,
{
    reveal_strlit("app-server unavailable: ");
    reveal_strlit("app-server protocol error: ");
    reveal_strlit("Codex CLI command failed: ");
    reveal_strlit("local operation record unavailable: ");
    reveal_strlit("operation blocked: ");
    reveal_strlit("preview is stale; rescan and preview again");
    reveal_strlit("confirmation does not match the previewed delete count");
    let (x, y) = (error_message(a), error_message(b));
    if x == y {
        lemma_error_start(a);
        lemma_error_start(b);
        assert(x[0] == y[0] && x[11] == y[11]);
        lemma_error_rest(a);
        lemma_error_rest(b);
    }
}

/// What an error holds.
pub open spec fn held_by(error: VaultErrorView) -> Seq<char> {
    match error {
        VaultErrorView::Unavailable(m) => m,
        VaultErrorView::Protocol(m) => m,
        VaultErrorView::Command(m) => m,
        VaultErrorView::Storage(m) => m,
        VaultErrorView::Blocked(m) => m,
        _ => Seq::empty(),
    }
}

proof fn lemma_error_start(error: VaultErrorView)
    ensures
        error_message(error).len() > 11,
        error_message(error)[0] == match error {
            VaultErrorView::Unavailable(_) => 'a',
            VaultErrorView::Protocol(_) => 'a',
            VaultErrorView::Command(_) => 'C',
            VaultErrorView::Storage(_) => 'l',
            VaultErrorView::Blocked(_) => 'o',
            VaultErrorView::StalePreview => 'p',
            VaultErrorView::ConfirmationMismatch => 'c',
        },
        error is Unavailable ==> error_message(error)[11] == 'u',
        error is Protocol ==> error_message(error)[11] == 'p',
{
    reveal_strlit("app-server unavailable: ");
    reveal_strlit("app-server protocol error: ");
    reveal_strlit("Codex CLI command failed: ");
    reveal_strlit("local operation record unavailable: ");
    reveal_strlit("operation blocked: ");
    reveal_strlit("preview is stale; rescan and preview again");
    reveal_strlit("confirmation does not match the previewed delete count");
}

proof fn lemma_error_rest(error: VaultErrorView)
    ensures
        !(error is StalePreview) && !(error is ConfirmationMismatch) ==> held_by(error)
            == error_message(error).skip(
            match error {
                VaultErrorView::Unavailable(_) => "app-server unavailable: "@,
                VaultErrorView::Protocol(_) => "app-server protocol error: "@,
                VaultErrorView::Command(_) => "Codex CLI command failed: "@,
                VaultErrorView::Storage(_) => "local operation record unavailable: "@,
                _ => "operation blocked: "@,
            }.len() as int,
        ),
{
    match error {
        VaultErrorView::Unavailable(m) => {
            assert(error_message(error).skip("app-server unavailable: "@.len() as int) =~= m);
        },
        VaultErrorView::Protocol(m) => {
            assert(error_message(error).skip("app-server protocol error: "@.len() as int) =~= m);
        },
        VaultErrorView::Command(m) => {
            assert(error_message(error).skip("Codex CLI command failed: "@.len() as int) =~= m);
        },
        VaultErrorView::Storage(m) => {
            assert(error_message(error).skip("local operation record unavailable: "@.len() as int)
                =~= m);
        },
        VaultErrorView::Blocked(m) => {
            assert(error_message(error).skip("operation blocked: "@.len() as int) =~= m);
        },
        _ => {},
    }
}

} // verus!
