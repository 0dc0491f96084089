//! What the signature of a tree tells apart.

use crate::domain::{status_signature, SessionNodeView};
use crate::filter::or_empty;
use crate::ordered::{
    law_sorted_permutation, lemma_map_permuted, lemma_sorted_contains, lemma_sorted_same,
    sorted_by, weak_order,
};
use crate::path::{lemma_split_joined, split_by};
use crate::text::{
    digit_value, joined, law_decimal_round_trip, law_signed_decimal_round_trip,
    lemma_text_lt_order, one, signed_decimal, text_lt,
};
use crate::tree::{by_text, node_signature, tree_signature};
use vstd::prelude::*;
use vstd::string::*;

verus! {

broadcast use vstd::group_vstd_default;

/// What of a session enters the signature of its tree.
#[verifier::ext_equal]
pub struct SignedData {
    pub id: Seq<char>,
    pub parent: Seq<char>,
    pub archived: bool,
    pub provider: Seq<char>,
    pub model: Seq<char>,
    pub pinned: Option<bool>,
    pub last_activity: Option<i64>,
    pub status: Seq<char>,
}

/// What of a session enters the signature of its tree. Its title, project,
/// directory, size and source do not.
pub open spec fn signed_data(node: SessionNodeView) -> SignedData {
    SignedData {
        id: node.id,
        parent: or_empty(node.parent_id),
        archived: node.archived,
        provider: or_empty(node.provider),
        model: or_empty(node.model),
        pinned: node.pinned,
        last_activity: node.last_activity,
        status: status_signature(node.status),
    }
}

/// A text without the marks that stand between the fields and the sessions.
pub open spec fn unmarked(text: Seq<char>) -> bool {
    !text.contains('|') && !text.contains(';')
}

/// No text of a session holds such a mark.
pub open spec fn unmarked_data(data: SignedData) -> bool {
    unmarked(data.id) && unmarked(data.parent) && unmarked(data.provider) && unmarked(data.model)
        && unmarked(data.status)
}

spec fn written_bool(value: bool) -> Seq<char> {
    if value {
        "true"@
    } else {
        "false"@
    }
}

spec fn written_pin(value: Option<bool>) -> Seq<char> {
    match value {
        Some(true) => "true"@,
        Some(false) => "false"@,
        None => "unknown"@,
    }
}

spec fn written_second(value: Option<i64>) -> Seq<char> {
    match value {
        Some(last) => signed_decimal(last as int),
        None => "unknown"@,
    }
}

spec fn fields(data: SignedData) -> Seq<Seq<char>> {
    seq![
        data.id,
        data.parent,
        written_bool(data.archived),
        data.provider,
        data.model,
        written_pin(data.pinned),
        written_second(data.last_activity),
        data.status,
    ]
}

spec fn written(data: SignedData) -> Seq<char> {
    joined(fields(data), one('|'))
}

proof fn lemma_joined_take(parts: Seq<Seq<char>>, sep: Seq<char>, k: int)
    requires
        0 < k < parts.len(),
    ensures
        joined(parts.take(k + 1), sep) == joined(parts.take(k), sep) + sep + parts[k],
{
    assert(parts.take(k + 1).drop_last() =~= parts.take(k));
}

proof fn lemma_written(node: SessionNodeView)
    ensures
        node_signature(node) == written(signed_data(node)),
{
    reveal_strlit("|");
    assert("|"@ =~= one('|'));
    let f = fields(signed_data(node));
    let sep = one('|');
    assert(f.take(1) =~= seq![f[0]]);
    lemma_joined_take(f, sep, 1);
    lemma_joined_take(f, sep, 2);
    lemma_joined_take(f, sep, 3);
    lemma_joined_take(f, sep, 4);
    lemma_joined_take(f, sep, 5);
    lemma_joined_take(f, sep, 6);
    lemma_joined_take(f, sep, 7);
    assert(f.take(8) =~= f);
}

proof fn lemma_numbers_unmarked(n: i64)
    ensures
        unmarked(signed_decimal(n as int)),
        signed_decimal(n as int) != "unknown"@,
{
    reveal_strlit("unknown");
    let text = signed_decimal(n as int);
    let digits = if n < 0 {
        -(n as int)
    } else {
        n as int
    };
    law_decimal_round_trip(digits);
    let d = crate::text::decimal(digits);
    assert forall|i: int| 0 <= i < text.len() implies text[i] != '|' && text[i] != ';' && text[i]
        != 'u' by {
        if n < 0 {
            if i > 0 {
                assert(text[i] == d[i - 1]);
                assert(digit_value(d[i - 1]) < 10);
            }
        } else {
            assert(text[i] == d[i]);
            assert(digit_value(d[i]) < 10);
        }
    }
    if text == "unknown"@ {
        assert(text[0] == 'u');
    }
}

proof fn lemma_fields_unmarked(data: SignedData)
    requires
        unmarked_data(data),
    ensures
        forall|i: int| 0 <= i < 8 ==> unmarked(#[trigger] fields(data)[i]),
{
    reveal_strlit("true");
    reveal_strlit("false");
    reveal_strlit("unknown");
    assert(unmarked("true"@));
    assert(unmarked("false"@));
    assert(unmarked("unknown"@));
    if let Some(last) = data.last_activity {
        lemma_numbers_unmarked(last);
    }
    let f = fields(data);
    assert(unmarked(f[0]) && unmarked(f[1]) && unmarked(f[2]) && unmarked(f[3]));
    assert(unmarked(f[4]) && unmarked(f[5]) && unmarked(f[6]) && unmarked(f[7]));
}

proof fn lemma_joined_without(parts: Seq<Seq<char>>, sep: Seq<char>, c: char)
    requires
        !sep.contains(c),
        forall|i: int| 0 <= i < parts.len() ==> !(#[trigger] parts[i]).contains(c),
    ensures
        !joined(parts, sep).contains(c),
    decreases parts.len(),
{
    if parts.len() > 1 {
        let head = parts.drop_last();
        assert forall|i: int| 0 <= i < head.len() implies !(#[trigger] head[i]).contains(c) by {
            assert(head[i] == parts[i]);
        }
        lemma_joined_without(head, sep, c);
        let before = joined(head, sep);
        let whole = joined(parts, sep);
        assert(!parts[parts.len() - 1].contains(c));
        if whole.contains(c) {
            let k = whole.index_of(c);
            if k < before.len() {
                assert(before[k] == c);
            } else if k < before.len() + sep.len() {
                assert(sep[k - before.len()] == c);
            } else {
                assert(parts.last()[k - before.len() - sep.len()] == c);
            }
        }
    }
}

proof fn lemma_written_unmarked(data: SignedData)
    requires
        unmarked_data(data),
    ensures
        split_by(written(data), '|') == fields(data),
        !written(data).contains(';'),
        written(data).len() > 0,
{
    lemma_fields_unmarked(data);
    let f = fields(data);
    assert forall|i: int| 0 <= i < f.len() implies !(#[trigger] f[i]).contains('|')
        && !f[i].contains(';') by {
        assert(unmarked(f[i]));
    }
    lemma_split_joined(f, '|');
    lemma_joined_without(f, one('|'), ';');
    if written(data).len() == 0 {
        assert(split_by(written(data), '|').len() == 1);
    }
}

/// Different data is written differently.
proof fn lemma_written_apart(a: SignedData, b: SignedData)
    requires
        unmarked_data(a),
        unmarked_data(b),
        written(a) == written(b),
    ensures
        a == b,
{
    lemma_written_unmarked(a);
    lemma_written_unmarked(b);
    let f = fields(a);
    let g = fields(b);
    assert(f[0] == g[0] && f[1] == g[1] && f[2] == g[2] && f[3] == g[3]);
    assert(f[4] == g[4] && f[5] == g[5] && f[6] == g[6] && f[7] == g[7]);
    reveal_strlit("true");
    reveal_strlit("false");
    reveal_strlit("unknown");
    assert("true"@.len() == 4 && "false"@.len() == 5 && "unknown"@.len() == 7);
    assert(a.archived == b.archived);
    assert(a.pinned == b.pinned);
    match (a.last_activity, b.last_activity) {
        (Some(x), Some(y)) => {
            law_signed_decimal_round_trip(x);
            law_signed_decimal_round_trip(y);
        },
        (Some(x), None) => {
            lemma_numbers_unmarked(x);
        },
        (None, Some(y)) => {
            lemma_numbers_unmarked(y);
        },
        (None, None) => {},
    }
}

proof fn lemma_by_text()
    ensures
        weak_order(by_text()),
        forall|x: Seq<char>, y: Seq<char>|
            x != y ==> #[trigger] by_text()(x, y) || by_text()(y, x),
{
    let lt = by_text();
    assert forall|a: Seq<char>, b: Seq<char>| #[trigger] lt(a, b) implies !lt(b, a) by {
        lemma_text_lt_order(a, b, a);
    }
    assert forall|a: Seq<char>, b: Seq<char>, c: Seq<char>|
        !(#[trigger] lt(b, a)) && !(#[trigger] lt(c, b)) implies !lt(c, a) by {
        lemma_text_lt_order(b, a, c);
        lemma_text_lt_order(c, a, b);
        lemma_text_lt_order(a, b, c);
    }
    assert forall|x: Seq<char>, y: Seq<char>| x != y implies #[trigger] lt(x, y) || lt(y, x) by {
        lemma_text_lt_order(x, y, x);
    }
}

proof fn lemma_lines(nodes: Seq<SessionNodeView>)
    ensures
        nodes.map_values(|n: SessionNodeView| node_signature(n)) == nodes.map_values(
            |n: SessionNodeView| signed_data(n),
        ).map_values(|d: SignedData| written(d)),
{
    let lines = nodes.map_values(|n: SessionNodeView| node_signature(n));
    let again = nodes.map_values(|n: SessionNodeView| signed_data(n)).map_values(
        |d: SignedData| written(d),
    );
    assert forall|i: int| 0 <= i < nodes.len() implies lines[i] == again[i] by {
        lemma_written(nodes[i]);
    }
    assert(lines =~= again);
}

/// What data a line was written from.
spec fn source_of_line(line: Seq<char>) -> SignedData {
    choose|d: SignedData| unmarked_data(d) && #[trigger] written(d) == line
}

proof fn lemma_read_back(nodes: Seq<SessionNodeView>)
    requires
        forall|i: int| 0 <= i < nodes.len() ==> unmarked_data(signed_data(#[trigger] nodes[i])),
    ensures
        nodes.map_values(|n: SessionNodeView| node_signature(n)).map_values(
            |line: Seq<char>| source_of_line(line),
        ) == nodes.map_values(|n: SessionNodeView| signed_data(n)),
{
    let back = nodes.map_values(|n: SessionNodeView| node_signature(n)).map_values(
        |line: Seq<char>| source_of_line(line),
    );
    let data = nodes.map_values(|n: SessionNodeView| signed_data(n));
    assert forall|i: int| 0 <= i < nodes.len() implies back[i] == data[i] by {
        let d = signed_data(nodes[i]);
        lemma_written(nodes[i]);
        assert(unmarked_data(d) && written(d) == node_signature(nodes[i]));
        lemma_written_apart(d, source_of_line(node_signature(nodes[i])));
    }
    assert(back =~= data);
}

proof fn lemma_sorted_lines(nodes: Seq<SessionNodeView>)
    requires
        forall|i: int| 0 <= i < nodes.len() ==> unmarked_data(signed_data(#[trigger] nodes[i])),
    ensures
        ({
            let lines = sorted_by(
                nodes.map_values(|n: SessionNodeView| node_signature(n)),
                by_text(),
            );
            &&& lines.len() == nodes.len()
            &&& forall|i: int|
                0 <= i < lines.len() ==> !(#[trigger] lines[i]).contains(';') && lines[i].len() > 0
        }),
{
    let unsorted = nodes.map_values(|n: SessionNodeView| node_signature(n));
    let lines = sorted_by(unsorted, by_text());
    law_sorted_permutation(unsorted, by_text());
    assert forall|i: int| 0 <= i < lines.len() implies !(#[trigger] lines[i]).contains(';')
        && lines[i].len() > 0 by {
        assert(lines.contains(lines[i]));
        lemma_sorted_contains(unsorted, by_text(), lines[i]);
        let k = unsorted.index_of(lines[i]);
        lemma_written(nodes[k]);
        lemma_written_unmarked(signed_data(nodes[k]));
    }
}

proof fn lemma_joined_some(lines: Seq<Seq<char>>, sep: Seq<char>)
    requires
        lines.len() > 0,
        forall|i: int| 0 <= i < lines.len() ==> (#[trigger] lines[i]).len() > 0,
    ensures
        joined(lines, sep).len() > 0,
{
    assert(lines[0].len() > 0);
    assert(lines[lines.len() - 1].len() > 0);
}

/// Two trees have the same signature exactly where their sessions have the same
/// data, in whatever order and as often, where no text of that data holds `|`
/// or `;`.
pub proof fn law_signature_tells_trees(a: Seq<SessionNodeView>, b: Seq<SessionNodeView>)
    requires
        forall|i: int| 0 <= i < a.len() ==> unmarked_data(signed_data(#[trigger] a[i])),
        forall|i: int| 0 <= i < b.len() ==> unmarked_data(signed_data(#[trigger] b[i])),
    ensures
        tree_signature(a) == tree_signature(b) <==> a.map_values(
            |n: SessionNodeView| signed_data(n),
        ).to_multiset() == b.map_values(|n: SessionNodeView| signed_data(n)).to_multiset(),
{
    let data_a = a.map_values(|n: SessionNodeView| signed_data(n));
    let data_b = b.map_values(|n: SessionNodeView| signed_data(n));
    let lines_a = a.map_values(|n: SessionNodeView| node_signature(n));
    let lines_b = b.map_values(|n: SessionNodeView| node_signature(n));
    let sorted_a = sorted_by(lines_a, by_text());
    let sorted_b = sorted_by(lines_b, by_text());
    reveal_strlit(";");
    assert(";"@ =~= one(';'));
    lemma_by_text();
    if data_a.to_multiset() == data_b.to_multiset() {
        lemma_lines(a);
        lemma_lines(b);
        lemma_map_permuted(data_a, data_b, |d: SignedData| written(d));
        lemma_sorted_same(lines_a, lines_b, by_text());
    }
    if tree_signature(a) == tree_signature(b) {
        lemma_sorted_lines(a);
        lemma_sorted_lines(b);
        if sorted_a.len() > 0 {
            lemma_joined_some(sorted_a, one(';'));
            lemma_split_joined(sorted_a, ';');
        }
        if sorted_b.len() > 0 {
            lemma_joined_some(sorted_b, one(';'));
            lemma_split_joined(sorted_b, ';');
        }
        assert(sorted_a =~= sorted_b);
        law_sorted_permutation(lines_a, by_text());
        law_sorted_permutation(lines_b, by_text());
        lemma_map_permuted(lines_a, lines_b, |line: Seq<char>| source_of_line(line));
        lemma_read_back(a);
        lemma_read_back(b);
    }
}

} // verus!
