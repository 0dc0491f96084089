//! Stable sorting, and sets and maps of texts that are kept in string order.

use crate::text::{less, same, text_lt};
use vstd::prelude::*;

verus! {

broadcast use vstd::group_vstd_default;

/// `x` put into `s` behind the last element that it does not come before.
pub open spec fn inserted<V>(s: Seq<V>, x: V, lt: spec_fn(V, V) -> bool) -> Seq<V>
    decreases s.len(),
{
    if s.len() > 0 && lt(x, s.last()) {
        inserted(s.drop_last(), x, lt).push(s.last())
    } else {
        s.push(x)
    }
}

/// The stable sort of `s`: each element in turn is put behind the earlier ones
/// that it does not come before.
pub open spec fn sorted_by<V>(s: Seq<V>, lt: spec_fn(V, V) -> bool) -> Seq<V>
    decreases s.len(),
{
    if s.len() == 0 {
        s
    } else {
        inserted(sorted_by(s.drop_last(), lt), s.last(), lt)
    }
}

/// No element comes before one that stands ahead of it.
pub open spec fn in_order<V>(s: Seq<V>, lt: spec_fn(V, V) -> bool) -> bool {
    forall|i: int, j: int| 0 <= i < j < s.len() ==> !lt(#[trigger] s[j], #[trigger] s[i])
}

/// A strict weak order.
pub open spec fn weak_order<V>(lt: spec_fn(V, V) -> bool) -> bool {
    &&& forall|a: V, b: V| #[trigger] lt(a, b) ==> !lt(b, a)
    &&& forall|a: V, b: V, c: V|
        !(#[trigger] lt(b, a)) && !(#[trigger] lt(c, b)) ==> !lt(c, a)
}

/// Inserting adds exactly the one element.
pub proof fn lemma_inserted_multiset<V>(s: Seq<V>, x: V, lt: spec_fn(V, V) -> bool)
    ensures
        inserted(s, x, lt).to_multiset() == s.to_multiset().insert(x),
        inserted(s, x, lt).len() == s.len() + 1,
    decreases s.len(),
{
    broadcast use vstd::seq_lib::group_to_multiset_ensures;

    if s.len() > 0 && lt(x, s.last()) {
        lemma_inserted_multiset(s.drop_last(), x, lt);
        assert(s =~= s.drop_last().push(s.last()));
        assert(s.to_multiset() =~= s.drop_last().to_multiset().insert(s.last()));
        assert(inserted(s, x, lt).to_multiset() =~= s.to_multiset().insert(x));
    }
}

/// Sorting keeps every element, as often as it occurs.
pub proof fn law_sorted_permutation<V>(s: Seq<V>, lt: spec_fn(V, V) -> bool)
    ensures
        sorted_by(s, lt).to_multiset() == s.to_multiset(),
        sorted_by(s, lt).len() == s.len(),
    decreases s.len(),
{
    broadcast use vstd::seq_lib::group_to_multiset_ensures;

    if s.len() > 0 {
        law_sorted_permutation(s.drop_last(), lt);
        lemma_inserted_multiset(sorted_by(s.drop_last(), lt), s.last(), lt);
        assert(s =~= s.drop_last().push(s.last()));
        assert(s.to_multiset() =~= s.drop_last().to_multiset().insert(s.last()));
    }
}

/// An element is in the sorted sequence if and only if it is in the sequence.
pub proof fn lemma_sorted_contains<V>(s: Seq<V>, lt: spec_fn(V, V) -> bool, x: V)
    ensures
        sorted_by(s, lt).contains(x) <==> s.contains(x),
{
    broadcast use vstd::seq_lib::group_to_multiset_ensures;

    law_sorted_permutation(s, lt);
    assert(s.contains(x) <==> s.to_multiset().count(x) > 0);
    assert(sorted_by(s, lt).contains(x) <==> sorted_by(s, lt).to_multiset().count(x) > 0);
}

proof fn lemma_inserted_in_order<V>(s: Seq<V>, x: V, lt: spec_fn(V, V) -> bool)
    requires
        weak_order(lt),
        in_order(s, lt),
    ensures
        in_order(inserted(s, x, lt), lt),
        forall|y: V| #[trigger] inserted(s, x, lt).contains(y) ==> y == x || s.contains(y),
    decreases s.len(),
{
    let r = inserted(s, x, lt);
    if s.len() > 0 && lt(x, s.last()) {
        let head = s.drop_last();
        lemma_inserted_in_order(head, x, lt);
        lemma_inserted_multiset(head, x, lt);
        let part = inserted(head, x, lt);
        assert(r =~= part.push(s.last()));
        assert forall|i: int, j: int| 0 <= i < j < r.len() implies !lt(
            #[trigger] r[j],
            #[trigger] r[i],
        ) by {
            if j == part.len() {
                assert(part.contains(part[i]));
                if part[i] == x {
                } else {
                    let k = choose|k: int| 0 <= k < head.len() && head[k] == part[i];
                    assert(s[k] == part[i]);
                    assert(!lt(s[s.len() - 1], s[k]));
                }
            } else {
                assert(!lt(part[j], part[i]));
            }
        }
        assert forall|y: V| #[trigger] r.contains(y) implies y == x || s.contains(y) by {
            let k = choose|k: int| 0 <= k < r.len() && r[k] == y;
            if k < part.len() {
                assert(part.contains(part[k]));
                if y != x {
                    let m = choose|m: int| 0 <= m < head.len() && head[m] == y;
                    assert(s[m] == y);
                }
            } else {
                assert(s[s.len() - 1] == y);
            }
        }
    } else {
        assert forall|i: int, j: int| 0 <= i < j < r.len() implies !lt(
            #[trigger] r[j],
            #[trigger] r[i],
        ) by {
            if j == s.len() {
                if i < s.len() - 1 {
                    assert(!lt(s[s.len() - 1], s[i]));
                    assert(!lt(x, s[s.len() - 1]));
                }
            } else {
                assert(!lt(s[j], s[i]));
            }
        }
        assert forall|y: V| #[trigger] r.contains(y) implies y == x || s.contains(y) by {
            let k = choose|k: int| 0 <= k < r.len() && r[k] == y;
            if k < s.len() {
                assert(s[k] == y);
            }
        }
    }
}

/// Sorting by a strict weak order puts the elements in order.
pub proof fn law_sorted_in_order<V>(s: Seq<V>, lt: spec_fn(V, V) -> bool)
    requires
        weak_order(lt),
    ensures
        in_order(sorted_by(s, lt), lt),
    decreases s.len(),
{
    if s.len() > 0 {
        law_sorted_in_order(s.drop_last(), lt);
        lemma_inserted_in_order(sorted_by(s.drop_last(), lt), s.last(), lt);
    }
}

/// A filter keeps exactly the elements that satisfy its predicate.
pub proof fn lemma_filter_member<V>(s: Seq<V>, keep: spec_fn(V) -> bool, x: V)
    ensures
        s.filter(keep).contains(x) <==> s.contains(x) && keep(x),
    decreases s.len(),
{
    reveal(Seq::filter);
    if s.len() > 0 {
        let head = s.drop_last();
        lemma_filter_member(head, keep, x);
        let f = head.filter(keep);
        if s.contains(x) {
            let k = s.index_of(x);
            if k < head.len() {
                assert(head[k] == x);
            } else if keep(x) {
                assert(f.push(x)[f.len() as int] == x);
            }
        }
        if head.contains(x) {
            let k = head.index_of(x);
            assert(s[k] == x);
            if keep(x) && keep(s.last()) {
                let m = f.index_of(x);
                assert(f.push(s.last())[m] == x);
            }
        }
        if s.filter(keep).contains(x) {
            let k = s.filter(keep).index_of(x);
            if k < f.len() {
                assert(f[k] == x);
            } else {
                assert(s[s.len() - 1] == x);
            }
        }
    }
}

/// What holds of each two elements in their order, holds of each two that a
/// filter keeps.
pub proof fn lemma_filter_pairwise<V>(
    s: Seq<V>,
    keep: spec_fn(V) -> bool,
    rel: spec_fn(V, V) -> bool,
)
    requires
        forall|i: int, j: int| 0 <= i < j < s.len() ==> rel(#[trigger] s[i], #[trigger] s[j]),
    ensures
        forall|i: int, j: int|
            0 <= i < j < s.filter(keep).len() ==> rel(
                #[trigger] s.filter(keep)[i],
                #[trigger] s.filter(keep)[j],
            ),
    decreases s.len(),
{
    reveal(Seq::filter);
    if s.len() > 0 {
        let head = s.drop_last();
        assert forall|i: int, j: int| 0 <= i < j < head.len() implies rel(
            #[trigger] head[i],
            #[trigger] head[j],
        ) by {
            assert(rel(s[i], s[j]));
        }
        lemma_filter_pairwise(head, keep, rel);
        let f = head.filter(keep);
        assert forall|i: int, j: int| 0 <= i < j < s.filter(keep).len() implies rel(
            #[trigger] s.filter(keep)[i],
            #[trigger] s.filter(keep)[j],
        ) by {
            if j < f.len() {
                assert(rel(f[i], f[j]));
            } else {
                assert(f.contains(f[i]));
                lemma_filter_member(head, keep, f[i]);
                let k = head.index_of(f[i]);
                assert(rel(s[k], s[s.len() - 1]));
            }
        }
    }
}

/// Sorting by a strict weak order is stable: what it does not tell from an
/// element stays in its order.
pub proof fn law_sorted_stable<V>(s: Seq<V>, lt: spec_fn(V, V) -> bool, x: V)
    requires
        weak_order(lt),
    ensures
        sorted_by(s, lt).filter(|v: V| !lt(v, x) && !lt(x, v)) == s.filter(
            |v: V| !lt(v, x) && !lt(x, v),
        ),
    decreases s.len(),
{
    reveal(Seq::filter);
    if s.len() > 0 {
        law_sorted_stable(s.drop_last(), lt, x);
        lemma_inserted_filter(sorted_by(s.drop_last(), lt), s.last(), lt, x);
    }
}

proof fn lemma_inserted_filter<V>(s: Seq<V>, e: V, lt: spec_fn(V, V) -> bool, x: V)
    requires
        weak_order(lt),
    ensures
        ({
            let same = |v: V| !lt(v, x) && !lt(x, v);
            inserted(s, e, lt).filter(same) == if same(e) {
                s.filter(same).push(e)
            } else {
                s.filter(same)
            }
        }),
    decreases s.len(),
{
    reveal(Seq::filter);
    let same = |v: V| !lt(v, x) && !lt(x, v);
    if s.len() > 0 && lt(e, s.last()) {
        let head = s.drop_last();
        lemma_inserted_filter(head, e, lt, x);
        let more = inserted(head, e, lt);
        assert(more.push(s.last()).drop_last() =~= more);
        assert(same(e) ==> !same(s.last()));
    } else {
        assert(s.push(e).drop_last() =~= s);
    }
}

/// Sequences of the same elements that an order puts in order are the same,
/// where the order tells any two of the elements apart.
pub proof fn lemma_sorted_unique<V>(a: Seq<V>, b: Seq<V>, lt: spec_fn(V, V) -> bool)
    requires
        in_order(a, lt),
        in_order(b, lt),
        a.to_multiset() == b.to_multiset(),
        forall|x: V, y: V| #[trigger]
            a.contains(x) && #[trigger] a.contains(y) && x != y ==> lt(x, y) || lt(y, x),
    ensures
        a == b,
    decreases a.len(),
{
    broadcast use vstd::seq_lib::group_to_multiset_ensures;

    assert(a.len() == a.to_multiset().len());
    assert(b.len() == b.to_multiset().len());
    if a.len() > 0 {
        let x = a.last();
        let y = b.last();
        assert(a.contains(a[a.len() - 1]));
        assert(b.contains(b[b.len() - 1]));
        assert(a.to_multiset().count(x) > 0);
        assert(b.to_multiset().count(y) > 0);
        assert(b.contains(x));
        assert(a.contains(y));
        if x != y {
            let j = b.index_of(x);
            assert(!lt(b[b.len() - 1], b[j]));
            let i = a.index_of(y);
            assert(!lt(a[a.len() - 1], a[i]));
        }
        let p = a.drop_last();
        let q = b.drop_last();
        assert(a =~= p.push(x));
        assert(b =~= q.push(x));
        assert(p.to_multiset() =~= a.to_multiset().remove(x));
        assert(q.to_multiset() =~= b.to_multiset().remove(x));
        assert forall|u: V, v: V| #[trigger]
            p.contains(u) && #[trigger] p.contains(v) && u != v implies lt(u, v) || lt(v, u) by {
            assert(a[p.index_of(u)] == u);
            assert(a[p.index_of(v)] == v);
            assert(a.contains(u) && a.contains(v));
        }
        assert(in_order(p, lt)) by {
            assert forall|i: int, j: int| 0 <= i < j < p.len() implies !lt(
                #[trigger] p[j],
                #[trigger] p[i],
            ) by {
                assert(!lt(a[j], a[i]));
            }
        }
        assert(in_order(q, lt)) by {
            assert forall|i: int, j: int| 0 <= i < j < q.len() implies !lt(
                #[trigger] q[j],
                #[trigger] q[i],
            ) by {
                assert(!lt(b[j], b[i]));
            }
        }
        lemma_sorted_unique(p, q, lt);
    }
}

/// What a permutation is sorted to is the same, where the order tells any two
/// elements apart.
pub proof fn lemma_sorted_same<V>(a: Seq<V>, b: Seq<V>, lt: spec_fn(V, V) -> bool)
    requires
        weak_order(lt),
        a.to_multiset() == b.to_multiset(),
        forall|x: V, y: V| #[trigger]
            a.contains(x) && #[trigger] a.contains(y) && x != y ==> lt(x, y) || lt(y, x),
    ensures
        sorted_by(a, lt) == sorted_by(b, lt),
{
    law_sorted_permutation(a, lt);
    law_sorted_permutation(b, lt);
    law_sorted_in_order(a, lt);
    law_sorted_in_order(b, lt);
    assert forall|x: V, y: V| #[trigger]
        sorted_by(a, lt).contains(x) && #[trigger] sorted_by(a, lt).contains(y) && x
            != y implies lt(x, y) || lt(y, x) by {
        lemma_sorted_contains(a, lt, x);
        lemma_sorted_contains(a, lt, y);
    }
    lemma_sorted_unique(sorted_by(a, lt), sorted_by(b, lt), lt);
}

/// What a filter keeps of a permutation is a permutation.
pub proof fn lemma_filter_permuted<V>(a: Seq<V>, b: Seq<V>, keep: spec_fn(V) -> bool)
    requires
        a.to_multiset() == b.to_multiset(),
    ensures
        a.filter(keep).to_multiset() == b.filter(keep).to_multiset(),
{
    let p = a.filter(keep).to_multiset();
    let q = b.filter(keep).to_multiset();
    assert forall|x: V| p.count(x) == q.count(x) by {
        lemma_filter_count(a, keep, x);
        lemma_filter_count(b, keep, x);
    }
    assert(p =~= q);
}

proof fn lemma_filter_count<V>(s: Seq<V>, keep: spec_fn(V) -> bool, x: V)
    ensures
        s.filter(keep).to_multiset().count(x) == if keep(x) {
            s.to_multiset().count(x)
        } else {
            0
        },
    decreases s.len(),
{
    broadcast use vstd::seq_lib::group_to_multiset_ensures;

    reveal(Seq::filter);
    if s.len() > 0 {
        let head = s.drop_last();
        lemma_filter_count(head, keep, x);
        assert(s =~= head.push(s.last()));
        assert(s.to_multiset() == head.to_multiset().insert(s.last()));
        if keep(s.last()) {
            assert(s.filter(keep) == head.filter(keep).push(s.last()));
            assert(s.filter(keep).to_multiset() == head.filter(keep).to_multiset().insert(
                s.last(),
            ));
        }
    } else {
        assert(s.filter(keep) =~= s);
        assert(!s.contains(x));
        assert(s.to_multiset().count(x) == 0);
    }
}

/// What a permutation is mapped to is a permutation.
pub proof fn lemma_map_permuted<V, W>(a: Seq<V>, b: Seq<V>, f: spec_fn(V) -> W)
    requires
        a.to_multiset() == b.to_multiset(),
    ensures
        a.map_values(f).to_multiset() == b.map_values(f).to_multiset(),
    decreases a.len(),
{
    broadcast use vstd::seq_lib::group_to_multiset_ensures;

    assert(a.len() == a.to_multiset().len());
    assert(b.len() == b.to_multiset().len());
    if a.len() > 0 {
        let x = a.last();
        assert(a.contains(a[a.len() - 1]));
        assert(a.to_multiset().count(x) > 0);
        assert(b.contains(x));
        let k = b.index_of(x);
        let p = a.drop_last();
        let q = b.remove(k);
        assert(a =~= p.push(x));
        assert(p.to_multiset() =~= a.to_multiset().remove(x));
        assert(q.to_multiset() =~= b.to_multiset().remove(x));
        lemma_map_permuted(p, q, f);
        assert(a.map_values(f) =~= p.map_values(f).push(f(x)));
        let whole = b.map_values(f);
        assert(whole.remove(k) =~= q.map_values(f));
        assert(whole.contains(whole[k]));
        assert(whole.to_multiset() =~= whole.remove(k).to_multiset().insert(f(x)));
    } else {
        assert(a.map_values(f) =~= b.map_values(f));
    }
}

/// A filter keeps the reverse of what it keeps of the reverse.
pub proof fn lemma_filter_reversed<V>(s: Seq<V>, keep: spec_fn(V) -> bool)
    ensures
        s.reverse().filter(keep) == s.filter(keep).reverse(),
    decreases s.len(),
{
    reveal_with_fuel(Seq::filter, 2);
    if s.len() == 0 {
        assert(s.reverse() =~= s);
        assert(s.filter(keep) =~= s.filter(keep).reverse());
    } else {
        let head = s.drop_last();
        let last = seq![s.last()];
        lemma_filter_reversed(head, keep);
        assert(s.reverse() =~= last + head.reverse());
        Seq::filter_distributes_over_add(last, head.reverse(), keep);
        assert(last.drop_last() =~= Seq::empty());
        if keep(s.last()) {
            assert(last.filter(keep) =~= last);
            assert(s.filter(keep).reverse() =~= last + head.filter(keep).reverse());
        } else {
            assert(last.filter(keep) =~= Seq::empty());
            assert(last.filter(keep) + head.reverse().filter(keep) =~= head.reverse().filter(
                keep,
            ));
        }
    }
}

/// An order of the values that `T` stands for.
pub trait Order<T: DeepView> {
    spec fn order() -> spec_fn(T::V, T::V) -> bool;

    fn before(a: &T, b: &T) -> (r: bool)
        ensures
            r == Self::order()(a.deep_view(), b.deep_view()),
    ;
}

/// Sorts stably by the order `O`.
pub fn stable_sort<T: DeepView, O: Order<T>>(v: Vec<T>) -> (r: Vec<T>)
    ensures
        r.deep_view() == sorted_by(v.deep_view(), O::order()),
{
    let ghost all = v.deep_view();
    let ghost lt = O::order();
    let mut r: Vec<T> = Vec::new();
    assert(r.deep_view() =~= sorted_by(all.take(0), lt));
    for x in iter: v
        invariant
            lt == O::order(),
            iter.seq().len() == all.len(),
            forall|k: int| 0 <= k < all.len() ==> #[trigger] all[k] == iter.seq()[k].deep_view(),
            r.deep_view() == sorted_by(all.take(iter.index() as int), lt),
    {
        let ghost at = iter.index() as int;
        let ghost done = r.deep_view();
        let ghost xv = x.deep_view();
        proof {
            assert(all.take(at + 1).drop_last() =~= all.take(at));
            assert(all.take(at + 1).last() == all[at]);
            assert(xv == all[at]);
        }
        let mut p: usize = r.len();
        assert(done.take(p as int) =~= done);
        assert(inserted(done, xv, lt) =~= inserted(done.take(p as int), xv, lt) + done.skip(
            p as int,
        ));
        while p > 0 && O::before(&x, &r[p - 1])
            invariant
                lt == O::order(),
                p <= r@.len(),
                done == r.deep_view(),
                xv == x.deep_view(),
                inserted(done, xv, lt) == inserted(done.take(p as int), xv, lt) + done.skip(
                    p as int,
                ),
            decreases p,
        {
            proof {
                let head = done.take(p as int);
                assert(head.last() == done[p - 1]);
                assert(head.drop_last() =~= done.take(p - 1));
                assert(inserted(head, xv, lt) == inserted(head.drop_last(), xv, lt).push(
                    head.last(),
                ));
                assert(inserted(head, xv, lt) + done.skip(p as int) =~= inserted(
                    done.take(p - 1),
                    xv,
                    lt,
                ) + done.skip(p - 1));
            }
            p -= 1;
        }
        proof {
            let head = done.take(p as int);
            if p > 0 {
                assert(head.last() == done[p - 1]);
            }
            assert(inserted(head, xv, lt) == head.push(xv));
        }
        r.insert(p, x);
        assert(r.deep_view() =~= done.take(p as int).push(xv) + done.skip(p as int));
    }
    assert(all.take(all.len() as int) =~= all);
    r
}

/// Each text comes strictly before those behind it.
pub open spec fn ascending(s: Seq<Seq<char>>) -> bool {
    forall|i: int, j: int| 0 <= i < j < s.len() ==> text_lt(#[trigger] s[i], #[trigger] s[j])
}

/// An ascending sequence holds no text twice.
pub proof fn lemma_ascending_distinct(s: Seq<Seq<char>>)
    requires
        ascending(s),
    ensures
        s.no_duplicates(),
{
    assert forall|i: int, j: int| 0 <= i < s.len() && 0 <= j < s.len() && i != j implies s[i]
        != s[j] by {
        crate::text::lemma_text_lt_order(s[i], s[j], s[i]);
        if i < j {
            assert(text_lt(s[i], s[j]));
        } else {
            assert(text_lt(s[j], s[i]));
        }
    }
}

/// Two ascending sequences with the same members are the same.
pub proof fn lemma_ascending_unique(a: Seq<Seq<char>>, b: Seq<Seq<char>>)
    requires
        ascending(a),
        ascending(b),
        a.to_set() == b.to_set(),
    ensures
        a == b,
    decreases a.len(),
{
    assert forall|x: Seq<char>| a.contains(x) <==> b.contains(x) by {
        assert(a.contains(x) <==> a.to_set().contains(x));
        assert(b.contains(x) <==> b.to_set().contains(x));
    }
    if a.len() == 0 {
        if b.len() > 0 {
            assert(b.contains(b[0]));
        }
        assert(a =~= b);
    } else if b.len() == 0 {
        assert(a.contains(a[0]));
    } else {
        let (x, y) = (a.last(), b.last());
        assert(a.contains(x));
        assert(b.contains(y));
        let i = b.index_of(x);
        let j = a.index_of(y);
        assert(b[i] == x && a[j] == y);
        crate::text::lemma_text_lt_order(x, y, x);
        if i < b.len() - 1 {
            assert(text_lt(b[i], b[b.len() - 1]));
        }
        if j < a.len() - 1 {
            assert(text_lt(a[j], a[a.len() - 1]));
        }
        assert(x == y);
        let (u, v) = (a.drop_last(), b.drop_last());
        lemma_ascending_distinct(a);
        lemma_ascending_distinct(b);
        assert forall|z: Seq<char>| u.contains(z) <==> v.contains(z) by {
            if u.contains(z) {
                let k = u.index_of(z);
                assert(a[k] == z);
                assert(a.contains(z));
                let m = b.index_of(z);
                assert(b[m] == z);
                assert(a[a.len() - 1] != z);
                assert(v[m] == z);
            }
            if v.contains(z) {
                let k = v.index_of(z);
                assert(b[k] == z);
                assert(b.contains(z));
                let m = a.index_of(z);
                assert(a[m] == z);
                assert(b[b.len() - 1] != z);
                assert(u[m] == z);
            }
        }
        assert(u.to_set() =~= v.to_set());
        lemma_ascending_unique(u, v);
        assert(a =~= u.push(x));
        assert(b =~= v.push(y));
    }
}

/// The members of a set in string order.
pub open spec fn ordered_texts(s: Set<Seq<char>>) -> Seq<Seq<char>> {
    choose|q: Seq<Seq<char>>| ascending(q) && #[trigger] q.to_set() == s
}

/// The ascending sequence of a set is its members in string order.
pub proof fn lemma_ordered_texts(q: Seq<Seq<char>>)
    requires
        ascending(q),
    ensures
        ordered_texts(q.to_set()) == q,
{
    let c = ordered_texts(q.to_set());
    assert(ascending(q) && q.to_set() == q.to_set());
    assert(ascending(c) && c.to_set() == q.to_set());
    lemma_ascending_unique(c, q);
}

/// Where a text belongs among ascending texts that do not hold it.
proof fn lemma_belongs_at(q: Seq<Seq<char>>, x: Seq<char>) -> (at: int)
    requires
        ascending(q),
        !q.contains(x),
    ensures
        0 <= at <= q.len(),
        forall|k: int| 0 <= k < at ==> text_lt(#[trigger] q[k], x),
        forall|k: int| at <= k < q.len() ==> text_lt(x, #[trigger] q[k]),
    decreases q.len(),
{
    if q.len() == 0 {
        0
    } else {
        let head = q.drop_last();
        let last = q.last();
        assert(q[q.len() - 1] == last);
        crate::text::lemma_text_lt_order(last, x, x);
        if text_lt(last, x) {
            assert forall|k: int| 0 <= k < q.len() implies text_lt(#[trigger] q[k], x) by {
                if k < q.len() - 1 {
                    assert(text_lt(q[k], q[q.len() - 1]));
                    crate::text::lemma_text_lt_order(q[k], last, x);
                }
            }
            q.len() as int
        } else {
            assert(!head.contains(x)) by {
                if head.contains(x) {
                    assert(q[head.index_of(x)] == x);
                }
            }
            let at = lemma_belongs_at(head, x);
            assert forall|k: int| 0 <= k < at implies text_lt(#[trigger] q[k], x) by {
                assert(head[k] == q[k]);
            }
            assert forall|k: int| at <= k < q.len() implies text_lt(x, #[trigger] q[k]) by {
                if k < head.len() {
                    assert(head[k] == q[k]);
                }
            }
            at
        }
    }
}

/// The members of a finite set in string order are its members, in string order.
pub proof fn lemma_ordered_members(s: Set<Seq<char>>)
    requires
        s.finite(),
    ensures
        ascending(ordered_texts(s)),
        ordered_texts(s).to_set() == s,
    decreases s.len(),
{
    if s.len() == 0 {
        assert(s =~= Set::empty());
        let none = Seq::<Seq<char>>::empty();
        assert(none.to_set() =~= s);
        lemma_ordered_texts(none);
    } else {
        let x = s.choose();
        let rest = s.remove(x);
        lemma_ordered_members(rest);
        let q = ordered_texts(rest);
        assert(!q.contains(x)) by {
            if q.contains(x) {
                assert(q.to_set().contains(x));
            }
        }
        let at = lemma_belongs_at(q, x);
        lemma_ascending_insert(q, at, x);
        assert(rest.insert(x) =~= s);
        lemma_ordered_texts(q.insert(at, x));
    }
}

/// Finds where `key` stands among ascending texts, or where it belongs.
fn locate(items: &Vec<String>, key: &str) -> (r: (usize, bool))
    requires
        ascending(items.deep_view()),
    ensures
        r.0 <= items@.len(),
        r.1 == items.deep_view().contains(key@),
        r.1 ==> r.0 < items@.len() && items@[r.0 as int]@ == key@,
        forall|k: int| 0 <= k < r.0 ==> text_lt(#[trigger] items@[k]@, key@),
        forall|k: int| r.0 <= k < items@.len() && !r.1 ==> text_lt(key@, #[trigger] items@[k]@),
{
    let ghost all = items.deep_view();
    let mut lo: usize = 0;
    let mut hi: usize = items.len();
    while lo < hi
        invariant
            lo <= hi <= items@.len(),
            all == items.deep_view(),
            ascending(all),
            forall|k: int| 0 <= k < lo ==> text_lt(#[trigger] items@[k]@, key@),
            forall|k: int| hi <= k < items@.len() ==> !text_lt(#[trigger] items@[k]@, key@),
        decreases hi - lo,
    {
        let mid: usize = lo + (hi - lo) / 2;
        if less(items[mid].as_str(), key) {
            proof {
                assert forall|k: int| 0 <= k < mid + 1 implies text_lt(
                    #[trigger] items@[k]@,
                    key@,
                ) by {
                    if k < mid {
                        assert(text_lt(all[k], all[mid as int]));
                        crate::text::lemma_text_lt_order(all[k], all[mid as int], key@);
                    }
                }
            }
            lo = mid + 1;
        } else {
            proof {
                assert forall|k: int| mid <= k < items@.len() implies !text_lt(
                    #[trigger] items@[k]@,
                    key@,
                ) by {
                    if k > mid {
                        assert(text_lt(all[mid as int], all[k]));
                        crate::text::lemma_text_lt_order(all[mid as int], all[k], key@);
                    }
                }
            }
            hi = mid;
        }
    }
    let found = lo < items.len() && same(items[lo].as_str(), key);
    proof {
        if found {
            assert(all[lo as int] == key@);
        } else {
            assert forall|k: int| lo <= k < items@.len() implies text_lt(
                key@,
                #[trigger] items@[k]@,
            ) by {
                crate::text::lemma_text_lt_order(all[k], key@, key@);
                if k > lo {
                    assert(text_lt(all[lo as int], all[k]));
                    crate::text::lemma_text_lt_order(key@, all[lo as int], all[k]);
                }
            }
            assert forall|k: int| 0 <= k < all.len() implies all[k] != key@ by {
                crate::text::lemma_text_lt_order(key@, key@, key@);
                if k < lo {
                    assert(text_lt(items@[k]@, key@));
                } else {
                    assert(text_lt(key@, items@[k]@));
                }
            }
        }
    }
    (lo, found)
}

pub proof fn lemma_ascending_insert(s: Seq<Seq<char>>, at: int, x: Seq<char>)
    requires
        ascending(s),
        0 <= at <= s.len(),
        forall|k: int| 0 <= k < at ==> text_lt(#[trigger] s[k], x),
        forall|k: int| at <= k < s.len() ==> text_lt(x, #[trigger] s[k]),
    ensures
        ascending(s.insert(at, x)),
        s.insert(at, x).to_set() == s.to_set().insert(x),
        forall|y: Seq<char>| s.insert(at, x).contains(y) <==> y == x || s.contains(y),
{
    let t = s.insert(at, x);
    assert forall|i: int, j: int| 0 <= i < j < t.len() implies text_lt(
        #[trigger] t[i],
        #[trigger] t[j],
    ) by {
        let a = if i < at {
            s[i]
        } else if i == at {
            x
        } else {
            s[i - 1]
        };
        let b = if j < at {
            s[j]
        } else if j == at {
            x
        } else {
            s[j - 1]
        };
        assert(t[i] == a && t[j] == b);
    }
    assert forall|y: Seq<char>| t.contains(y) <==> y == x || s.contains(y) by {
        if t.contains(y) {
            let k = t.index_of(y);
            if k < at {
                assert(s[k] == y);
            } else if k > at {
                assert(s[k - 1] == y);
            }
        }
        if y == x {
            assert(t[at] == y);
        } else if s.contains(y) {
            let k = s.index_of(y);
            if k < at {
                assert(t[k] == y);
            } else {
                assert(t[k + 1] == y);
            }
        }
    }
    assert(t.to_set() =~= s.to_set().insert(x));
}

proof fn lemma_ascending_remove(s: Seq<Seq<char>>, at: int)
    requires
        ascending(s),
        0 <= at < s.len(),
    ensures
        ascending(s.remove(at)),
        s.remove(at).to_set() == s.to_set().remove(s[at]),
        forall|y: Seq<char>| s.remove(at).contains(y) <==> y != s[at] && s.contains(y),
{
    let t = s.remove(at);
    lemma_ascending_distinct(s);
    assert forall|i: int, j: int| 0 <= i < j < t.len() implies text_lt(
        #[trigger] t[i],
        #[trigger] t[j],
    ) by {
        let a = if i < at {
            i
        } else {
            i + 1
        };
        let b = if j < at {
            j
        } else {
            j + 1
        };
        assert(t[i] == s[a] && t[j] == s[b]);
    }
    assert forall|y: Seq<char>| t.contains(y) <==> y != s[at] && s.contains(y) by {
        if t.contains(y) {
            let k = t.index_of(y);
            let a = if k < at {
                k
            } else {
                k + 1
            };
            assert(s[a] == y);
        }
        if y != s[at] && s.contains(y) {
            let k = s.index_of(y);
            if k < at {
                assert(t[k] == y);
            } else {
                assert(t[k - 1] == y);
            }
        }
    }
    assert(t.to_set() =~= s.to_set().remove(s[at]));
}

/// A set of texts, kept in string order.
#[derive(Debug, PartialEq, Eq)]
pub struct TextSet {
    items: Vec<String>,
}

impl View for TextSet {
    type V = Set<Seq<char>>;

    closed spec fn view(&self) -> Set<Seq<char>> {
        self.items.deep_view().to_set()
    }
}

impl DeepView for TextSet {
    type V = Set<Seq<char>>;

    open spec fn deep_view(&self) -> Set<Seq<char>> {
        self@
    }
}

impl TextSet {
    #[verifier::type_invariant]
    spec fn kept_in_order(&self) -> bool {
        ascending(self.items.deep_view())
    }

    pub fn new() -> (r: Self)
        ensures
            r@ == Set::<Seq<char>>::empty(),
    {
        let r = TextSet { items: Vec::new() };
        assert(r@ =~= Set::<Seq<char>>::empty());
        r
    }

    pub fn contains(&self, key: &str) -> (r: bool)
        ensures
            r == self@.contains(key@),
    {
        proof {
            use_type_invariant(self);
        }
        let (_, found) = locate(&self.items, key);
        found
    }

    /// Puts `key` in and says whether it was missing.
    pub fn insert(&mut self, key: String) -> (r: bool)
        ensures
            final(self)@ == old(self)@.insert(key@),
            r == !old(self)@.contains(key@),
    {
        proof {
            use_type_invariant(&*self);
        }
        let mut items: Vec<String> = Vec::new();
        let ghost before = self.items.deep_view();
        std::mem::swap(&mut items, &mut self.items);
        let (at, found) = locate(&items, key.as_str());
        if !found {
            proof {
                lemma_ascending_insert(before, at as int, key@);
            }
            items.insert(at, key);
            assert(items.deep_view() =~= before.insert(at as int, key@));
        } else {
            assert(before.to_set() =~= before.to_set().insert(key@));
        }
        self.items = items;
        !found
    }

    /// Takes `key` out and says whether it was there.
    pub fn remove(&mut self, key: &str) -> (r: bool)
        ensures
            final(self)@ == old(self)@.remove(key@),
            r == old(self)@.contains(key@),
    {
        proof {
            use_type_invariant(&*self);
        }
        let mut items: Vec<String> = Vec::new();
        let ghost before = self.items.deep_view();
        std::mem::swap(&mut items, &mut self.items);
        let (at, found) = locate(&items, key);
        if found {
            proof {
                lemma_ascending_remove(before, at as int);
            }
            let _ = items.remove(at);
            assert(items.deep_view() =~= before.remove(at as int));
        } else {
            assert(before.to_set() =~= before.to_set().remove(key@));
        }
        self.items = items;
        found
    }

    pub fn len(&self) -> (r: usize)
        ensures
            r == self@.len(),
    {
        proof {
            use_type_invariant(self);
            lemma_ascending_distinct(self.items.deep_view());
            self.items.deep_view().unique_seq_to_set();
        }
        self.items.len()
    }

    pub fn is_empty(&self) -> (r: bool)
        ensures
            r == (self@ == Set::<Seq<char>>::empty()),
    {
        let r = self.items.len() == 0;
        proof {
            let s = self.items.deep_view();
            if r {
                assert(self@ =~= Set::<Seq<char>>::empty());
            } else {
                assert(s.contains(s[0]));
                assert(self@.contains(s[0]));
            }
        }
        r
    }

    /// The members in string order.
    pub fn items(&self) -> (r: &Vec<String>)
        ensures
            ascending(r.deep_view()),
            r.deep_view().to_set() == self@,
            r.deep_view() == ordered_texts(self@),
    {
        proof {
            use_type_invariant(self);
            lemma_ordered_texts(self.items.deep_view());
        }
        &self.items
    }
}

impl Clone for TextSet {
    fn clone(&self) -> (r: Self)
        ensures
            r@ == self@,
    {
        proof {
            use_type_invariant(self);
        }
        let items = crate::text::copy_texts(&self.items);
        TextSet { items }
    }
}

/// A map from texts, kept in the string order of its keys.
#[derive(Debug, PartialEq, Eq)]
pub struct TextMap<T> {
    keys: Vec<String>,
    values: Vec<T>,
}

/// The map that pairs each key with the value at the same place.
pub open spec fn paired<V>(keys: Seq<Seq<char>>, values: Seq<V>) -> Map<Seq<char>, V> {
    Map::new(|k: Seq<char>| keys.contains(k), |k: Seq<char>| values[keys.index_of(k)])
}

impl<T: DeepView> View for TextMap<T> {
    type V = Map<Seq<char>, T::V>;

    closed spec fn view(&self) -> Map<Seq<char>, T::V> {
        paired(self.keys.deep_view(), self.values.deep_view())
    }
}

impl<T: DeepView> DeepView for TextMap<T> {
    type V = Map<Seq<char>, T::V>;

    open spec fn deep_view(&self) -> Map<Seq<char>, T::V> {
        self@
    }
}

proof fn lemma_paired_at<V>(keys: Seq<Seq<char>>, values: Seq<V>, i: int)
    requires
        ascending(keys),
        keys.len() == values.len(),
        0 <= i < keys.len(),
    ensures
        paired(keys, values).contains_key(keys[i]),
        paired(keys, values)[keys[i]] == values[i],
        keys.index_of(keys[i]) == i,
{
    lemma_ascending_distinct(keys);
    assert(keys.contains(keys[i]));
    let k = keys.index_of(keys[i]);
    assert(keys[k] == keys[i]);
}

impl<T> TextMap<T> {
    #[verifier::type_invariant]
    spec fn kept_in_order(&self) -> bool {
        ascending(self.keys.deep_view()) && self.keys@.len() == self.values@.len()
    }
}

impl<T: DeepView> TextMap<T> {
    pub fn new() -> (r: Self)
        ensures
            r@ == Map::<Seq<char>, T::V>::empty(),
    {
        let r = TextMap { keys: Vec::new(), values: Vec::new() };
        assert(r@ =~= Map::<Seq<char>, T::V>::empty());
        r
    }

    pub fn get(&self, key: &str) -> (r: Option<&T>)
        ensures
            match r {
                Some(v) => self@.contains_key(key@) && self@[key@] == v.deep_view(),
                None => !self@.contains_key(key@),
            },
    {
        proof {
            use_type_invariant(self);
        }
        let (at, found) = locate(&self.keys, key);
        if found {
            proof {
                lemma_paired_at(self.keys.deep_view(), self.values.deep_view(), at as int);
            }
            Some(&self.values[at])
        } else {
            None
        }
    }

    /// Sets the value of `key` and gives back the one it replaces.
    pub fn insert(&mut self, key: String, value: T) -> (r: Option<T>)
        ensures
            final(self)@ == old(self)@.insert(key@, value.deep_view()),
            match r {
                Some(v) => old(self)@.contains_key(key@) && old(self)@[key@] == v.deep_view(),
                None => !old(self)@.contains_key(key@),
            },
    {
        proof {
            use_type_invariant(&*self);
        }
        let ghost ks = self.keys.deep_view();
        let ghost vs = self.values.deep_view();
        let ghost kv = key@;
        let ghost vv = value.deep_view();
        let mut taken: TextMap<T> = TextMap { keys: Vec::new(), values: Vec::new() };
        std::mem::swap(&mut taken, self);
        let TextMap { mut keys, mut values } = taken;
        let (at, found) = locate(&keys, key.as_str());
        let mut replaced: Option<T> = None;
        if found {
            proof {
                lemma_paired_at(ks, vs, at as int);
            }
            let earlier = values.remove(at);
            values.insert(at, value);
            replaced = Some(earlier);
            proof {
                let now = values.deep_view();
                assert(now =~= vs.update(at as int, vv));
                assert forall|k: Seq<char>| #[trigger] ks.contains(k) implies paired(ks, now)[k]
                    == paired(ks, vs).insert(kv, vv)[k] by {
                    lemma_paired_at(ks, vs, ks.index_of(k));
                    assert(ks[ks.index_of(k)] == k);
                }
                assert(paired(ks, now) =~= paired(ks, vs).insert(kv, vv));
                assert(keys.deep_view() =~= ks);
            }
        } else {
            proof {
                lemma_ascending_insert(ks, at as int, kv);
            }
            keys.insert(at, key);
            values.insert(at, value);
            proof {
                let nk = ks.insert(at as int, kv);
                let nv = vs.insert(at as int, vv);
                assert(keys.deep_view() =~= nk);
                assert(values.deep_view() =~= nv);
                lemma_paired_at(nk, nv, at as int);
                assert(nk[at as int] == kv);
                assert forall|k: Seq<char>| #[trigger] nk.contains(k) implies paired(nk, nv)[k]
                    == paired(ks, vs).insert(kv, vv)[k] by {
                    if k != kv {
                        let i = ks.index_of(k);
                        assert(ks.contains(k));
                        assert(ks[i] == k);
                        lemma_paired_at(ks, vs, i);
                        let j = if i < at {
                            i
                        } else {
                            i + 1
                        };
                        assert(nk[j] == k && nv[j] == vs[i]);
                        lemma_paired_at(nk, nv, j);
                    }
                }
                assert(paired(nk, nv) =~= paired(ks, vs).insert(kv, vv));
            }
        }
        *self = TextMap { keys, values };
        replaced
    }

    /// Takes the value of `key` out.
    pub fn remove(&mut self, key: &str) -> (r: Option<T>)
        ensures
            final(self)@ == old(self)@.remove(key@),
            match r {
                Some(v) => old(self)@.contains_key(key@) && old(self)@[key@] == v.deep_view(),
                None => !old(self)@.contains_key(key@),
            },
    {
        proof {
            use_type_invariant(&*self);
        }
        let ghost ks = self.keys.deep_view();
        let ghost vs = self.values.deep_view();
        let mut taken: TextMap<T> = TextMap { keys: Vec::new(), values: Vec::new() };
        std::mem::swap(&mut taken, self);
        let TextMap { mut keys, mut values } = taken;
        let (at, found) = locate(&keys, key);
        let mut removed: Option<T> = None;
        if found {
            proof {
                lemma_paired_at(ks, vs, at as int);
                lemma_ascending_remove(ks, at as int);
            }
            let _ = keys.remove(at);
            let value = values.remove(at);
            removed = Some(value);
            proof {
                let nk = ks.remove(at as int);
                let nv = vs.remove(at as int);
                assert(keys.deep_view() =~= nk);
                assert(values.deep_view() =~= nv);
                assert forall|k: Seq<char>| #[trigger] nk.contains(k) implies paired(nk, nv)[k]
                    == paired(ks, vs).remove(key@)[k] by {
                    let i = ks.index_of(k);
                    assert(ks.contains(k));
                    assert(ks[i] == k);
                    lemma_paired_at(ks, vs, i);
                    let j = if i < at {
                        i
                    } else {
                        i - 1
                    };
                    assert(nk[j] == k && nv[j] == vs[i]);
                    lemma_paired_at(nk, nv, j);
                }
                assert(paired(nk, nv) =~= paired(ks, vs).remove(key@));
            }
        } else {
            assert(paired(ks, vs) =~= paired(ks, vs).remove(key@));
        }
        *self = TextMap { keys, values };
        removed
    }

    pub fn len(&self) -> (r: usize)
        ensures
            r == self@.dom().len(),
    {
        proof {
            use_type_invariant(self);
            let ks = self.keys.deep_view();
            lemma_ascending_distinct(ks);
            ks.unique_seq_to_set();
            assert(self@.dom() =~= ks.to_set());
        }
        self.keys.len()
    }

    /// The keys in string order.
    pub fn keys(&self) -> (r: &Vec<String>)
        ensures
            ascending(r.deep_view()),
            r.deep_view().to_set() == self@.dom(),
            r.deep_view() == ordered_texts(self@.dom()),
    {
        proof {
            use_type_invariant(self);
            lemma_ordered_texts(self.keys.deep_view());
            assert(self.keys.deep_view().to_set() =~= self@.dom());
        }
        &self.keys
    }
}

} // verus!
