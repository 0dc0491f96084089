//! Paths as text, with `/` between their parts.

use crate::ordered::lemma_filter_member;
use crate::text::{chars_of, join, joined, less, one, same, text_between, text_lt};
use vstd::prelude::*;
use vstd::string::*;

verus! {

broadcast use vstd::group_vstd_default;

/// `s` cut at each `c`.
pub open spec fn split_by(s: Seq<char>, c: char) -> Seq<Seq<char>>
    decreases s.len(),
{
    let at = crate::text::first_of(s, c);
    if at >= s.len() {
        seq![s]
    } else {
        proof {
            lemma_first_of_bound(s, c);
        }
        seq![s.take(at)] + split_by(s.skip(at + 1), c)
    }
}

pub proof fn lemma_first_of_bound(s: Seq<char>, c: char)
    ensures
        0 <= crate::text::first_of(s, c) <= s.len(),
    decreases s.len(),
{
    if s.len() > 0 && s[0] != c {
        lemma_first_of_bound(s.drop_first(), c);
    }
}

/// Cuts `s` at each `c`.
pub fn split_at_each(s: &str, c: char) -> (r: Vec<String>)
    ensures
        r.deep_view() == split_by(s@, c),
{
    let v = chars_of(s);
    let mut r: Vec<String> = Vec::new();
    let mut start: usize = 0;
    let mut i: usize = 0;
    assert(v@.skip(0) =~= v@);
    assert(r.deep_view() + split_by(v@, c) =~= split_by(v@, c));
    while i < v.len()
        invariant
            start <= i <= v@.len(),
            v@ == s@,
            forall|k: int| start <= k < i ==> v@[k] != c,
            r.deep_view() + split_by(v@.skip(start as int), c) == split_by(s@, c),
        decreases v.len() - i,
    {
        if v[i] == c {
            let ghost before = r.deep_view();
            let ghost rest = v@.skip(start as int);
            let part = text_between(&v, start, i);
            r.push(part);
            proof {
                crate::text::lemma_first_of(rest, c, i - start);
                assert(rest.take(i - start) =~= part@);
                assert(rest.skip(i - start + 1) =~= v@.skip(i as int + 1));
                assert(r.deep_view() =~= before.push(part@));
                assert(before + (seq![part@] + split_by(v@.skip(i as int + 1), c))
                    =~= r.deep_view() + split_by(v@.skip(i as int + 1), c));
            }
            start = i + 1;
        }
        i += 1;
    }
    let ghost before = r.deep_view();
    let ghost rest = v@.skip(start as int);
    let part = text_between(&v, start, v.len());
    r.push(part);
    proof {
        crate::text::lemma_first_of(rest, c, rest.len() as int);
        assert(rest =~= part@);
        assert(r.deep_view() =~= before.push(part@));
        assert(before + seq![rest] =~= before.push(rest));
    }
    r
}

/// A path that begins at the root.
pub open spec fn absolute(path: Seq<char>) -> bool {
    path.len() > 0 && path[0] == '/'
}

/// A part of a path that names something.
pub open spec fn names_part(part: Seq<char>) -> bool {
    part.len() > 0 && part != one('.')
}

/// The named parts of a path.
pub open spec fn parts_of(path: Seq<char>) -> Seq<Seq<char>> {
    split_by(path, '/').filter(|part: Seq<char>| names_part(part))
}

/// A path that begins at the present directory by name.
pub open spec fn dotted(path: Seq<char>) -> bool {
    split_by(path, '/')[0] == one('.')
}

/// The components of a path: the root or the present directory where it begins
/// there, then its named parts. Repeated separators and a `.` further on do not
/// count.
pub open spec fn components(path: Seq<char>) -> Seq<Seq<char>> {
    if absolute(path) {
        seq!["/"@] + parts_of(path)
    } else if dotted(path) {
        seq!["."@] + parts_of(path)
    } else {
        parts_of(path)
    }
}

/// The kinds of components in their order: the root, the present directory, the
/// directory above, and names.
pub open spec fn component_rank(part: Seq<char>) -> int {
    if part == "/"@ {
        0
    } else if part == "."@ {
        1
    } else if part == ".."@ {
        2
    } else {
        3
    }
}

/// A component comes before another: by their kinds, and names in string order.
pub open spec fn component_lt(a: Seq<char>, b: Seq<char>) -> bool {
    component_rank(a) < component_rank(b) || (component_rank(a) == 3 && component_rank(b) == 3
        && text_lt(a, b))
}

/// Lists of components in the order of their first difference.
pub open spec fn components_lt(a: Seq<Seq<char>>, b: Seq<Seq<char>>) -> bool
    decreases a.len(),
{
    if b.len() == 0 {
        false
    } else if a.len() == 0 {
        true
    } else if a[0] == b[0] {
        components_lt(a.drop_first(), b.drop_first())
    } else {
        component_lt(a[0], b[0])
    }
}

/// Both paths are absolute and `path` lies at or below `root`.
pub open spec fn below(path: Seq<char>, root: Seq<char>) -> bool {
    absolute(path) && absolute(root) && parts_of(root).len() <= parts_of(path).len() && parts_of(
        path,
    ).take(parts_of(root).len() as int) == parts_of(root)
}

/// `name` under `base`.
pub open spec fn joined_path(base: Seq<char>, name: Seq<char>) -> Seq<char> {
    if absolute(name) {
        name
    } else if base.len() == 0 || base.last() == '/' {
        base + name
    } else {
        base + one('/') + name
    }
}

pub fn is_absolute(path: &str) -> (r: bool)
    ensures
        r == absolute(path@),
{
    let v = chars_of(path);
    v.len() > 0 && v[0] == '/'
}

/// The named parts of a path.
pub fn path_parts(path: &str) -> (r: Vec<String>)
    ensures
        r.deep_view() == parts_of(path@),
{
    let all = split_at_each(path, '/');
    let ghost whole = all.deep_view();
    let ghost keep = |part: Seq<char>| names_part(part);
    let mut r: Vec<String> = Vec::new();
    let mut i: usize = 0;
    proof {
        reveal(Seq::filter);
        assert(r.deep_view() =~= whole.take(0).filter(keep));
    }
    while i < all.len()
        invariant
            i <= all@.len(),
            whole == all.deep_view(),
            keep == (|part: Seq<char>| names_part(part)),
            r.deep_view() == whole.take(i as int).filter(keep),
        decreases all.len() - i,
    {
        let ghost before = r.deep_view();
        proof {
            reveal(Seq::filter);
            reveal_strlit(".");
            assert("."@ =~= one('.'));
            assert(whole.take(i as int + 1).drop_last() =~= whole.take(i as int));
            assert(whole.take(i as int + 1).last() == whole[i as int]);
            assert(whole[i as int] == all@[i as int]@);
        }
        let part = all[i].as_str();
        if chars_of(part).len() > 0 && !same(part, ".") {
            r.push(all[i].clone());
            assert(r.deep_view() =~= before.push(whole[i as int]));
        }
        i += 1;
    }
    assert(whole.take(i as int) =~= whole);
    r
}

/// The components of a path.
pub fn components_of(path: &str) -> (r: Vec<String>)
    ensures
        r.deep_view() == components(path@),
{
    let mut parts = path_parts(path);
    let ghost named = parts.deep_view();
    if is_absolute(path) {
        parts.insert(0, "/".to_owned());
        assert(parts.deep_view() =~= seq!["/"@] + named);
    } else if is_dotted(path) {
        parts.insert(0, ".".to_owned());
        assert(parts.deep_view() =~= seq!["."@] + named);
    }
    parts
}

fn is_dotted(path: &str) -> (r: bool)
    ensures
        r == dotted(path@),
{
    let all = split_at_each(path, '/');
    proof {
        lemma_split_some(path@, '/');
        reveal_strlit(".");
        assert("."@ =~= one('.'));
        assert(all.deep_view()[0] == all@[0]@);
    }
    same(all[0].as_str(), ".")
}

fn rank_of_component(part: &str) -> (r: u8)
    ensures
        r == component_rank(part@),
{
    if same(part, "/") {
        0
    } else if same(part, ".") {
        1
    } else if same(part, "..") {
        2
    } else {
        3
    }
}

/// Whether a list of components comes before another.
pub fn components_before(a: &Vec<String>, b: &Vec<String>) -> (r: bool)
    ensures
        r == components_lt(a.deep_view(), b.deep_view()),
{
    let ghost p = a.deep_view();
    let ghost q = b.deep_view();
    let mut i: usize = 0;
    assert(p.skip(0) =~= p);
    assert(q.skip(0) =~= q);
    while i < a.len() && i < b.len()
        invariant
            i <= a@.len(),
            i <= b@.len(),
            p == a.deep_view(),
            q == b.deep_view(),
            components_lt(p, q) == components_lt(p.skip(i as int), q.skip(i as int)),
        decreases a.len() - i,
    {
        proof {
            assert(p.skip(i as int)[0] == a@[i as int]@);
            assert(q.skip(i as int)[0] == b@[i as int]@);
            assert(p.skip(i as int).drop_first() =~= p.skip(i as int + 1));
            assert(q.skip(i as int).drop_first() =~= q.skip(i as int + 1));
        }
        if !same(a[i].as_str(), b[i].as_str()) {
            let x: u8 = rank_of_component(a[i].as_str());
            let y: u8 = rank_of_component(b[i].as_str());
            return x < y || (x == 3 && y == 3 && less(a[i].as_str(), b[i].as_str()));
        }
        i += 1;
    }
    i < b.len()
}

pub proof fn lemma_split_some(s: Seq<char>, c: char)
    ensures
        split_by(s, c).len() > 0,
{
    let at = crate::text::first_of(s, c);
    if at < s.len() {
        assert(split_by(s, c)[0] == s.take(at));
    }
}

/// No part of a text that was cut holds what it was cut at.
pub proof fn lemma_split_apart(s: Seq<char>, c: char, i: int)
    requires
        0 <= i < split_by(s, c).len(),
    ensures
        !split_by(s, c)[i].contains(c),
    decreases s.len(),
{
    let at = crate::text::first_of(s, c);
    lemma_first_of_bound(s, c);
    lemma_not_before(s, c);
    if at >= s.len() {
        assert(split_by(s, c)[i] == s);
        if s.contains(c) {
            let k = s.index_of(c);
            assert(s[k] == c);
        }
    } else if i == 0 {
        if s.take(at).contains(c) {
            let k = s.take(at).index_of(c);
            assert(s[k] == c);
        }
    } else {
        lemma_split_apart(s.skip(at + 1), c, i - 1);
    }
}

pub proof fn lemma_not_before(s: Seq<char>, c: char)
    ensures
        forall|k: int| 0 <= k < crate::text::first_of(s, c) ==> s[k] != c,
        crate::text::first_of(s, c) < s.len() ==> s[crate::text::first_of(s, c)] == c,
    decreases s.len(),
{
    if s.len() > 0 && s[0] != c {
        let rest = s.drop_first();
        lemma_not_before(rest, c);
        lemma_first_of_bound(rest, c);
        assert forall|k: int| 0 <= k < crate::text::first_of(s, c) implies s[k] != c by {
            if k > 0 {
                assert(rest[k - 1] == s[k]);
            }
        }
    }
}

/// Cutting a text that ends in a part gives that part last.
pub proof fn lemma_split_last(a: Seq<char>, c: char, b: Seq<char>)
    requires
        !b.contains(c),
    ensures
        split_by(a + one(c) + b, c) == split_by(a, c).push(b),
    decreases a.len(),
{
    let s = a + one(c) + b;
    let at = crate::text::first_of(a, c);
    lemma_first_of_bound(a, c);
    lemma_not_before(a, c);
    if at < a.len() {
        crate::text::lemma_first_of(s, c, at);
        assert(s.take(at) =~= a.take(at));
        assert(s.skip(at + 1) =~= a.skip(at + 1) + one(c) + b);
        lemma_split_last(a.skip(at + 1), c, b);
        assert(split_by(s, c) =~= split_by(a, c).push(b));
    } else {
        crate::text::lemma_first_of(s, c, a.len() as int);
        assert(s.take(a.len() as int) =~= a);
        assert(s.skip(a.len() as int + 1) =~= b);
        assert forall|k: int| 0 <= k < b.len() implies b[k] != c by {
            assert(b.contains(b[k]));
        }
        crate::text::lemma_first_of(b, c, b.len() as int);
        assert(split_by(b, c) =~= seq![b]);
        assert(split_by(s, c) =~= split_by(a, c).push(b));
    }
}

/// Cutting joined parts gives the parts back, where none of them holds what
/// stands between them.
pub proof fn lemma_split_joined(parts: Seq<Seq<char>>, c: char)
    requires
        parts.len() > 0,
        forall|i: int| 0 <= i < parts.len() ==> !(#[trigger] parts[i]).contains(c),
    ensures
        split_by(joined(parts, one(c)), c) == parts,
    decreases parts.len(),
{
    if parts.len() == 1 {
        let b = parts[0];
        assert forall|k: int| 0 <= k < b.len() implies b[k] != c by {
            assert(b.contains(b[k]));
        }
        crate::text::lemma_first_of(b, c, b.len() as int);
        assert(split_by(b, c) =~= parts);
    } else {
        lemma_split_joined(parts.drop_last(), c);
        lemma_split_last(joined(parts.drop_last(), one(c)), c, parts.last());
        assert(parts.drop_last().push(parts.last()) =~= parts);
    }
}

pub proof fn lemma_parts(path: Seq<char>)
    ensures
        forall|i: int|
            0 <= i < parts_of(path).len() ==> names_part(#[trigger] parts_of(path)[i])
                && !parts_of(path)[i].contains('/'),
{
    let parts = parts_of(path);
    let keep = |part: Seq<char>| names_part(part);
    assert forall|i: int| 0 <= i < parts.len() implies names_part(#[trigger] parts[i])
        && !parts[i].contains('/') by {
        assert(parts.contains(parts[i]));
        lemma_filter_member(split_by(path, '/'), keep, parts[i]);
        let k = split_by(path, '/').index_of(parts[i]);
        lemma_split_apart(path, '/', k);
    }
}

pub proof fn lemma_all_named(parts: Seq<Seq<char>>)
    requires
        forall|i: int| 0 <= i < parts.len() ==> names_part(#[trigger] parts[i]),
    ensures
        parts.filter(|part: Seq<char>| names_part(part)) == parts,
    decreases parts.len(),
{
    reveal(Seq::filter);
    if parts.len() > 0 {
        assert forall|i: int| 0 <= i < parts.drop_last().len() implies names_part(
            #[trigger] parts.drop_last()[i],
        ) by {
            assert(parts.drop_last()[i] == parts[i]);
        }
        lemma_all_named(parts.drop_last());
        assert(names_part(parts[parts.len() - 1]));
        assert(parts.drop_last().push(parts.last()) =~= parts);
    }
}

/// A leading part that names nothing does not count.
proof fn lemma_unnamed_first(first: Seq<char>, rest: Seq<Seq<char>>)
    requires
        !names_part(first),
    ensures
        (seq![first] + rest).filter(|part: Seq<char>| names_part(part)) == rest.filter(
            |part: Seq<char>| names_part(part),
        ),
{
    let keep = |part: Seq<char>| names_part(part);
    reveal_with_fuel(Seq::filter, 2);
    let one_part = seq![first];
    assert(one_part.drop_last() =~= Seq::empty());
    assert(!keep(one_part.last()));
    assert(one_part.filter(keep) =~= Seq::empty());
    Seq::filter_distributes_over_add(one_part, rest, keep);
    assert(one_part.filter(keep) + rest.filter(keep) =~= rest.filter(keep));
}

/// The plainest spelling of a path.
pub open spec fn path_key(path: Seq<char>) -> Seq<char> {
    let rest = joined(parts_of(path), "/"@);
    if absolute(path) {
        "/"@ + rest
    } else if dotted(path) {
        "./"@ + rest
    } else {
        rest
    }
}

/// The plainest spelling of a path.
pub fn key_of_path(path: &str) -> (r: String)
    ensures
        r@ == path_key(path@),
{
    let rest = join(&path_parts(path), "/");
    if is_absolute(path) {
        "/".to_owned().concat(rest.as_str())
    } else if is_dotted(path) {
        "./".to_owned().concat(rest.as_str())
    } else {
        rest
    }
}

proof fn lemma_rest_parts(path: Seq<char>)
    ensures
        parts_of(joined(parts_of(path), "/"@)) == parts_of(path),
        parts_of(path).len() > 0 ==> !absolute(joined(parts_of(path), "/"@)) && !dotted(
            joined(parts_of(path), "/"@),
        ),
        parts_of(path).len() == 0 ==> joined(parts_of(path), "/"@) == Seq::<char>::empty(),
{
    let parts = parts_of(path);
    let rest = joined(parts, "/"@);
    lemma_parts(path);
    lemma_all_named(parts);
    if parts.len() > 0 {
        reveal_strlit("/");
        assert("/"@ =~= one('/'));
        lemma_split_joined(parts, '/');
        assert(names_part(parts[0]));
        if absolute(rest) {
            crate::text::lemma_first_of(rest, '/', 0);
            assert(split_by(rest, '/')[0] =~= Seq::<char>::empty());
        }
    } else {
        lemma_no_parts();
    }
}

pub proof fn lemma_no_parts()
    ensures
        parts_of(Seq::<char>::empty()) == Seq::<Seq<char>>::empty(),
        !dotted(Seq::<char>::empty()),
{
    reveal_with_fuel(Seq::filter, 2);
    let none = Seq::<char>::empty();
    let all = split_by(none, '/');
    assert(all =~= seq![none]);
    assert(all.drop_last() =~= Seq::empty());
    assert(!names_part(all.last()));
    assert(parts_of(none) =~= Seq::empty());
    assert(one('.').len() == 1);
}

/// The plainest spelling of a path is a spelling of that path.
pub proof fn lemma_key_components(path: Seq<char>)
    ensures
        components(path_key(path)) == components(path),
{
    let parts = parts_of(path);
    let rest = joined(parts, "/"@);
    let key = path_key(path);
    reveal_strlit("/");
    reveal_strlit("./");
    reveal_strlit(".");
    assert("."@ =~= one('.'));
    lemma_rest_parts(path);
    lemma_no_parts();
    if absolute(path) {
        crate::text::lemma_first_of(key, '/', 0);
        assert(key.take(0) =~= Seq::empty());
        assert(key.skip(1) =~= rest);
        lemma_unnamed_first(Seq::empty(), split_by(rest, '/'));
        assert(key.take(0) == Seq::<char>::empty());
        assert(split_by(key, '/') == seq![key.take(0)] + split_by(rest, '/'));
    } else if dotted(path) {
        crate::text::lemma_first_of(key, '/', 1);
        assert(key.take(1) =~= one('.'));
        assert(key.skip(2) =~= rest);
        lemma_unnamed_first(one('.'), split_by(rest, '/'));
        assert(split_by(key, '/') == seq![key.take(1)] + split_by(rest, '/'));
        assert(split_by(key, '/')[0] == one('.'));
        assert(!absolute(key));
    }
}

/// Two paths have the same plainest spelling exactly where they have the same
/// components.
pub proof fn law_path_keys_agree(a: Seq<char>, b: Seq<char>)
    ensures
        path_key(a) == path_key(b) <==> components(a) == components(b),
{
    lemma_key_components(a);
    lemma_key_components(b);
    if components(a) == components(b) {
        lemma_parts(a);
        lemma_parts(b);
        reveal_strlit("/");
        reveal_strlit(".");
        assert("."@ =~= one('.'));
        assert("/"@[0] == '/');
        assert("/"@.contains('/'));
        lemma_begins(a);
        lemma_begins(b);
        if absolute(a) || dotted(a) {
            assert(components(a).drop_first() =~= parts_of(a));
            assert(components(b).drop_first() =~= parts_of(b));
        }
    }
}

/// How a path begins can be told from its first component.
proof fn lemma_begins(path: Seq<char>)
    ensures
        absolute(path) <==> components(path).len() > 0 && components(path)[0] == "/"@,
        !absolute(path) && dotted(path) <==> components(path).len() > 0 && components(path)[0]
            == "."@,
{
    lemma_parts(path);
    reveal_strlit("/");
    reveal_strlit(".");
    assert("."@ =~= one('.'));
    assert("/"@[0] == '/');
    assert("/"@.contains('/'));
    if parts_of(path).len() > 0 {
        assert(names_part(parts_of(path)[0]));
        assert(!parts_of(path)[0].contains('/'));
    }
}

/// The order of components is a strict total order on lists of them.
pub proof fn lemma_components_order(a: Seq<Seq<char>>, b: Seq<Seq<char>>, c: Seq<Seq<char>>)
    ensures
        components_lt(a, b) ==> !components_lt(b, a),
        components_lt(a, b) && components_lt(b, c) ==> components_lt(a, c),
        components_lt(a, b) || components_lt(b, a) || a == b,
    decreases a.len(),
{
    if a.len() > 0 && b.len() > 0 {
        crate::text::lemma_text_lt_order(a[0], b[0], a[0]);
        if c.len() > 0 {
            crate::text::lemma_text_lt_order(a[0], b[0], c[0]);
        }
        lemma_components_order(
            a.drop_first(),
            b.drop_first(),
            if c.len() > 0 {
                c.drop_first()
            } else {
                c
            },
        );
        if a[0] == b[0] && a.drop_first() == b.drop_first() {
            assert(a =~= seq![a[0]] + a.drop_first());
            assert(b =~= seq![b[0]] + b.drop_first());
        }
    } else if a.len() == 0 && b.len() == 0 {
        assert(a =~= b);
    }
}

/// Whether both paths are absolute and `path` lies at or below `root`.
pub fn is_below(path: &str, root: &str) -> (r: bool)
    ensures
        r == below(path@, root@),
{
    if !is_absolute(path) || !is_absolute(root) {
        return false;
    }
    let p = path_parts(path);
    let q = path_parts(root);
    if q.len() > p.len() {
        return false;
    }
    let mut i: usize = 0;
    while i < q.len()
        invariant
            i <= q@.len() <= p@.len(),
            p.deep_view() == parts_of(path@),
            q.deep_view() == parts_of(root@),
            absolute(path@),
            absolute(root@),
            forall|k: int| 0 <= k < i ==> p@[k]@ == q@[k]@,
        decreases q.len() - i,
    {
        if !same(p[i].as_str(), q[i].as_str()) {
            proof {
                let cut = p.deep_view().take(q@.len() as int);
                assert(cut[i as int] != q.deep_view()[i as int]);
            }
            return false;
        }
        i += 1;
    }
    assert(p.deep_view().take(q@.len() as int) =~= q.deep_view());
    true
}

/// Puts `name` under `base`.
pub fn join_path(base: &str, name: &str) -> (r: String)
    ensures
        r@ == joined_path(base@, name@),
{
    if is_absolute(name) {
        return name.to_owned();
    }
    let v = chars_of(base);
    let mut r = base.to_owned();
    if v.len() > 0 && v[v.len() - 1] != '/' {
        r.push('/');
        assert(r@ =~= base@ + one('/'));
    }
    r.append(name);
    r
}

/// The last named part of a path, where that is not `..`.
pub open spec fn last_part(path: Seq<char>) -> Option<Seq<char>> {
    let parts = parts_of(path);
    if parts.len() == 0 || parts.last() == ".."@ {
        None
    } else {
        Some(parts.last())
    }
}

pub fn file_name(path: &str) -> (r: Option<String>)
    ensures
        r.deep_view() == last_part(path@),
{
    let parts = path_parts(path);
    if parts.len() == 0 {
        return None;
    }
    let last = &parts[parts.len() - 1];
    assert(parts.deep_view().last() == last@);
    if same(last.as_str(), "..") {
        None
    } else {
        Some(last.clone())
    }
}

/// The path of `path` below `root`, with its named parts joined by `/`.
pub open spec fn relative_to(path: Seq<char>, root: Seq<char>) -> Option<Seq<char>> {
    if below(path, root) {
        Some(crate::text::joined(parts_of(path).skip(parts_of(root).len() as int), "/"@))
    } else {
        None
    }
}

pub fn relative_path(path: &str, root: &str) -> (r: Option<String>)
    ensures
        r.deep_view() == relative_to(path@, root@),
{
    if !is_below(path, root) {
        return None;
    }
    let p = path_parts(path);
    let q = path_parts(root);
    let mut rest: Vec<String> = Vec::new();
    let mut i: usize = q.len();
    assert(rest.deep_view() =~= p.deep_view().subrange(i as int, i as int));
    while i < p.len()
        invariant
            q@.len() <= i <= p@.len(),
            rest.deep_view() == p.deep_view().subrange(q@.len() as int, i as int),
        decreases p.len() - i,
    {
        let ghost before = rest.deep_view();
        rest.push(p[i].clone());
        assert(rest.deep_view() =~= before.push(p.deep_view()[i as int]));
        assert(rest.deep_view() =~= p.deep_view().subrange(q@.len() as int, i as int + 1));
        i += 1;
    }
    assert(rest.deep_view() =~= p.deep_view().skip(q@.len() as int));
    Some(crate::text::join(&rest, "/"))
}

} // verus!
