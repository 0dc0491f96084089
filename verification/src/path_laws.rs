//! What joining, comparing and shortening paths give, in terms of the parts of
//! the paths.

use crate::path::{
    absolute, below, joined_path, last_part, lemma_all_named, lemma_first_of_bound,
    lemma_no_parts, lemma_not_before, lemma_parts, lemma_split_apart, lemma_split_joined,
    lemma_split_some, names_part, parts_of, relative_to, split_by,
};
use crate::text::{first_of, joined, lemma_first_of, one};
use crate::text_laws::law_separators_stand_between_parts;
use vstd::prelude::*;

verus! {

broadcast use vstd::group_vstd_default;

/// A text is cut everywhere the character stands: none of the parts holds it,
/// and joined with it they are the text again.
pub proof fn law_a_cut_text_joins_again(s: Seq<char>, c: char)
    ensures
        split_by(s, c).len() > 0,
        forall|i: int| 0 <= i < split_by(s, c).len() ==> !(#[trigger] split_by(s, c)[i]).contains(c),
        joined(split_by(s, c), one(c)) == s,
    decreases s.len(),
{
    lemma_split_some(s, c);
    assert forall|i: int| 0 <= i < split_by(s, c).len() implies !(
    #[trigger] split_by(s, c)[i]).contains(c) by {
        lemma_split_apart(s, c, i);
    }
    let at = first_of(s, c);
    lemma_first_of_bound(s, c);
    lemma_not_before(s, c);
    if at < s.len() {
        let rest = s.skip(at + 1);
        law_a_cut_text_joins_again(rest, c);
        let (head, tail) = (seq![s.take(at)], split_by(rest, c));
        law_separators_stand_between_parts(head, tail, s.take(at), one(c));
        assert(s =~= s.take(at) + one(c) + rest);
    } else {
        assert(split_by(s, c) == seq![s]);
    }
}

/// A text that is cut at a character is cut into what stands before one place
/// of it and what stands behind.
proof fn lemma_split_parts(a: Seq<char>, c: char, b: Seq<char>)
    ensures
        split_by(a + one(c) + b, c) == split_by(a, c) + split_by(b, c),
    decreases a.len(),
{
    let s = a + one(c) + b;
    let at = first_of(a, c);
    lemma_first_of_bound(a, c);
    lemma_not_before(a, c);
    if at >= a.len() {
        assert forall|k: int| 0 <= k < a.len() implies s[k] != c by {
            assert(s[k] == a[k]);
        }
        assert(s[a.len() as int] == c);
        lemma_first_of(s, c, a.len() as int);
        assert(s.take(a.len() as int) =~= a);
        assert(s.skip(a.len() as int + 1) =~= b);
    } else {
        assert forall|k: int| 0 <= k < at implies s[k] != c by {
            assert(s[k] == a[k]);
        }
        assert(s[at] == c);
        lemma_first_of(s, c, at);
        assert(s.take(at) =~= a.take(at));
        let rest = a.skip(at + 1);
        assert(s.skip(at + 1) =~= rest + one(c) + b);
        lemma_split_parts(rest, c, b);
        assert(split_by(s, c) =~= split_by(a, c) + split_by(b, c));
    }
}

proof fn lemma_filter_parts(a: Seq<Seq<char>>, b: Seq<Seq<char>>)
    ensures
        (a + b).filter(|part: Seq<char>| names_part(part)) == a.filter(
            |part: Seq<char>| names_part(part),
        ) + b.filter(|part: Seq<char>| names_part(part)),
{
    Seq::filter_distributes_over_add(a, b, |part: Seq<char>| names_part(part));
}

/// A relative name that is joined to a path lies under it: the parts of the
/// path come first, those of the name follow. An absolute name stands for
/// itself.
pub proof fn law_joined_paths_hold_both(base: Seq<char>, name: Seq<char>)
    ensures
        absolute(name) ==> joined_path(base, name) == name,
        !absolute(name) ==> parts_of(joined_path(base, name)) == parts_of(base) + parts_of(name),
        absolute(base) ==> absolute(joined_path(base, name)),
{
    if !absolute(name) {
        if base.len() == 0 {
            assert(base =~= Seq::empty());
            lemma_no_parts();
            assert(base + name =~= name);
            assert(parts_of(base) + parts_of(name) =~= parts_of(name));
        } else if base.last() == '/' {
            let stem = base.drop_last();
            let none = Seq::<char>::empty();
            assert(base =~= stem + one('/') + none);
            assert(base + name =~= stem + one('/') + name);
            lemma_split_parts(stem, '/', none);
            lemma_split_parts(stem, '/', name);
            lemma_filter_parts(split_by(stem, '/'), split_by(none, '/'));
            lemma_filter_parts(split_by(stem, '/'), split_by(name, '/'));
            lemma_no_parts();
            assert(parts_of(base) =~= parts_of(stem));
        } else {
            lemma_split_parts(base, '/', name);
            lemma_filter_parts(split_by(base, '/'), split_by(name, '/'));
        }
        if absolute(base) {
            assert(joined_path(base, name)[0] == base[0]);
        }
    }
}

/// A path lies below another exactly where both are absolute and it has the
/// other's parts, one by one, before its own: a directory whose name only
/// begins like the other's is not below it.
pub proof fn law_what_lies_below(path: Seq<char>, root: Seq<char>)
    ensures
        below(path, root) <==> {
            &&& path.len() > 0 && path[0] == '/'
            &&& root.len() > 0 && root[0] == '/'
            &&& parts_of(root).len() <= parts_of(path).len()
            &&& forall|i: int|
                0 <= i < parts_of(root).len() ==> #[trigger] parts_of(root)[i] == parts_of(path)[i]
        },
{
    let (a, b) = (parts_of(root), parts_of(path));
    if a.len() <= b.len() && (forall|i: int| 0 <= i < a.len() ==> #[trigger] a[i] == b[i]) {
        assert(b.take(a.len() as int) =~= a);
    }
    if a.len() <= b.len() && b.take(a.len() as int) == a {
        assert forall|i: int| 0 <= i < a.len() implies #[trigger] a[i] == b[i] by {
            assert(b.take(a.len() as int)[i] == b[i]);
        }
    }
}

/// What is joined to an absolute directory lies below it, and what lies below
/// something below it does so too.
pub proof fn law_below_goes_on(root: Seq<char>, name: Seq<char>, path: Seq<char>)
    requires
        absolute(root),
        !absolute(name),
    ensures
        below(joined_path(root, name), root),
        below(path, joined_path(root, name)) ==> below(path, root),
{
    law_joined_paths_hold_both(root, name);
    law_what_lies_below(joined_path(root, name), root);
    law_what_lies_below(path, joined_path(root, name));
    law_what_lies_below(path, root);
    let (a, b, c) = (parts_of(root), parts_of(joined_path(root, name)), parts_of(path));
    assert forall|i: int| 0 <= i < a.len() implies #[trigger] a[i] == b[i] by {}
    if below(path, joined_path(root, name)) {
        assert forall|i: int| 0 <= i < a.len() implies #[trigger] a[i] == c[i] by {
            assert(b[i] == c[i]);
        }
    }
}

/// The path from a directory to what lies below it leads back to it when it is
/// joined to the directory, and there is one exactly for what lies below.
pub proof fn law_a_relative_path_leads_back(path: Seq<char>, root: Seq<char>)
    ensures
        relative_to(path, root) is Some <==> below(path, root),
        relative_to(path, root) matches Some(relative) ==> !absolute(relative) && parts_of(
            joined_path(root, relative),
        ) == parts_of(path),
{
    if below(path, root) {
        let (a, b) = (parts_of(root), parts_of(path));
        let tail = b.skip(a.len() as int);
        let relative = relative_to(path, root)->0;
        lemma_parts(path);
        assert forall|i: int| 0 <= i < tail.len() implies names_part(#[trigger] tail[i])
            && !tail[i].contains('/') by {
            assert(tail[i] == b[i + a.len()]);
        }
        lemma_joined_parts(tail);
        law_joined_paths_hold_both(root, relative);
        assert(b =~= b.take(a.len() as int) + tail);
    }
}

proof fn lemma_joined_parts(parts: Seq<Seq<char>>)
    requires
        forall|i: int|
            0 <= i < parts.len() ==> names_part(#[trigger] parts[i]) && !parts[i].contains('/'),
    ensures
        !absolute(joined(parts, "/"@)),
        parts_of(joined(parts, "/"@)) == parts,
{
    reveal_strlit("/");
    assert("/"@ =~= one('/'));
    if parts.len() == 0 {
        lemma_no_parts();
        assert(parts =~= Seq::empty());
        assert(joined(parts, "/"@) =~= Seq::<char>::empty());
    } else {
        lemma_split_joined(parts, '/');
        lemma_all_named(parts);
        let text = joined(parts, "/"@);
        assert(names_part(parts[0]));
        if absolute(text) {
            assert(text[0] == '/');
            lemma_first_of(text, '/', 0);
            assert(split_by(text, '/')[0] == text.take(0));
            assert(text.take(0).len() == 0);
        }
    }
}

/// The name of a file is the last part of its path; for a name without a
/// separator that is joined to a directory it is that name.
pub proof fn law_what_a_file_is_called(directory: Seq<char>, name: Seq<char>)
    requires
        name.len() > 0,
        !name.contains('/'),
        name != "."@,
        name != ".."@,
    ensures
        last_part(joined_path(directory, name)) == Some(name),
{
    reveal_strlit(".");
    assert("."@ =~= one('.'));
    assert(!absolute(name)) by {
        if absolute(name) {
            assert(name.contains(name[0]));
        }
    }
    law_joined_paths_hold_both(directory, name);
    let parts = seq![name];
    assert(names_part(name));
    lemma_joined_parts(parts);
    assert(joined(parts, "/"@) == name);
    let all = parts_of(directory) + parts_of(name);
    assert(all.last() == name);
}

} // verus!
