//! Which trees a query, a project, a state and a bound on time show, in terms
//! of the fields of the sessions.

use crate::domain::{Cutoff, FilterView, SessionNodeView, SessionTreeView};
use crate::filter::{
    filter_matches, fully_archived, in_project, or_empty, project_in, query_matches, token_in, token_matches,
};
use crate::ordered::lemma_filter_member;
use crate::service::shown;
use crate::text::{
    has_text, lemma_first_of, lowercased, occurs_at, split_at_first, white, words,
};
use crate::text_laws::{
    law_a_word_is_itself, law_parted_at_the_first, law_white_space_parts_words, no_white,
};
use vstd::prelude::*;

verus! {

broadcast use vstd::group_vstd_default;

/// The text holds the word somewhere, in whatever case either is written.
pub open spec fn mentions(text: Seq<char>, word: Seq<char>) -> bool {
    let (hay, needle) = (lowercased(text), lowercased(word));
    exists|at: int|
        0 <= at <= hay.len() - needle.len() && #[trigger] hay.subrange(at, at + needle.len())
            == needle
}

/// As `mentions`, where a missing text counts as an empty one.
pub open spec fn may_mention(text: Option<Seq<char>>, word: Seq<char>) -> bool {
    match text {
        Some(text) => mentions(text, word),
        None => mentions(Seq::empty(), word),
    }
}

proof fn lemma_mentions(text: Seq<char>, word: Seq<char>)
    ensures
        has_text(lowercased(text), lowercased(word)) == mentions(text, word),
{
    let (hay, needle) = (lowercased(text), lowercased(word));
    if has_text(hay, needle) {
        let at = choose|at: int| #[trigger] occurs_at(hay, needle, at);
        assert(hay.subrange(at, at + needle.len()) == needle);
    }
    if mentions(text, word) {
        let at = choose|at: int|
            0 <= at <= hay.len() - needle.len() && #[trigger] hay.subrange(at, at + needle.len())
                == needle;
        assert(occurs_at(hay, needle, at));
    }
}

proof fn lemma_fields(node: SessionNodeView, word: Seq<char>)
    ensures
        has_text(lowercased(node.id), lowercased(word)) == mentions(node.id, word),
        has_text(lowercased(node.title), lowercased(word)) == mentions(node.title, word),
        has_text(lowercased(node.cwd), lowercased(word)) == mentions(node.cwd, word),
        has_text(lowercased(or_empty(node.project)), lowercased(word))
            == may_mention(node.project, word),
        has_text(lowercased(or_empty(node.provider)), lowercased(word))
            == may_mention(node.provider, word),
        has_text(lowercased(or_empty(node.model)), lowercased(word))
            == may_mention(node.model, word),
{
    lemma_mentions(node.id, word);
    lemma_mentions(node.title, word);
    lemma_mentions(node.cwd, word);
    lemma_mentions(or_empty(node.project), word);
    lemma_mentions(or_empty(node.provider), word);
    lemma_mentions(or_empty(node.model), word);
}

proof fn lemma_one_token(nodes: Seq<SessionNodeView>, token: Seq<char>)
    requires
        token.len() > 0,
        no_white(token),
    ensures
        query_matches(nodes, token) == token_in(nodes, token),
{
    law_a_word_is_itself(token, Seq::empty());
    assert(words(token)[0] == token);
    if token_in(nodes, token) {
        assert forall|t: int| 0 <= t < words(token).len() implies token_in(
            nodes,
            #[trigger] words(token)[t],
        ) by {
            assert(t == 0);
        }
    }
}

/// A query that is one word without a colon is looked up in the id, the title,
/// the directory, the project, the provider and the model of every session: it
/// is met exactly where one of those of one session mentions the word.
pub proof fn law_a_word_is_looked_up_in_every_field(nodes: Seq<SessionNodeView>, word: Seq<char>)
    requires
        word.len() > 0,
        no_white(word),
        !word.contains(':'),
    ensures
        forall|i: int|
            0 <= i < nodes.len() && mentions((#[trigger] nodes[i]).id, word) ==> query_matches(
                nodes,
                word,
            ),
        forall|i: int|
            0 <= i < nodes.len() && mentions((#[trigger] nodes[i]).title, word) ==> query_matches(
                nodes,
                word,
            ),
        forall|i: int|
            0 <= i < nodes.len() && mentions((#[trigger] nodes[i]).cwd, word) ==> query_matches(
                nodes,
                word,
            ),
        forall|i: int|
            0 <= i < nodes.len() && may_mention((#[trigger] nodes[i]).project, word)
                ==> query_matches(nodes, word),
        forall|i: int|
            0 <= i < nodes.len() && may_mention((#[trigger] nodes[i]).provider, word)
                ==> query_matches(nodes, word),
        forall|i: int|
            0 <= i < nodes.len() && may_mention((#[trigger] nodes[i]).model, word)
                ==> query_matches(nodes, word),
        (forall|i: int|
            #![trigger nodes[i]]
            0 <= i < nodes.len() ==> !mentions(nodes[i].id, word) && !mentions(
                nodes[i].title,
                word,
            ) && !mentions(nodes[i].cwd, word) && !may_mention(nodes[i].project, word)
                && !may_mention(nodes[i].provider, word) && !may_mention(nodes[i].model, word))
            ==> !query_matches(nodes, word),
{
    lemma_one_token(nodes, word);
    law_parted_at_the_first(word, ':');
    assert forall|i: int| 0 <= i < nodes.len() implies #[trigger] token_matches(nodes[i], word) == (
    mentions(nodes[i].id, word) || mentions(nodes[i].title, word) || mentions(nodes[i].cwd, word)
        || may_mention(nodes[i].project, word) || may_mention(nodes[i].provider, word)
        || may_mention(nodes[i].model, word)) by {
        lemma_fields(nodes[i], word);
    }
    if token_in(nodes, word) {
        let i = choose|i: int| 0 <= i < nodes.len() && token_matches(#[trigger] nodes[i], word);
        assert(token_matches(nodes[i], word));
    }
    assert forall|i: int| 0 <= i < nodes.len() && token_matches(#[trigger] nodes[i], word) implies
        query_matches(nodes, word) by {
        assert(token_in(nodes, word));
    }
    assert forall|i: int| 0 <= i < nodes.len() implies (token_matches(
        #[trigger] nodes[i],
        word,
    ) == (mentions(nodes[i].id, word) || mentions(nodes[i].title, word) || mentions(
        nodes[i].cwd,
        word,
    ) || may_mention(nodes[i].project, word) || may_mention(nodes[i].provider, word)
        || may_mention(nodes[i].model, word))) by {
        assert(token_matches(nodes[i], word) == token_matches(nodes[i], word));
    }
}

/// The text of the field with the name mentions the value. Under `project` the
/// directory counts too, and a name that no field has mentions nothing.
pub open spec fn field_mentions(
    node: SessionNodeView,
    name: Seq<char>,
    value: Seq<char>,
) -> bool {
    ||| name == "id"@ && mentions(node.id, value)
    ||| name == "title"@ && mentions(node.title, value)
    ||| name == "cwd"@ && mentions(node.cwd, value)
    ||| name == "project"@ && (may_mention(node.project, value) || mentions(node.cwd, value))
    ||| name == "provider"@ && may_mention(node.provider, value)
    ||| name == "model"@ && may_mention(node.model, value)
}

/// A query that is a field's name, a colon and a value is met exactly where
/// that field of some session mentions the value, and no other field counts.
pub proof fn law_a_named_field_is_the_only_one_looked_up(
    nodes: Seq<SessionNodeView>,
    name: Seq<char>,
    value: Seq<char>,
)
    requires
        no_white(name),
        no_white(value),
        !name.contains(':'),
    ensures
        query_matches(nodes, name.push(':') + value) <==> exists|i: int|
            0 <= i < nodes.len() && field_mentions(#[trigger] nodes[i], name, value),
{
    let token = name.push(':') + value;
    assert forall|i: int| 0 <= i < token.len() implies !white(#[trigger] token[i]) by {
        if i < name.len() {
            assert(token[i] == name[i]);
        } else if i > name.len() {
            assert(token[i] == value[i - name.len() - 1]);
        }
    }
    lemma_one_token(nodes, token);
    assert(token[name.len() as int] == ':');
    assert forall|k: int| 0 <= k < name.len() implies token[k] != ':' by {
        assert(name[k] == token[k]);
        assert(name.contains(name[k]));
    }
    lemma_first_of(token, ':', name.len() as int);
    assert(token.take(name.len() as int) =~= name);
    assert(token.skip(name.len() as int + 1) =~= value);
    assert(split_at_first(token, ':') == Some((name, value)));
    lemma_names();
    assert forall|i: int| 0 <= i < nodes.len() implies #[trigger] token_matches(nodes[i], token)
        == field_mentions(nodes[i], name, value) by {
        lemma_fields(nodes[i], value);
    }
    if token_in(nodes, token) {
        let i = choose|i: int| 0 <= i < nodes.len() && token_matches(#[trigger] nodes[i], token);
        assert(field_mentions(nodes[i], name, value));
    }
    if exists|i: int| 0 <= i < nodes.len() && field_mentions(#[trigger] nodes[i], name, value) {
        let i = choose|i: int|
            0 <= i < nodes.len() && field_mentions(#[trigger] nodes[i], name, value);
        assert(token_matches(nodes[i], token));
    }
}

proof fn lemma_names()
    ensures
        "id"@ != "title"@ && "id"@ != "cwd"@ && "id"@ != "project"@ && "id"@ != "provider"@
            && "id"@ != "model"@,
        "title"@ != "cwd"@ && "title"@ != "project"@ && "title"@ != "provider"@ && "title"@
            != "model"@,
        "cwd"@ != "project"@ && "cwd"@ != "provider"@ && "cwd"@ != "model"@,
        "project"@ != "provider"@ && "project"@ != "model"@,
        "provider"@ != "model"@,
{
    reveal_strlit("id");
    reveal_strlit("title");
    reveal_strlit("cwd");
    reveal_strlit("project");
    reveal_strlit("provider");
    reveal_strlit("model");
    assert("id"@.len() == 2 && "title"@.len() == 5 && "cwd"@.len() == 3 && "project"@.len() == 7
        && "provider"@.len() == 8 && "model"@.len() == 5);
    assert("title"@[0] != "model"@[0]);
}

/// Two queries with white space between them are met exactly where each of
/// them is met, be it by different sessions of the tree; one without any word
/// is met by every tree.
pub proof fn law_every_word_of_a_query_must_be_met(
    nodes: Seq<SessionNodeView>,
    a: Seq<char>,
    c: char,
    b: Seq<char>,
)
    requires
        white(c),
    ensures
        query_matches(nodes, a.push(c) + b) <==> query_matches(nodes, a) && query_matches(
            nodes,
            b,
        ),
        query_matches(nodes, Seq::empty()),
{
    law_white_space_parts_words(a, c, b);
    let both = words(a.push(c) + b);
    assert(words(Seq::<char>::empty()) =~= Seq::empty());
    if query_matches(nodes, a.push(c) + b) {
        assert forall|t: int| 0 <= t < words(a).len() implies token_in(
            nodes,
            #[trigger] words(a)[t],
        ) by {
            assert(both[t] == words(a)[t]);
        }
        assert forall|t: int| 0 <= t < words(b).len() implies token_in(
            nodes,
            #[trigger] words(b)[t],
        ) by {
            assert(both[words(a).len() + t] == words(b)[t]);
        }
    }
    if query_matches(nodes, a) && query_matches(nodes, b) {
        assert forall|t: int| 0 <= t < both.len() implies token_in(nodes, #[trigger] both[t]) by {
            if t < words(a).len() {
                assert(both[t] == words(a)[t]);
            } else {
                assert(both[t] == words(b)[t - words(a).len()]);
            }
        }
    }
}

/// A filter shows a tree exactly where its query is met, one of its sessions
/// belongs to the project, by name or by directory, its sessions are all
/// archived or not all archived as asked, and its last activity is not after
/// the bound. A tree without an activity is never shown.
pub proof fn law_what_a_filter_shows(filter: FilterView, tree: SessionTreeView, now: i64)
    ensures
        ({
            let met = filter.query matches Some(query) ==> query_matches(tree.nodes, query);
            let belongs = filter.project matches Some(project) ==> exists|i: int|
                0 <= i < tree.nodes.len() && ((#[trigger] tree.nodes[i]).project == Some(project)
                    || tree.nodes[i].cwd == project);
            let some_live = exists|i: int|
                0 <= i < tree.nodes.len() && !(#[trigger] tree.nodes[i]).archived;
            let state = filter.archived matches Some(archived) ==> archived != some_live;
            let early = tree.last_activity matches Some(last) && match filter.cutoff {
                Cutoff::All => true,
                Cutoff::Absolute(second) => last <= second,
                Cutoff::RollingDays(days) => last + days * 86_400 <= now || last == i64::MIN,
            };
            filter_matches(filter, tree, now as int) <==> met && belongs && state && early
        }),
{
    assert(fully_archived(tree.nodes) == !exists|i: int|
        0 <= i < tree.nodes.len() && !(#[trigger] tree.nodes[i]).archived);
    if let Some(project) = filter.project {
        if project_in(tree.nodes, project) {
            let i = choose|i: int|
                0 <= i < tree.nodes.len() && in_project(
                    #[trigger] tree.nodes[i],
                    project,
                );
            assert(tree.nodes[i].project == Some(project) || tree.nodes[i].cwd == project);
        }
        if exists|i: int|
            0 <= i < tree.nodes.len() && ((#[trigger] tree.nodes[i]).project == Some(project)
                || tree.nodes[i].cwd == project) {
            let i = choose|i: int|
                0 <= i < tree.nodes.len() && ((#[trigger] tree.nodes[i]).project == Some(project)
                    || tree.nodes[i].cwd == project);
            assert(in_project(tree.nodes[i], project));
        }
    }
}

/// A filter shows exactly those of the trees that it matches.
pub proof fn law_only_matching_trees_are_shown(
    trees: Seq<SessionTreeView>,
    filter: FilterView,
    now: int,
    tree: SessionTreeView,
)
    ensures
        shown(trees, filter, now).contains(tree) <==> trees.contains(tree) && filter_matches(
            filter,
            tree,
            now,
        ),
{
    lemma_filter_member(trees, |t: SessionTreeView| filter_matches(filter, t, now), tree);
}

} // verus!
