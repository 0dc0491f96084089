//! Which trees a filter shows.

use crate::domain::{
    cutoff_second, Filter, FilterView, SessionNode, SessionNodeView, SessionTree, SessionTreeView,
};
use crate::text::{
    contains, has_text, lowercase, lowercased, option_is, same, split_at_first, split_once,
    split_whitespace, words,
};
use vstd::prelude::*;
use vstd::string::*;

verus! {

broadcast use vstd::group_vstd_default;

/// `value` occurs in `candidate`, both in lower case.
pub open spec fn found_in(candidate: Seq<char>, value: Seq<char>) -> bool {
    has_text(lowercased(candidate), lowercased(value))
}

/// An optional text, empty where it is missing.
pub open spec fn or_empty(text: Option<Seq<char>>) -> Seq<char> {
    match text {
        Some(value) => value,
        None => Seq::empty(),
    }
}

/// A session matches a query token: `field:value` looks in the named field, a
/// token without a colon looks in every field.
pub open spec fn token_matches(node: SessionNodeView, token: Seq<char>) -> bool {
    match split_at_first(token, ':') {
        Some((field, value)) => if field == "id"@ {
            found_in(node.id, value)
        } else if field == "title"@ {
            found_in(node.title, value)
        } else if field == "project"@ {
            found_in(or_empty(node.project), value) || found_in(node.cwd, value)
        } else if field == "provider"@ {
            found_in(or_empty(node.provider), value)
        } else if field == "model"@ {
            found_in(or_empty(node.model), value)
        } else if field == "cwd"@ {
            found_in(node.cwd, value)
        } else {
            false
        },
        None => {
            ||| found_in(node.id, token)
            ||| found_in(node.title, token)
            ||| found_in(node.cwd, token)
            ||| found_in(or_empty(node.project), token)
            ||| found_in(or_empty(node.provider), token)
            ||| found_in(or_empty(node.model), token)
        },
    }
}

/// Every token of a query matches some session of the tree.
pub open spec fn query_matches(nodes: Seq<SessionNodeView>, query: Seq<char>) -> bool {
    forall|t: int|
        0 <= t < words(query).len() ==> token_in(nodes, #[trigger] words(query)[t])
}

/// A token matches some session of the tree.
pub open spec fn token_in(nodes: Seq<SessionNodeView>, token: Seq<char>) -> bool {
    exists|i: int| 0 <= i < nodes.len() && token_matches(#[trigger] nodes[i], token)
}

/// A session belongs to a project by name or by its directory.
pub open spec fn in_project(node: SessionNodeView, project: Seq<char>) -> bool {
    node.project == Some(project) || node.cwd == project
}

/// Some session of the tree belongs to the project.
pub open spec fn project_in(nodes: Seq<SessionNodeView>, project: Seq<char>) -> bool {
    exists|i: int| 0 <= i < nodes.len() && in_project(#[trigger] nodes[i], project)
}

/// Every session of the tree is archived.
pub open spec fn fully_archived(nodes: Seq<SessionNodeView>) -> bool {
    forall|i: int| 0 <= i < nodes.len() ==> (#[trigger] nodes[i]).archived
}

/// A filter shows a tree where each of its conditions holds.
pub open spec fn filter_matches(filter: FilterView, tree: SessionTreeView, now: int) -> bool {
    &&& tree.last_activity matches Some(last) && last <= cutoff_second(filter.cutoff, now)
    &&& filter.archived matches Some(archived) ==> fully_archived(tree.nodes) == archived
    &&& filter.project matches Some(project) ==> project_in(tree.nodes, project)
    &&& filter.query matches Some(query) ==> query_matches(tree.nodes, query)
}

fn found(candidate: &str, value: &String) -> (r: bool)
    ensures
        r == has_text(lowercased(candidate@), value@),
{
    contains(lowercase(candidate).as_str(), value.as_str())
}

fn found_option(candidate: &Option<String>, value: &String) -> (r: bool)
    ensures
        r == has_text(lowercased(or_empty(candidate.deep_view())), value@),
{
    match candidate {
        Some(text) => found(text.as_str(), value),
        None => {
            let empty = String::new();
            assert(empty@ =~= Seq::<char>::empty());
            found(empty.as_str(), value)
        },
    }
}

/// Whether a session matches a query token.
pub fn node_matches_token(node: &SessionNode, token: &str) -> (r: bool)
    ensures
        r == token_matches(node.deep_view(), token@),
{
    match split_once(token, ':') {
        Some((field, rest)) => {
            let value = lowercase(rest.as_str());
            let field = field.as_str();
            if same(field, "id") {
                found(node.id.as_str(), &value)
            } else if same(field, "title") {
                found(node.title.as_str(), &value)
            } else if same(field, "project") {
                found_option(&node.project, &value) || found(node.cwd.as_str(), &value)
            } else if same(field, "provider") {
                found_option(&node.provider, &value)
            } else if same(field, "model") {
                found_option(&node.model, &value)
            } else if same(field, "cwd") {
                found(node.cwd.as_str(), &value)
            } else {
                false
            }
        },
        None => {
            let value = lowercase(token);
            found(node.id.as_str(), &value) || found(node.title.as_str(), &value) || found(
                node.cwd.as_str(),
                &value,
            ) || found_option(&node.project, &value) || found_option(&node.provider, &value)
                || found_option(&node.model, &value)
        },
    }
}

fn any_matches(nodes: &Vec<SessionNode>, token: &str) -> (r: bool)
    ensures
        r == token_in(nodes.deep_view(), token@),
{
    let mut i: usize = 0;
    while i < nodes.len()
        invariant
            i <= nodes@.len(),
            forall|k: int| 0 <= k < i ==> !token_matches(#[trigger] nodes.deep_view()[k], token@),
        decreases nodes.len() - i,
    {
        if node_matches_token(&nodes[i], token) {
            assert(token_matches(nodes.deep_view()[i as int], token@));
            return true;
        }
        i += 1;
    }
    false
}

fn any_in_project(nodes: &Vec<SessionNode>, project: &String) -> (r: bool)
    ensures
        r == project_in(nodes.deep_view(), project@),
{
    let mut i: usize = 0;
    while i < nodes.len()
        invariant
            i <= nodes@.len(),
            forall|k: int| 0 <= k < i ==> !in_project(#[trigger] nodes.deep_view()[k], project@),
        decreases nodes.len() - i,
    {
        let node = &nodes[i];
        if option_is(&node.project, project.as_str()) || same(
            node.cwd.as_str(),
            project.as_str(),
        ) {
            assert(in_project(nodes.deep_view()[i as int], project@));
            return true;
        }
        assert(!in_project(nodes.deep_view()[i as int], project@));
        i += 1;
    }
    false
}

fn all_tokens_match(nodes: &Vec<SessionNode>, query: &String) -> (r: bool)
    ensures
        r == query_matches(nodes.deep_view(), query@),
{
    let tokens = split_whitespace(query.as_str());
    let mut i: usize = 0;
    while i < tokens.len()
        invariant
            i <= tokens@.len(),
            tokens.deep_view() == words(query@),
            forall|k: int|
                0 <= k < i ==> token_in(nodes.deep_view(), #[trigger] tokens.deep_view()[k]),
        decreases tokens.len() - i,
    {
        assert(tokens.deep_view()[i as int] == tokens@[i as int]@);
        if !any_matches(nodes, tokens[i].as_str()) {
            assert(!token_in(nodes.deep_view(), words(query@)[i as int]));
            return false;
        }
        i += 1;
    }
    true
}

impl SessionTree {
    pub fn is_fully_archived(&self) -> (r: bool)
        ensures
            r == fully_archived(self.deep_view().nodes),
    {
        let mut i: usize = 0;
        while i < self.nodes.len()
            invariant
                i <= self.nodes@.len(),
                forall|k: int| 0 <= k < i ==> (#[trigger] self.nodes.deep_view()[k]).archived,
            decreases self.nodes.len() - i,
        {
            if !self.nodes[i].archived {
                assert(!self.nodes.deep_view()[i as int].archived);
                return false;
            }
            i += 1;
        }
        true
    }
}

impl Filter {
    pub fn matches(&self, tree: &SessionTree, now: i64) -> (r: bool)
        ensures
            r == filter_matches(self.deep_view(), tree.deep_view(), now as int),
    {
        match tree.last_activity {
            Some(last) => {
                if last > self.cutoff.epoch_seconds(now) {
                    return false;
                }
            },
            None => {
                return false;
            },
        }
        if let Some(archived) = self.archived {
            if tree.is_fully_archived() != archived {
                return false;
            }
        }
        if let Some(project) = &self.project {
            if !any_in_project(&tree.nodes, project) {
                return false;
            }
        }
        if let Some(query) = &self.query {
            if !all_tokens_match(&tree.nodes, query) {
                return false;
            }
        }
        true
    }
}

/// Conditions compose: a filter shows a tree exactly where the filters with
/// one of its conditions each, and the same cutoff, all show it.
pub proof fn law_conditions_compose(filter: FilterView, tree: SessionTreeView, now: int)
    ensures
        filter_matches(filter, tree, now) <==> {
            let bare = FilterView {
                cutoff: filter.cutoff,
                project: None,
                query: None,
                archived: None,
            };
            &&& filter_matches(FilterView { project: filter.project, ..bare }, tree, now)
            &&& filter_matches(FilterView { query: filter.query, ..bare }, tree, now)
            &&& filter_matches(FilterView { archived: filter.archived, ..bare }, tree, now)
        },
{
}

/// Without a bound on time, only a missing activity hides a tree by its time.
pub proof fn law_all_cutoff(filter: FilterView, tree: SessionTreeView, now: int)
    requires
        filter.cutoff is All,
        filter.project is None,
        filter.query is None,
        filter.archived is None,
    ensures
        filter_matches(filter, tree, now) <==> tree.last_activity is Some,
{
}

} // verus!
