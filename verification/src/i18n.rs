//! The texts of the interface.

use crate::domain::Language;
use crate::ordered::TextMap;
use crate::path::{split_at_each, split_by};
use crate::text::{chars_of, split_at_first, split_once, strip_suffix, without_suffix};
use vstd::prelude::*;
use vstd::string::*;

verus! {

broadcast use vstd::group_vstd_default;

/// A line without the carriage return before its end.
pub open spec fn without_return(line: Seq<char>) -> Seq<char> {
    match without_suffix(line, "\r"@) {
        Some(rest) => rest,
        None => line,
    }
}

/// The lines of a text. The end of the last line is optional.
pub open spec fn lines_of(text: Seq<char>) -> Seq<Seq<char>> {
    let parts = split_by(text, '\n');
    let ended = parts.drop_last().map_values(|line: Seq<char>| without_return(line));
    if parts.last().len() == 0 {
        ended
    } else {
        ended.push(parts.last())
    }
}

/// The texts by their keys: a line holds a key, an equals sign and a text. The
/// last line with a key counts; a line without the sign does not.
pub open spec fn entries_of(lines: Seq<Seq<char>>) -> Map<Seq<char>, Seq<char>>
    decreases lines.len(),
{
    if lines.len() == 0 {
        Map::empty()
    } else {
        let before = entries_of(lines.drop_last());
        match split_at_first(lines.last(), '=') {
            Some((key, text)) => before.insert(key, text),
            None => before,
        }
    }
}

/// The files of the texts.
pub struct Locales {
    pub en: String,
    pub zh_cn: String,
}

#[verifier::ext_equal]
pub struct LocalesView {
    pub en: Seq<char>,
    pub zh_cn: Seq<char>,
}

impl DeepView for Locales {
    type V = LocalesView;

    open spec fn deep_view(&self) -> LocalesView {
        LocalesView { en: self.en@, zh_cn: self.zh_cn@ }
    }
}

/// The file of a language.
pub open spec fn file_of(locales: LocalesView, language: Language) -> Seq<char> {
    match language {
        Language::En => locales.en,
        Language::ZhCn => locales.zh_cn,
    }
}

/// The texts of one language.
pub struct Catalog {
    language: Language,
    entries: TextMap<String>,
}

fn lines(text: &str) -> (r: Vec<String>)
    ensures
        r.deep_view() == lines_of(text@),
{
    let parts = split_at_each(text, '\n');
    let ghost all = parts.deep_view();
    let ghost strip = |line: Seq<char>| without_return(line);
    let ghost ended = all.drop_last().map_values(strip);
    let mut r: Vec<String> = Vec::new();
    let last: usize = parts.len() - 1;
    let mut i: usize = 0;
    assert(r.deep_view() =~= ended.take(0));
    while i < last
        invariant
            i <= last,
            last == parts@.len() - 1,
            all == parts.deep_view(),
            strip == (|line: Seq<char>| without_return(line)),
            ended == all.drop_last().map_values(strip),
            r.deep_view() == ended.take(i as int),
        decreases last - i,
    {
        let ghost before = r.deep_view();
        let line = match strip_suffix(parts[i].as_str(), "\r") {
            Some(rest) => rest,
            None => parts[i].clone(),
        };
        proof {
            assert(all.drop_last()[i as int] == parts@[i as int]@);
            assert(line@ == ended[i as int]);
        }
        r.push(line);
        assert(r.deep_view() =~= before.push(line@));
        assert(r.deep_view() =~= ended.take(i as int + 1));
        i += 1;
    }
    proof {
        assert(ended.take(i as int) =~= ended);
        assert(all.last() == parts@[last as int]@);
    }
    if chars_of(parts[last].as_str()).len() > 0 {
        let ghost before = r.deep_view();
        r.push(parts[last].clone());
        assert(r.deep_view() =~= before.push(all.last()));
    }
    r
}

impl Catalog {
    /// The texts by their keys.
    pub closed spec fn texts(&self) -> Map<Seq<char>, Seq<char>> {
        self.entries@
    }

    /// The language of the texts.
    pub closed spec fn tongue(&self) -> Language {
        self.language
    }

    /// The texts of a language.
    pub fn new(language: Language, locales: &Locales) -> (r: Self)
        ensures
            r.tongue() == language,
            r.texts() == entries_of(lines_of(file_of(locales.deep_view(), language))),
    {
        let source = match language {
            Language::En => locales.en.as_str(),
            Language::ZhCn => locales.zh_cn.as_str(),
        };
        let lines = lines(source);
        let ghost all = lines.deep_view();
        let mut entries: TextMap<String> = TextMap::new();
        let mut i: usize = 0;
        assert(all.take(0) =~= Seq::empty());
        while i < lines.len()
            invariant
                i <= lines@.len(),
                all == lines.deep_view(),
                entries@ == entries_of(all.take(i as int)),
            decreases lines.len() - i,
        {
            proof {
                assert(all.take(i as int + 1).drop_last() =~= all.take(i as int));
                assert(all.take(i as int + 1).last() == lines@[i as int]@);
            }
            match split_once(lines[i].as_str(), '=') {
                Some((key, text)) => {
                    entries.insert(key, text);
                },
                None => {},
            }
            i += 1;
        }
        assert(all.take(i as int) =~= all);
        Catalog { language, entries }
    }

    pub fn language(&self) -> (r: Language)
        ensures
            r == self.tongue(),
    {
        self.language
    }

    /// The text under a key; a key without a text stands for itself.
    pub fn text<'a>(&'a self, key: &'a str) -> (r: &'a str)
        ensures
            r@ == text_under(self.texts(), key@),
    {
        match self.entries.get(key) {
            Some(text) => text.as_str(),
            None => key,
        }
    }
}

/// The text under a key; a key without a text stands for itself.
pub open spec fn text_under(texts: Map<Seq<char>, Seq<char>>, key: Seq<char>) -> Seq<char> {
    if texts.contains_key(key) {
        texts[key]
    } else {
        key
    }
}

} // verus!
