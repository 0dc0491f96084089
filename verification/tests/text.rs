use codex_vault::domain::Language;
use codex_vault::i18n::{Catalog, Locales};
use codex_vault::ordered::{stable_sort, TextMap, TextSet};
use codex_vault::path::{
    components_before, components_of, file_name, is_absolute, is_below, join_path, key_of_path,
    path_parts, relative_path, split_at_each,
};
use codex_vault::text::{
    contains, decimal_text, ends_with, join, less, parse_signed, parse_unsigned, push_decimal,
    same_ascii_case, signed_decimal_text, split_once, split_whitespace, strip_prefix, strip_suffix,
    trim,
};
use codex_vault::tree::ByText;

fn list(values: &[&str]) -> Vec<String> {
    values.iter().map(|value| (*value).to_owned()).collect()
}

#[test]
fn numbers_are_read_back() {
    for n in [0, 7, 10, 99_999, u64::MAX] {
        assert_eq!(decimal_text(n), n.to_string());
        assert_eq!(parse_unsigned(&decimal_text(n), u64::MAX), Some(n));
    }
    for n in [0, -1, 42, i64::MIN, i64::MAX] {
        assert_eq!(signed_decimal_text(n), n.to_string());
        assert_eq!(parse_signed(&signed_decimal_text(n)), Some(n));
    }
    let mut text = String::from("n=");
    push_decimal(&mut text, u128::MAX);
    assert_eq!(text, format!("n={}", u128::MAX));
}

#[test]
fn numbers_are_read_as_std_reads_them() {
    for text in [
        "", "+", "-", "+5", "-5", "007", " 5", "5 ", "1_000", "٣", "256", "255", "-0", "+-1",
    ] {
        assert_eq!(
            parse_unsigned(text, u64::from(u8::MAX)),
            text.parse::<u8>().ok().map(u64::from),
            "{text}"
        );
        assert_eq!(parse_signed(text), text.parse::<i64>().ok(), "{text}");
    }
    assert_eq!(parse_signed("9223372036854775808"), None);
    assert_eq!(parse_signed("-9223372036854775808"), Some(i64::MIN));
    assert_eq!(parse_unsigned("18446744073709551616", u64::MAX), None);
}

#[test]
fn text_is_searched_as_std_searches_it() {
    for (hay, needle) in [
        ("", ""),
        ("abc", ""),
        ("abc", "bc"),
        ("abc", "ac"),
        ("aab", "ab"),
        ("会话", "话"),
        ("a", "ab"),
    ] {
        assert_eq!(contains(hay, needle), hay.contains(needle));
        assert_eq!(ends_with(hay, needle), hay.ends_with(needle));
        assert_eq!(
            strip_prefix(hay, needle),
            hay.strip_prefix(needle).map(str::to_owned)
        );
        assert_eq!(
            strip_suffix(hay, needle),
            hay.strip_suffix(needle).map(str::to_owned)
        );
        assert_eq!(less(hay, needle), hay < needle);
        assert_eq!(less(needle, hay), needle < hay);
    }
    assert!(less("z", "é"));
    assert!(less("\u{ffff}", "🙂"));
}

#[test]
fn text_is_split_as_std_splits_it() {
    for text in ["", " ", "a", " a  b\t\nc ", "a\u{3000}b\u{a0}c", "\u{200b}x"] {
        let words: Vec<&str> = text.split_whitespace().collect();
        assert_eq!(split_whitespace(text), list(&words));
        assert_eq!(trim(text), text.trim());
    }
    for text in ["", ":", "a:b:c", "ab"] {
        assert_eq!(
            split_once(text, ':'),
            text.split_once(':')
                .map(|(a, b)| (a.to_owned(), b.to_owned()))
        );
        let parts: Vec<&str> = text.split(':').collect();
        assert_eq!(split_at_each(text, ':'), list(&parts));
    }
    assert_eq!(join(&list(&["a", "b", "c"]), ", "), "a, b, c");
    assert_eq!(join(&vec![], ", "), "");
    assert!(same_ascii_case("FAILED:x", "failed:X"));
    assert!(!same_ascii_case("É", "é"));
}

#[test]
fn sets_and_maps_keep_string_order() {
    let mut set = TextSet::new();
    assert!(set.insert("b".into()));
    assert!(set.insert("a".into()));
    assert!(!set.insert("b".into()));
    assert_eq!(set.items(), &list(&["a", "b"]));
    assert!(set.remove("a"));
    assert!(!set.remove("a"));
    assert_eq!(set.len(), 1);
    assert!(set.contains("b"));
    assert_eq!(set.clone(), set);

    let mut map: TextMap<u64> = TextMap::new();
    assert_eq!(map.insert("y".into(), 2), None);
    assert_eq!(map.insert("x".into(), 1), None);
    assert_eq!(map.insert("y".into(), 3), Some(2));
    assert_eq!(map.keys(), &list(&["x", "y"]));
    assert_eq!(map.get("y"), Some(&3));
    assert_eq!(map.remove("x"), Some(1));
    assert_eq!(map.get("x"), None);
    assert_eq!(map.len(), 1);
}

#[test]
fn sorting_orders_and_keeps_every_item() {
    let sorted = stable_sort::<String, ByText>(list(&["c", "a", "b", "a"]));
    assert_eq!(sorted, list(&["a", "a", "b", "c"]));
}

#[test]
fn paths_are_compared_by_their_parts() {
    assert!(is_absolute("/a"));
    assert!(!is_absolute("a"));
    assert_eq!(path_parts("/a//b/./c/"), list(&["a", "b", "c"]));
    assert!(is_below("/a/b/c", "/a/b"));
    assert!(!is_below("/a/bc", "/a/b"));
    assert!(!is_below("/a/b/../c", "/x"));
    assert_eq!(join_path("/a", "b"), "/a/b");
    assert_eq!(join_path("/a/", "b"), "/a/b");
    assert_eq!(join_path("/a", "/b"), "/b");
    assert_eq!(file_name("/a/b.jsonl"), Some("b.jsonl".into()));
    assert_eq!(file_name("/"), None);
    assert_eq!(relative_path("/a/b/c", "/a"), Some("b/c".into()));
    assert_eq!(relative_path("/a/b/c", "/x"), None);
}

#[test]
fn catalogs_fall_back_to_the_key() {
    let locales = Locales {
        en: "title=Codex Vault\r\nno separator\nempty=\ntwice=1\ntwice=a=b".into(),
        zh_cn: "title=会话库".into(),
    };
    let catalog = Catalog::new(Language::En, &locales);
    assert_eq!(catalog.language(), Language::En);
    assert_eq!(catalog.text("title"), "Codex Vault");
    assert_eq!(catalog.text("empty"), "");
    assert_eq!(catalog.text("twice"), "a=b");
    assert_eq!(catalog.text("missing"), "missing");
    assert_eq!(
        Catalog::new(Language::ZhCn, &locales).text("title"),
        "会话库"
    );
}

#[test]
fn paths_are_compared_by_their_components() {
    assert_eq!(components_of("/a//b/."), list(&["/", "a", "b"]));
    assert_eq!(components_of("./a/../b"), list(&[".", "a", "..", "b"]));
    assert_eq!(components_of("a/./b"), list(&["a", "b"]));
    assert!(components_of("").is_empty());
    assert_eq!(key_of_path("h//sessions/./s"), "h/sessions/s");
    assert_eq!(key_of_path(".//h"), "./h");
    assert_eq!(key_of_path("//h/"), "/h");
    assert_eq!(key_of_path("."), "./");
    let before = |a: &str, b: &str| components_before(&components_of(a), &components_of(b));
    for (a, b) in [("/b", "./a"), ("./b", "../a"), ("../b", "a"), ("a", "a/b"), ("a/b", "a-b")] {
        assert!(before(a, b));
        assert!(!before(b, a));
    }
    assert!(!before("a", "a"));
}
