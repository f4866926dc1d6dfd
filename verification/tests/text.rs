use std::path::Path;

use wt::assoc::{copy, overlay, sorted_set, Assoc};
use wt::json::{field, parse, Kind, Scalar};
use wt::order::{key_not_after, number_part, option_part, sort, text_part};
use wt::path;
use wt::text;

fn strings(values: &[&str]) -> Vec<String> {
    values.iter().map(|value| value.to_string()).collect()
}

#[test]
fn splitting_and_joining_undo_each_other() {
    for value in ["", ":", "a", "a:b", ":a::b:", "é:日:"] {
        let parts = text::split_on(value, ':');
        assert_eq!(text::join_with(&parts, ":"), value);
        assert_eq!(parts, value.split(':').collect::<Vec<_>>());
    }
}

#[test]
fn pieces_are_cut_as_std_cuts_them() {
    assert_eq!(text::split_once("a=b=c", '='), Some((String::from("a"), String::from("b=c"))));
    assert_eq!(text::split_once("abc", '='), None);
    assert_eq!(text::strip_prefix("refs/heads/x", "refs/heads/").as_deref(), Some("x"));
    assert_eq!(text::strip_prefix("refs/x", "refs/heads/"), None);
    assert_eq!(text::strip_suffix("repo.git", ".git").as_deref(), Some("repo"));
    assert_eq!(text::strip_suffix("repo", ".git"), None);
    assert!(text::contains("abcabd", "abd") && text::contains("x", "") && !text::contains("x", "xy"));
    assert!(text::starts_with("été", "ét") && !text::starts_with("e", "ét"));
    assert!(text::ends_with("été", "té") && !text::ends_with("e", "ee"));
}

#[test]
fn lines_words_and_trims_follow_std() {
    for value in ["", "\n", "a\r\nb\n\nc", "a\r", " \t a  b\u{a0}c\u{3000}", "\n\n"] {
        assert_eq!(text::lines_of(value), value.lines().collect::<Vec<_>>(), "{value:?}");
        assert_eq!(text::words_of(value), value.split_whitespace().collect::<Vec<_>>());
        assert_eq!(text::trimmed(value), value.trim());
        assert_eq!(text::trimmed_end(value), value.trim_end());
        assert_eq!(text::trimmed_start(value), value.trim_start());
    }
    for code in 0..0x3100u32 {
        if let Some(c) = char::from_u32(code) {
            assert_eq!(text::space(c), c.is_whitespace(), "{code:x}");
        }
    }
}

#[test]
fn a_number_reads_back() {
    for n in [0, 7, 10, 99, 4096, u64::MAX] {
        let said = text::decimal_of(n);
        assert_eq!(said, n.to_string());
        assert_eq!(text::parse_number(&said, u64::MAX), Some(n));
    }
    assert_eq!(text::signed_decimal_of(i64::MIN), i64::MIN.to_string());
    assert_eq!(text::signed_decimal_of(-1), "-1");
    assert_eq!(text::zero_padded_of(7, 3), "007");
    assert_eq!(text::zero_padded_of(1234, 3), "1234");
    assert_eq!(text::parse_number("+12", 12), Some(12));
    assert_eq!(text::parse_number("13", 12), None);
    assert_eq!(text::parse_number("", 12), None);
    assert_eq!(text::parse_number("+", 12), None);
    assert_eq!(text::parse_number("-1", 12), None);
    assert_eq!(text::parse_number("1x", 12), None);
}

#[test]
fn text_is_padded_replaced_and_lowered() {
    assert_eq!(text::padded_right("é", 3), "é  ");
    assert_eq!(text::padded_right("abc", 2), "abc");
    assert_eq!(text::replaced("it's", '\'', "'\\''"), "it'\\''s");
    assert_eq!(text::lowered("MiXeD É"), "mixed É");
    assert_eq!(text::repeated('=', 3), "===");
}

#[test]
fn bytes_that_are_no_text_get_a_mark() {
    assert_eq!(text::lossy("grün".as_bytes()), "grün");
    assert_eq!(text::lossy(&[b'a', 0xff, b'b']), "a\u{fffd}b");
    assert_eq!(text::split_bytes_on(b"a\0b\0", 0), vec![b"a".to_vec(), b"b".to_vec(), Vec::new()]);
}

#[test]
fn paths_are_taken_apart_as_std_takes_them() {
    for value in [
        "", "/", ".", "./a", "a/./b", "/a//b/", "../x", "a/..", "/..", "a.tar.gz", ".hidden",
        "/x//y/z", "//a", "//", "/.", "./.", "a/b/", "a//b", "/a/./b//c/.", "a/./.", "/a/.b/..c",
        "b/c//d/./", "./a//b", "a/b/.", "..//x/.",
    ] {
        let std_path = Path::new(value);
        let parts: Vec<String> =
            std_path.components().map(|c| c.as_os_str().to_string_lossy().into_owned()).collect();
        assert_eq!(path::parts_of(value), parts, "{value:?}");
        assert_eq!(
            path::file_name(value),
            std_path.file_name().map(|n| n.to_string_lossy().into_owned()),
            "{value:?}"
        );
        assert_eq!(
            path::parent(value),
            std_path.parent().map(|p| p.to_string_lossy().into_owned()),
            "{value:?}"
        );
        assert_eq!(path::is_absolute(value), std_path.is_absolute());
        for other in ["", "/", "a", "/a", "..", "b/c", ".", "a/b", "/x"] {
            assert_eq!(path::join(value, other), std_path.join(other).to_string_lossy());
            assert_eq!(path::starts_with(value, other), std_path.starts_with(other));
            assert_eq!(path::same(value, other), std_path == Path::new(other));
            assert_eq!(
                path::strip_base(value, other),
                std_path.strip_prefix(other).ok().map(|p| p.to_string_lossy().into_owned()),
                "{value:?} below {other:?}"
            );
        }
    }
    assert_eq!(path::split_name("a.tar.gz"), (String::from("a.tar"), Some(String::from("gz"))));
    assert_eq!(path::split_name(".hidden"), (String::from(".hidden"), None));
    assert_eq!(path::split_name("plain"), (String::from("plain"), None));
}

#[test]
fn paths_sort_as_std_sorts_them() {
    let all = ["/a", "a", ".", "..", "-x", "/a/b", "/a-b", "/", "../a", "./a", "é", "z"];
    for a in all {
        for b in all {
            assert_eq!(
                key_not_after(&path::key_of(a), &path::key_of(b)),
                Path::new(a) <= Path::new(b),
                "{a} {b}"
            );
        }
    }
}

#[test]
fn keys_compare_from_the_left() {
    let key = |a: &str, n: u64| vec![text_part(a), number_part(n)];
    assert!(key_not_after(&key("a", 2), &key("b", 1)));
    assert!(key_not_after(&key("a", 1), &key("a", 2)));
    assert!(!key_not_after(&key("ab", 0), &key("a", 9)));
    assert!(key_not_after(&vec![option_part(&None)], &vec![option_part(&Some(String::new()))]));
    assert!(!key_not_after(&vec![option_part(&Some(String::new()))], &vec![option_part(&None)]));
}

#[test]
fn sorting_keeps_equals_in_their_order() {
    let listed: Vec<wt::fsx::Listed> = ["/b", "/a/", "/b/.", "/a"]
        .iter()
        .map(|p| wt::fsx::Listed { path: p.to_string() })
        .collect();
    let sorted: Vec<String> = sort(listed).into_iter().map(|l| l.path).collect();
    assert_eq!(sorted, strings(&["/a/", "/a", "/b", "/b/."]));
}

#[test]
fn a_map_keeps_its_keys_in_order_and_once() {
    let mut map: Assoc<u8> = Assoc::new();
    map.put("b", 1);
    map.put("a", 2);
    map.put("c", 3);
    map.put("b", 4);
    let keys: Vec<&str> = map.entries.iter().map(|entry| entry.0.as_str()).collect();
    assert_eq!(keys, ["a", "b", "c"]);
    assert_eq!(map.get("b"), Some(&4));
    assert_eq!(map.get("d"), None);
    assert!(map.remove("a"));
    assert!(!map.remove("a"));
    assert_eq!(map.find("c"), Some(1));
}

#[test]
fn what_is_laid_over_a_map_stands() {
    let mut base: Assoc<String> = Assoc::new();
    base.put("KEEP", "base".into());
    base.put("BOTH", "base".into());
    let mut over: Assoc<String> = Assoc::new();
    over.put("BOTH", "over".into());
    over.put("NEW", "over".into());
    let all = overlay(copy(&base), &over);
    let get = |key: &str| all.get(key).map(String::as_str);
    assert_eq!(get("KEEP"), Some("base"));
    assert_eq!(get("BOTH"), Some("over"));
    assert_eq!(get("NEW"), Some("over"));
    assert_eq!(sorted_set(&strings(&["b", "a", "b"])), strings(&["a", "b"]));
}

#[test]
fn a_document_is_read_into_plain_values() {
    let j = parse(br#"{"a": [1, -2, 1.5, null], "t": "x", "yes": true}"#).unwrap();
    assert_eq!(j.compact, r#"{"a":[1,-2,1.5,null],"t":"x","yes":true}"#);
    assert_eq!(j.get("t").and_then(|v| v.as_text()).map(String::as_str), Some("x"));
    assert_eq!(j.get("yes").and_then(|v| v.as_bool()), Some(true));
    let Kind::List(list) = &j.get("a").unwrap().kind else {
        panic!("a list");
    };
    assert_eq!(list[0].as_natural(), Some(1));
    assert_eq!(list[1].as_natural(), None);
    assert_eq!(list[2].as_natural(), None);
    assert!(matches!(list[3].kind, Kind::Null));
    assert!(j.get("none").is_none());
    assert!(parse(b"{").is_none());
    let f = field("k", Scalar::Natural(3));
    assert_eq!(f.0, "k");
    assert!(matches!(f.1, Scalar::Natural(3)));
}

#[test]
fn texts_are_found_in_lists_and_held_against_options() {
    let list = vec!["a".to_string(), "b".to_string()];
    assert!(wt::text::listed(&list, "b") && !wt::text::listed(&list, "c"));
    let a = Some("a".to_string());
    assert!(wt::text::same_option(&a, &a) && wt::text::same_option(&None, &None));
    assert!(!wt::text::same_option(&a, &None));
    assert!(wt::text::is_some_text(&a, "a") && !wt::text::is_some_text(&None, "a"));
}
