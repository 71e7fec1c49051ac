use roki_daemon::config::{validate_ghq_identifier, AssigneeSpec};
use roki_daemon::json::{Json, JsonNumber};
use roki_daemon::strmap::{StrMap, StrSet};
use roki_daemon::text::{
    contains, decimal_text, ends_with, eq_ignore_case, lines, parse_u64, replace_all,
    starts_with, str_lt, trim,
};

#[test]
fn map_keeps_its_keys_in_order() {
    let mut m: StrMap<u8> = StrMap::new();
    m.insert("b".to_owned(), 2);
    m.insert("a".to_owned(), 1);
    m.insert("b".to_owned(), 3);
    assert_eq!(m.len(), 2);
    assert_eq!(m.keys(), vec!["a".to_owned(), "b".to_owned()]);
    assert_eq!(m.get("b"), Some(&3));
    assert_eq!(m.get("c"), None);
    assert_eq!(m.remove("a"), Some(1));
    assert_eq!(m.remove("a"), None);
    assert_eq!(m.into_entries(), vec![("b".to_owned(), 3)]);
}

#[test]
fn set_holds_each_name_once() {
    let names: Vec<String> = ["b", "a", "b"].iter().map(|s| s.to_string()).collect();
    let s = StrSet::from_names(&names);
    assert_eq!(s.names(), vec!["a".to_owned(), "b".to_owned()]);
    assert!(s.contains("a"));
    assert!(!s.contains("c"));
}

#[test]
fn texts_are_searched_like_those_of_the_platform() {
    let cases = ["", "a", "ab", "aba", "ababa", "é", "b é a"];
    for hay in cases {
        for needle in cases {
            assert_eq!(contains(hay, needle), hay.contains(needle));
            assert_eq!(starts_with(hay, needle), hay.starts_with(needle));
            assert_eq!(ends_with(hay, needle), hay.ends_with(needle));
            assert_eq!(str_lt(hay, needle), hay < needle);
            if !needle.is_empty() {
                assert_eq!(replace_all(hay, needle, "*"), hay.replace(needle, "*"));
            }
        }
    }
}

#[test]
fn lines_are_split_like_those_of_the_platform() {
    for text in ["", "\n", "a", "a\n", "a\r\nb", "a\n\nb\n", "\r\n", "a\rb\r"] {
        let expected: Vec<&str> = text.lines().collect();
        assert_eq!(lines(text), expected, "{text:?}");
    }
}

#[test]
fn blanks_are_trimmed_like_those_of_the_platform() {
    for text in ["", " ", " a ", "\t\na b\r\n", "\u{a0}x\u{3000}", "\u{200b}x"] {
        assert_eq!(trim(text), text.trim(), "{text:?}");
    }
}

#[test]
fn numbers_are_read_and_written() {
    for n in [0, 7, 10, 99, 12_345, u64::MAX] {
        assert_eq!(decimal_text(n), n.to_string());
        assert_eq!(parse_u64(&n.to_string()), Some(n));
    }
    for text in ["", "-1", "+1", "+", "1x", " 1", "18446744073709551616", "007"] {
        assert_eq!(parse_u64(text), text.parse::<u64>().ok(), "{text:?}");
    }
}

#[test]
fn case_is_ignored_for_plain_letters() {
    assert!(eq_ignore_case("Linear-Signature", "LINEAR-signature"));
    assert!(!eq_ignore_case("é", "É"));
    assert!(!eq_ignore_case("a", "ab"));
}

#[test]
fn members_of_a_value() {
    let v = Json::Object(vec![
        ("n".to_owned(), Json::Number(JsonNumber::Unsigned(5))),
        ("m".to_owned(), Json::Number(JsonNumber::Negative(-5))),
        ("t".to_owned(), Json::Text("x".to_owned())),
        ("l".to_owned(), Json::Array(vec![Json::Null])),
    ]);
    assert_eq!(v.get("n").unwrap().as_u64(), Some(5));
    assert_eq!(v.get("n").unwrap().as_i64(), Some(5));
    assert_eq!(v.get("m").unwrap().as_u64(), None);
    assert_eq!(v.get("m").unwrap().as_i64(), Some(-5));
    assert_eq!(v.get_str("t"), Some("x"));
    assert_eq!(v.get_str("n"), None);
    assert_eq!(v.get("l").unwrap().as_array().unwrap().len(), 1);
    assert_eq!(v.get("z"), None);
    assert_eq!(v.duplicate(), v);
}

#[test]
fn identifiers_of_repositories() {
    for good in ["owner/repo", "github.com/owner/repo"] {
        assert!(validate_ghq_identifier(good), "{good}");
    }
    for bad in ["", "repo", "/abs/x", "owner/", "a/b/c/d", "owner//repo", "a b/c"] {
        assert!(!validate_ghq_identifier(bad), "{bad}");
    }
}

#[test]
fn raw_assignee() {
    assert_eq!(AssigneeSpec::Me.raw(), "me");
    assert_eq!(AssigneeSpec::Selector("a@b".to_owned()).raw(), "a@b");
}
