use verbump::text::{chars_of, replace, same_text, text_of};
use verbump::version::{read_component, validate_query, Query, Version};

fn version(text: &str) -> Version {
    Version::from_str(text).unwrap()
}

fn after(text: &str, query: Query) -> String {
    let mut v = version(text);
    assert!(v.can_bump(&query));
    v.bump(query);
    v.to_string()
}

#[test]
fn bump_patch() {
    assert_eq!(after("1.2.3", Query::Patch), "1.2.4");
}

#[test]
fn bump_minor_resets_patch() {
    assert_eq!(after("1.2.3", Query::Minor), "1.3.0");
}

#[test]
fn bump_major_resets_minor_and_patch() {
    assert_eq!(after("1.2.3", Query::Major), "2.0.0");
}

#[test]
fn bump_explicit_replaces_the_version() {
    assert_eq!(after("1.2.3", Query::Version(version("2.5.9"))), "2.5.9");
}

#[test]
fn bump_across_a_power_of_ten() {
    assert_eq!(after("9.99.999", Query::Patch), "9.99.1000");
    assert_eq!(after("9.99.999", Query::Minor), "9.100.0");
    assert_eq!(after("9.99.999", Query::Major), "10.0.0");
}

#[test]
fn the_largest_component_cannot_be_bumped() {
    let v = version("18446744073709551615.18446744073709551614.18446744073709551615");
    assert!(!v.can_bump(&Query::Major));
    assert!(v.can_bump(&Query::Minor));
    assert!(!v.can_bump(&Query::Patch));
    assert!(v.can_bump(&Query::Version(version("0.0.0"))));
    assert_eq!(
        after("18446744073709551615.18446744073709551614.18446744073709551615", Query::Minor),
        "18446744073709551615.18446744073709551615.0"
    );
    assert_eq!(after("65535.65535.65535", Query::Patch), "65535.65535.65536");
    assert_eq!(after("65535.65535.65535", Query::Major), "65536.0.0");
}

#[test]
fn a_version_is_written_as_it_was_read() {
    for text in [
        "0.0.0", "0.1.0", "1.2.3", "10.20.30", "65535.65535.65535", "65536.0.0", "100.0.7",
        "18446744073709551615.4294967296.0",
    ] {
        assert_eq!(version(text).to_string(), text);
    }
}

#[test]
fn what_is_no_version_is_refused() {
    for text in [
        "", "1", "1.2", "1.2.", ".1.2", "1..2", "1.2.3.4", "a.b.c", "1.2.x", "v1.2.3", "1.2.3 ",
        " 1.2.3", "1.2.3\n", "-1.2.3", "+1.2.3", "1,2,3", "\"1.2.3\"", "18446744073709551616.0.0",
        "0.18446744073709551616.0", "0.0.18446744073709551616", "99999999999999999999.0.0",
        "\u{661}.\u{662}.\u{663}",
    ] {
        assert_eq!(
            Version::from_str(text),
            Err("Invalid version format".to_string()),
            "{:?}",
            text
        );
    }
}

#[test]
fn versions_are_told_apart() {
    assert_eq!(version("1.2.3"), version("01.02.03"));
    assert_ne!(version("1.2.3"), version("1.2.4"));
    assert_ne!(version("1.2.3"), version("3.2.1"));
}

#[test]
fn components_are_runs_of_digits() {
    assert_eq!(read_component("0"), Some(0));
    assert_eq!(read_component("007"), Some(7));
    assert_eq!(read_component("65536"), Some(65536));
    assert_eq!(read_component("18446744073709551615"), Some(u64::MAX));
    assert_eq!(read_component("00018446744073709551615"), Some(u64::MAX));
    assert_eq!(read_component("18446744073709551616"), None);
    assert_eq!(read_component("184467440737095516150"), None);
    assert_eq!(read_component("99999999999999999999999999999999999999999999"), None);
    assert_eq!(read_component("70000x"), None);
    assert_eq!(read_component(""), None);
    assert_eq!(read_component("+5"), None);
    assert_eq!(read_component("1 "), None);
    assert_eq!(read_component("\u{661}"), None);
}

fn groups(texts: &[Option<&str>]) -> Vec<Option<String>> {
    texts.iter().map(|t| t.map(|s| s.to_string())).collect()
}

#[test]
fn a_version_is_built_from_four_groups() {
    let v = Version::from_captures(&groups(&[Some("1.2.3"), Some("1"), Some("2"), Some("3")]));
    assert_eq!(v, Ok(version("1.2.3")));
    let v = Version::from_captures(&groups(&[None, Some("10"), Some("0"), Some("65535")]));
    assert_eq!(v, Ok(version("10.0.65535")));
    let invalid = Err("Invalid version format".to_string());
    assert_eq!(Version::from_captures(&groups(&[Some("1.2"), Some("1"), Some("2")])), invalid);
    assert_eq!(
        Version::from_captures(&groups(&[Some("x"), Some("1"), None, Some("3")])),
        invalid
    );
    assert_eq!(
        Version::from_captures(&groups(&[Some("x"), Some("1"), Some("2"), Some("3"), Some("4")])),
        invalid
    );
    assert_eq!(
        Version::from_captures(&groups(&[Some("x"), Some("1"), Some("b"), Some("3")])),
        invalid
    );
    assert_eq!(Version::from_captures(&groups(&[])), invalid);
}

#[test]
fn the_bump_is_read_from_its_argument() {
    assert!(matches!(Query::from_arg(None), Ok(Query::Patch)));
    assert!(matches!(Query::from_arg(Some("patch")), Ok(Query::Patch)));
    assert!(matches!(Query::from_arg(Some("minor")), Ok(Query::Minor)));
    assert!(matches!(Query::from_arg(Some("major")), Ok(Query::Major)));
    match Query::from_arg(Some("2.5.9")) {
        Ok(Query::Version(v)) => assert_eq!(v.to_string(), "2.5.9"),
        _ => panic!("2.5.9 is a version"),
    }
    for text in ["Major", "patch ", "", "1.2", "18446744073709551616.1.1"] {
        match Query::from_arg(Some(text)) {
            Err(e) => assert_eq!(e, "Invalid version format"),
            Ok(_) => panic!("{:?} is no bump", text),
        }
    }
}

#[test]
fn the_argument_is_checked_by_its_form() {
    for text in ["major", "minor", "patch", "1.2.3", "0.0.0", "65536.0.0"] {
        assert!(Query::from_arg(Some(text)).is_ok(), "{:?}", text);
        assert_eq!(validate_query(text.to_string()), Ok(()), "{:?}", text);
    }
    for text in ["", "Major", "1.2", "1.2.3.4", "1.2.3-rc1", "x", "18446744073709551616.0.0"] {
        assert!(Query::from_arg(Some(text)).is_err(), "{:?}", text);
        assert_eq!(
            validate_query(text.to_string()),
            Err("Invalid version format".to_string()),
            "{:?}",
            text
        );
    }
}

#[test]
fn replace_writes_over_every_match_from_the_left() {
    assert_eq!(replace("a-b-c", "-", "+"), "a+b+c");
    assert_eq!(replace("a-b-c", "-", ""), "abc");
    assert_eq!(replace("aaa", "aa", "b"), "ba");
    assert_eq!(replace("abc", "abcd", "x"), "abc");
    assert_eq!(replace("abc", "abc", "x"), "x");
    assert_eq!(replace("", "a", "x"), "");
    assert_eq!(replace("ab", "", "-"), "-a-b-");
    assert_eq!(replace("", "", "-"), "-");
    assert_eq!(replace("x\u{e9}y\u{e9}", "\u{e9}", "e"), "xeye");
    for (s, from, to) in [("hello world", "o", "0"), ("aXbXX", "X", "YY"), ("abab", "ab", "ba")] {
        assert_eq!(replace(s, from, to), s.replace(from, to));
    }
}

#[test]
fn texts_and_characters() {
    assert_eq!(chars_of("a\u{e9}b"), vec!['a', '\u{e9}', 'b']);
    assert_eq!(chars_of(""), Vec::<char>::new());
    let chars = vec!['a', 'b', 'c', 'd'];
    assert_eq!(text_of(&chars, 1, 3), "bc");
    assert_eq!(text_of(&chars, 0, 4), "abcd");
    assert_eq!(text_of(&chars, 2, 2), "");
    assert!(same_text("abc", "abc"));
    assert!(!same_text("abc", "abd"));
    assert!(!same_text("abc", "ab"));
}
