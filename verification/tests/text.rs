use cce_list::map::{Copied, OrdMap};
use cce_list::order::comes_before;
use cce_list::text;

fn chars(s: &str) -> Vec<char> {
    s.chars().collect()
}

#[test]
fn white_space_is_that_of_unicode() {
    for c in '\u{0}'..=char::MAX {
        assert_eq!(text::is_white_space(c), c.is_whitespace(), "{:?}", c);
    }
}

#[test]
fn trimming_agrees_with_strings() {
    for s in ["", " ", " a", "a ", "\u{3000}a b\u{a0}", "\t\n", "x", " \u{85}y\r\n "] {
        assert_eq!(text::trimmed_string(s), s.trim());
        let v = chars(s);
        assert_eq!(text::string_of(text::trimmed_end(&v)), s.trim_end());
        assert_eq!(text::string_of(text::trimmed_start(&v)), s.trim_start());
    }
}

#[test]
fn lines_agree_with_strings() {
    for s in ["", "\n", "a", "a\n", "a\n\nb", "a\r\nb\r", "\r\n", "a\rb\n", "x\ny\n\n"] {
        let v = chars(s);
        let got: Vec<String> = text::lines_of(&v).iter().map(|l| l.iter().collect()).collect();
        let want: Vec<String> = s.lines().map(String::from).collect();
        assert_eq!(got, want, "{:?}", s);
        let got: Vec<String> =
            text::split_at(&v, '\n').iter().map(|l| l.iter().collect()).collect();
        let want: Vec<String> = s.split('\n').map(String::from).collect();
        assert_eq!(got, want, "{:?}", s);
    }
}

#[test]
fn searching_agrees_with_strings() {
    for (s, p) in [
        ("abcabc", "bc"),
        ("abcabc", "x"),
        ("", "a"),
        ("aaa", "aa"),
        ("<!-- uid:", "<!-- uid:"),
        ("é/é/", "/"),
    ] {
        let (v, q) = (chars(s), chars(p));
        let at = |b: usize| s[..b].chars().count();
        assert_eq!(text::find_in(&v, &q), s.find(p).map(at));
        assert_eq!(text::rfind_in(&v, &q), s.rfind(p).map(at));
        assert_eq!(text::holds(s, p), s.contains(p));
        assert_eq!(text::starts_with(&v, &q), s.starts_with(p));
        assert_eq!(text::ends_with(&v, &q), s.ends_with(p));
        assert_eq!(text::string_of(text::up_to(&v, &q)), s.split(p).next().unwrap());
    }
}

#[test]
fn ascii_case_agrees_with_strings() {
    for s in ["", "VTODO", "vTodo", "straße É", "[@`{z", "AZaz09"] {
        assert_eq!(text::string_of(&text::to_ascii_upper(&chars(s))), s.to_ascii_uppercase());
        assert_eq!(text::string_of(&text::to_ascii_lower(&chars(s))), s.to_ascii_lowercase());
        for t in ["vtodo", "STRASSE", "az09AZ"] {
            assert_eq!(
                text::same_but_case(&chars(s), &chars(t)),
                s.eq_ignore_ascii_case(t)
            );
        }
    }
}

#[test]
fn numbers_are_written_in_decimal() {
    for n in [0u128, 1, 9, 10, 19, 20, 99, 100, 12345, u64::MAX as u128, u128::MAX] {
        assert_eq!(text::decimal_string(n), n.to_string());
    }
}

#[test]
fn texts_are_compared_as_strings_are() {
    let texts = ["", "a", "aa", "ab", "b", "A", "é", "z", "\u{ffff}", "\u{10000}", "a\u{0}"];
    for a in texts {
        for b in texts {
            assert_eq!(comes_before(a, b), a < b, "{:?} {:?}", a, b);
            assert_eq!(text::same_str(a, b), a == b);
        }
    }
}

#[test]
fn maps_are_walked_in_the_order_of_their_keys() {
    let mut m: OrdMap<String> = OrdMap::new();
    let mut reference = std::collections::BTreeMap::new();
    for (k, v) in [("b", "1"), ("a", "2"), ("ü", "3"), ("b", "4"), ("", "5"), ("Z", "6"), ("aa", "7")] {
        m.insert(k.to_string(), v.to_string());
        reference.insert(k.to_string(), v.to_string());
    }
    m.remove("aa");
    m.remove("not there");
    reference.remove("aa");
    assert_eq!(m.len(), reference.len());
    assert!(!m.is_empty());
    for (i, (k, v)) in reference.iter().enumerate() {
        assert_eq!(m.key_at(i), k);
        assert_eq!(m.value_at(i), v);
        assert_eq!(m.get(k), Some(v));
        assert!(m.contains_key(k));
    }
    assert_eq!(m.get("aa"), None);
    let copy = m.copied();
    assert_eq!(copy.len(), m.len());
    assert_eq!(copy.get("b"), Some(&"4".to_string()));
    assert!(OrdMap::<String>::new().is_empty());
}
