use quic_proxy::text::{append_decimal, chars_of, split_once, str_eq};

#[test]
fn split_once_like_std() {
    for (s, p) in [("a: b: c", ": "), ("user:pass", ":"), ("none", ":"), ("", " "), ("x", ""), ("héllo wörld", " ")] {
        let expected = s.split_once(p).map(|(a, b)| (a.to_string(), b.to_string()));
        assert_eq!(split_once(s, p), expected, "{s:?} at {p:?}");
    }
}

#[test]
fn string_equality() {
    assert!(str_eq("abc", "abc"));
    assert!(str_eq("", ""));
    assert!(!str_eq("abc", "abd"));
    assert!(!str_eq("ab", "abc"));
    assert!(str_eq("é", "é"));
}

#[test]
fn chars_in_order() {
    assert_eq!(chars_of("aé😀"), vec!['a', 'é', '😀']);
}

#[test]
fn decimal_notation() {
    for n in [0u16, 7, 10, 80, 443, 1080, 65535] {
        let mut out = String::from("p=");
        append_decimal(&mut out, n);
        assert_eq!(out, format!("p={n}"));
    }
}
