use wargamezr::text::{chars_of, decimal_string, replace, same_text, string_of, strip_prefix, trim};

#[test]
fn decimal_of_small_and_large_numbers() {
    assert_eq!(decimal_string(0), "0");
    assert_eq!(decimal_string(7), "7");
    assert_eq!(decimal_string(42), "42");
    assert_eq!(decimal_string(1000), "1000");
    assert_eq!(decimal_string(u64::MAX), u64::MAX.to_string());
}

#[test]
fn trim_removes_unicode_whitespace_on_both_ends() {
    assert_eq!(trim("  pw123 \n"), "pw123");
    assert_eq!(trim("\t\u{3000}a b\u{a0}"), "a b");
    assert_eq!(trim("   "), "");
    assert_eq!(trim(""), "");
    assert_eq!(trim("x"), "x");
}

#[test]
fn trim_matches_std_trim() {
    for s in ["  a ", "\n\n", "\u{2003}mid\u{2003}dle\u{85}", "no-space", " \u{1680}é "] {
        assert_eq!(trim(s), s.trim());
    }
}

#[test]
fn replace_matches_std_replace() {
    let cases = [
        ("hello {user}!", "{user}", "node3"),
        ("{user}{user}", "{user}", "x"),
        ("aaa", "aa", "b"),
        ("no match here", "{who}", "x"),
        ("ab", "", "X"),
        ("", "", "X"),
        ("", "a", "b"),
        ("a-b-c", "-", ""),
    ];
    for (s, from, to) in cases {
        assert_eq!(replace(s, from, to), s.replace(from, to), "{s:?} {from:?} {to:?}");
    }
}

#[test]
fn strip_prefix_matches_std() {
    assert_eq!(strip_prefix("--campaign=bandit", "--campaign="), Some("bandit".to_string()));
    assert_eq!(strip_prefix("--campaign", "--campaign="), None);
    assert_eq!(strip_prefix("abc", ""), Some("abc".to_string()));
    assert_eq!(strip_prefix("xabc", "abc"), None);
}

#[test]
fn chars_round_trip() {
    let v = chars_of("héllo ✓");
    assert_eq!(v, vec!['h', 'é', 'l', 'l', 'o', ' ', '✓']);
    assert_eq!(string_of(&v), "héllo ✓");
    assert!(same_text("abc", "abc"));
    assert!(!same_text("abc", "abd"));
    assert!(!same_text("abc", "ab"));
}

#[test]
fn trimming_twice_is_trimming_once() {
    for s in ["  a b  ", "\n\t", "x", " \u{205f}y\u{205f} "] {
        assert_eq!(trim(&trim(s)), trim(s));
    }
}
