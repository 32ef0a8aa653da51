use tcgscan::text::{chars_of, replace_all};

#[test]
fn chars_of_copies_every_char() {
    assert_eq!(chars_of("a$é"), vec!['a', '$', 'é']);
    assert_eq!(chars_of(""), Vec::<char>::new());
}

#[test]
fn replace_all_removes_every_occurrence() {
    assert_eq!(replace_all("$1$2$", "$", ""), "12");
    assert_eq!(replace_all("no dollars", "$", ""), "no dollars");
}

#[test]
fn replace_all_takes_leftmost_non_overlapping_matches() {
    assert_eq!(replace_all("aaa", "aa", "b"), "ba");
    assert_eq!(replace_all("aaaa", "aa", "b"), "bb");
}

#[test]
fn replace_all_with_empty_pattern_matches_std() {
    assert_eq!(replace_all("abc", "", "x"), "xaxbxcx");
    assert_eq!(replace_all("", "", "x"), "x");
}

#[test]
fn replace_all_agrees_with_std_replace() {
    let cases = [
        ("from\":0,\"size\":24", "from\":0", "from\":48"),
        ("abcabc", "bc", "X"),
        ("ab", "abc", "Z"),
        ("héhé", "é", "e"),
        ("xyz", "", "-"),
    ];
    for (s, p, r) in cases {
        assert_eq!(replace_all(s, p, r), s.replace(p, r));
    }
}
