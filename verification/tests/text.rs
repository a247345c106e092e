use rpg_top::text::replace_str;

#[test]
fn replace_str_replaces_every_occurrence() {
    assert_eq!(replace_str("client backend", " backend", ""), "client");
    assert_eq!(replace_str("aaaa", "aa", "b"), "bb");
    assert_eq!(replace_str("abc", "x", "y"), "abc");
}

#[test]
fn replace_str_with_empty_pattern_matches_every_boundary() {
    assert_eq!(replace_str("abc", "", "x"), "xaxbxcx");
    assert_eq!(replace_str("", "", "x"), "x");
    assert_eq!(replace_str("ab", "", ""), "ab");
}
