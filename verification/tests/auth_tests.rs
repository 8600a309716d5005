use podping::auth::AuthTable;

fn table() -> AuthTable {
    let mut t = AuthTable::new();
    // twenty-two characters of prefix, then a secret tail
    t.add_record("alice".to_string(), "AAAABBBBCCCCDDDDEEEE11-tail-one".to_string());
    t.add_record("bob".to_string(), "ZZZZYYYYXXXXWWWWVVVV22".to_string());
    t
}

#[test]
fn exact_lookup_finds_the_publisher() {
    let t = table();
    assert_eq!(t.check_auth("ZZZZYYYYXXXXWWWWVVVV22"), Some("bob".to_string()));
}

#[test]
fn exact_lookup_misses_on_other_tokens() {
    let t = table();
    assert_eq!(t.check_auth("AAAABBBBCCCCDDDDEEEE11"), None);
    assert_eq!(t.check_auth(""), None);
}

#[test]
fn hybrid_lookup_matches_on_the_first_twenty_two_characters() {
    let t = table();
    let token = "AAAABBBBCCCCDDDDEEEE11-some-other-tail";
    assert_eq!(t.check_auth_hybrid(token), Some("alice".to_string()));
}

#[test]
fn hybrid_lookup_misses_on_a_wrong_prefix() {
    let t = table();
    assert_eq!(t.check_auth_hybrid("wrongtokenwrongtokenwr-and-more"), None);
}

#[test]
fn hybrid_lookup_misses_on_a_short_token() {
    let t = table();
    assert_eq!(t.check_auth_hybrid("AAAABBBBCCCCDDDDEEEE1"), None);
}

#[test]
fn publishers_come_back_in_insertion_order() {
    let t = table();
    let names: Vec<String> = t.get_publishers().into_iter().map(|p| p.name).collect();
    assert_eq!(names, vec!["alice".to_string(), "bob".to_string()]);
}
