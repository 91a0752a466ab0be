use bikeshed::fix::{fix_typography, replace_macros};

fn macros() -> Vec<(String, String)> {
    vec![
        ("title".to_string(), "Bikeshedding".to_string()),
        ("level-1".to_string(), "1".to_string()),
    ]
}

#[test]
fn bracketed_macros_are_expanded() {
    assert_eq!(replace_macros("[TITLE] Level [LEVEL-1]", &macros()), "Bikeshedding Level 1");
    assert_eq!(replace_macros("[UNKNOWN] and [lower]", &macros()), "[UNKNOWN] and [lower]");
    assert_eq!(replace_macros("[[TITLE]]", &macros()), "[Bikeshedding]");
    assert_eq!(replace_macros("[]", &macros()), "[]");
}

#[test]
fn apostrophes_become_typographic() {
    assert_eq!(fix_typography("don't"), "don\u{2019}t");
    assert_eq!(fix_typography("'quoted'"), "'quoted'");
    assert_eq!(fix_typography("a'b'c"), "a\u{2019}b'c");
}
