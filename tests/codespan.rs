use bikeshed::codespan::CodeSpanManager;

#[test]
fn code_spans_are_kept_apart() {
    let m = CodeSpanManager::new("Use `a<b` here".to_string());
    assert_eq!(m.text_pieces, vec!["Use ".to_string(), " here".to_string()]);
    assert_eq!(m.code_pieces, vec!["a<b".to_string()]);
    assert_eq!(m.extract(), "Use <code>a&lt;b</code> here");
}

#[test]
fn escapes_and_unclosed_spans() {
    let m = CodeSpanManager::new("a\\`b".to_string());
    assert_eq!(m.text_pieces, vec!["a`".to_string(), "b".to_string()]);
    assert_eq!(m.extract(), "a`b");
    let m = CodeSpanManager::new("x ``y` z".to_string());
    assert_eq!(m.text_pieces, vec!["x ".to_string(), "``y` z".to_string()]);
    assert!(m.code_pieces.is_empty());
}

#[test]
fn only_text_pieces_are_rewritten() {
    let mut m = CodeSpanManager::new("say `it` now".to_string());
    m.map_text_pieces(|s: &String| s.to_uppercase());
    assert_eq!(m.extract(), "SAY <code>it</code> NOW");
}
