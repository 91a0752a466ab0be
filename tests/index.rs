use bikeshed::index::{local_index_term, sort_index_terms, text_le_exec};

#[test]
fn local_terms_sorted_by_disambiguator() {
    let terms = vec![
        local_index_term("width".to_string(), "propdef-width", "property"),
        local_index_term("bikeshed".to_string(), "bikeshed", "dfn"),
        local_index_term("color".to_string(), "propdef-color", "property"),
        local_index_term("at-rule".to_string(), "descdef-x", "descriptor"),
    ];
    assert_eq!(terms[1].disambiguator, "definition of");
    assert_eq!(terms[1].url, "#bikeshed");
    assert_eq!(terms[1].label, "§Unnumbered section");
    let sorted = sort_index_terms(terms);
    let texts: Vec<&str> = sorted.iter().map(|t| t.link_text.as_str()).collect();
    assert_eq!(texts, vec!["bikeshed", "at-rule", "width", "color"]);
}

#[test]
fn text_order() {
    assert!(text_le_exec(&"abc".to_string(), &"abd".to_string()));
    assert!(text_le_exec(&"ab".to_string(), &"abc".to_string()));
    assert!(!text_le_exec(&"b".to_string(), &"abc".to_string()));
    assert!(text_le_exec(&"".to_string(), &"".to_string()));
}
