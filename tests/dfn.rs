use bikeshed::dfn::{classify_dfn, process_dfns};
use bikeshed::reference::{Query, QueryMode, ReferenceManager};
use bikeshed::tree::{get_attr, insert_attr, Tree};

fn attr(tree: &Tree, i: usize, name: &str) -> Option<String> {
    get_attr(&tree.nodes[i].attrs, &name.to_string())
}

fn dfn_with_text(tree: &mut Tree, parent: usize, text: &str) -> usize {
    let d = tree.new_element("dfn".to_string(), Some(parent));
    tree.new_text(text.to_string(), Some(d));
    d
}

#[test]
fn plain_dfn_inherits_export_and_gets_an_id() {
    let mut tree = Tree::new();
    let body = tree.new_element("body".to_string(), None);
    let section = tree.new_element("section".to_string(), Some(body));
    insert_attr(&mut tree.nodes[section].attrs, "data-export".to_string(), String::new());
    let d = dfn_with_text(&mut tree, section, "Foo Bar");
    assert_eq!(tree.text_content(d), "Foo Bar");
    assert!(classify_dfn(&mut tree, d).is_ok());
    assert_eq!(attr(&tree, d, "data-dfn-type").unwrap(), "dfn");
    assert_eq!(attr(&tree, d, "data-export").unwrap(), "");
    assert_eq!(attr(&tree, d, "id").unwrap(), "foo-bar");
}

#[test]
fn dfn_defaults_by_type() {
    let mut tree = Tree::new();
    let body = tree.new_element("body".to_string(), None);
    let plain = dfn_with_text(&mut tree, body, "thing");
    let prop = dfn_with_text(&mut tree, body, "Color");
    insert_attr(&mut tree.nodes[prop].attrs, "data-dfn-type".to_string(), "property".to_string());
    classify_dfn(&mut tree, plain).unwrap();
    classify_dfn(&mut tree, prop).unwrap();
    assert_eq!(attr(&tree, plain, "data-noexport").unwrap(), "");
    assert_eq!(attr(&tree, plain, "data-export"), None);
    assert_eq!(attr(&tree, prop, "data-export").unwrap(), "");
    assert_eq!(attr(&tree, prop, "id").unwrap(), "propdef-color");
}

#[test]
fn unknown_dfn_type_is_an_error() {
    let mut tree = Tree::new();
    let d = tree.new_element("dfn".to_string(), None);
    insert_attr(&mut tree.nodes[d].attrs, "data-dfn-type".to_string(), "gadget".to_string());
    assert_eq!(classify_dfn(&mut tree, d).unwrap_err().dfn_type, "gadget");
}

#[test]
fn processed_dfns_are_unique_and_linkable() {
    let mut tree = Tree::new();
    let body = tree.new_element("body".to_string(), None);
    let a = dfn_with_text(&mut tree, body, "term");
    let b = dfn_with_text(&mut tree, body, "term");
    let mut manager = ReferenceManager::new();
    process_dfns(&mut tree, &vec![a, b], &mut manager).unwrap();
    assert_eq!(attr(&tree, a, "id").unwrap(), "term");
    assert_eq!(attr(&tree, b, "id").unwrap(), "term①");
    let q = Query {
        link_type: "dfn".to_string(),
        link_text: "term".to_string(),
        status: None,
        link_fors: None,
        explicit_for: false,
    };
    let found = manager
        .local_reference_source
        .query_references(&q, QueryMode::Exact)
        .unwrap();
    assert_eq!(found.len(), 2);
    assert_eq!(manager.get_reference(&q, false).unwrap().url, "#term");
}
