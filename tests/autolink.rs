use bikeshed::autolink::{process_auto_links, process_biblio_links, BiblioTypeError, Citations};
use bikeshed::biblio::BiblioManager;
use bikeshed::index::group_external_terms;
use bikeshed::dfn::process_dfns;
use bikeshed::reference::{QueryError, ReferenceManager};
use bikeshed::tree::{get_attr, insert_attr, Tree};

fn attr(tree: &Tree, i: usize, name: &str) -> Option<String> {
    get_attr(&tree.nodes[i].attrs, &name.to_string())
}

fn with_text(tree: &mut Tree, tag: &str, parent: usize, text: &str) -> usize {
    let e = tree.new_element(tag.to_string(), Some(parent));
    tree.new_text(text.to_string(), Some(e));
    e
}

#[test]
fn links_point_to_local_definitions() {
    let mut tree = Tree::new();
    let body = tree.new_element("body".to_string(), None);
    let d = with_text(&mut tree, "dfn", body, "Widget");
    let a1 = with_text(&mut tree, "a", body, "Widget");
    let a2 = with_text(&mut tree, "a", body, "widgets");
    let cited = with_text(&mut tree, "a", body, "[CSS]");
    insert_attr(&mut tree.nodes[cited].attrs, "data-link-type".to_string(), "biblio".to_string());
    let mut manager = ReferenceManager::new();
    process_dfns(&mut tree, &vec![d], &mut manager).unwrap();
    manager.add_local_dfn("widgets".to_string(), "dfn".to_string(), "widget", Vec::new());
    assert!(process_auto_links(&mut tree, &manager, false, &mut Vec::new()).is_ok());
    assert_eq!(attr(&tree, a1, "href").unwrap(), "#widget");
    assert_eq!(attr(&tree, a1, "id").unwrap(), "ref-for-widget");
    assert_eq!(attr(&tree, a1, "data-link-type").unwrap(), "dfn");
    assert_eq!(attr(&tree, a2, "id").unwrap(), "ref-for-widget①");
    assert_eq!(attr(&tree, cited, "href"), None);
}

#[test]
fn unresolvable_link_is_an_error() {
    let mut tree = Tree::new();
    let body = tree.new_element("body".to_string(), None);
    with_text(&mut tree, "a", body, "nowhere");
    let manager = ReferenceManager::new();
    assert_eq!(process_auto_links(&mut tree, &manager, true, &mut Vec::new()), Err(QueryError::Text));
}

#[test]
fn citations_link_to_bibliography() {
    let mut tree = Tree::new();
    let body = tree.new_element("body".to_string(), None);
    let c1 = with_text(&mut tree, "a", body, "[CSS-Color]");
    insert_attr(&mut tree.nodes[c1].attrs, "data-link-type".to_string(), "biblio".to_string());
    insert_attr(&mut tree.nodes[c1].attrs, "data-biblio-type".to_string(), "normative".to_string());
    let c2 = with_text(&mut tree, "a", body, "[unknown]");
    insert_attr(&mut tree.nodes[c2].attrs, "data-link-type".to_string(), "biblio".to_string());
    insert_attr(&mut tree.nodes[c2].attrs, "data-biblio-type".to_string(), "informative".to_string());
    let mut biblios = BiblioManager::new();
    let data: Vec<String> = ["s css-color", "CSS-Color", "CSS Color Module", ""]
        .iter()
        .map(|s| s.to_string())
        .collect();
    biblios.biblio_source.load_group("cs".to_string(), &data).unwrap();
    let mut cited = Citations { normative: Vec::new(), informative: Vec::new() };
    process_biblio_links(&mut tree, &biblios, &mut cited).unwrap();
    assert_eq!(attr(&tree, c1, "href").unwrap(), "#biblio-css-color");
    assert_eq!(attr(&tree, c2, "href"), None);
    assert_eq!(cited.normative.len(), 1);
    assert_eq!(cited.normative[0].0, "CSS-Color");
    assert_eq!(cited.normative[0].1.data, Some("CSS Color Module".to_string()));
    assert!(cited.informative.is_empty());

    let c3 = with_text(&mut tree, "a", body, "[CSS-Color]");
    insert_attr(&mut tree.nodes[c3].attrs, "data-link-type".to_string(), "biblio".to_string());
    assert_eq!(
        process_biblio_links(&mut tree, &biblios, &mut cited),
        Err(BiblioTypeError { biblio_type: None })
    );
}

#[test]
fn terms_of_other_specs_are_recorded() {
    let mut tree = Tree::new();
    let body = tree.new_element("body".to_string(), None);
    with_text(&mut tree, "a", body, "flex");
    with_text(&mut tree, "a", body, "grid");
    with_text(&mut tree, "a", body, "flex");
    let mut manager = ReferenceManager::new();
    manager.spec = Some("mine".to_string());
    let data: Vec<String> = [
        "flex", "dfn", "CSS-Flexbox", "f", "1", "current", "https://f/#flex", "1", "1", "-",
        "grid", "dfn", "MINE", "m", "1", "current", "https://m/#grid", "1", "1", "-",
    ]
    .iter()
    .map(|s| s.to_string())
    .collect();
    manager.external_reference_source.load_group("fl".to_string(), &data).unwrap();
    let mut uses = Vec::new();
    process_auto_links(&mut tree, &manager, false, &mut uses).unwrap();
    assert_eq!(uses.len(), 2);
    assert_eq!(uses[0].spec, "CSS-Flexbox");
    assert_eq!(uses[0].url, "https://f/#flex");
    let groups = group_external_terms(&uses);
    assert_eq!(groups.len(), 1);
    assert_eq!(groups[0].terms.len(), 2);
}
