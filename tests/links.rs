use bikeshed::biblio::{BiblioFormat, BiblioManager};
use bikeshed::reference::{
    parse_anchor_data, Query, QueryError, QueryMode, Reference, ReferenceManager,
    ReferenceSource, SourceKind,
};
use bikeshed::variation::link_text_variations;
use std::collections::HashSet;

fn owned(v: &[&str]) -> Vec<String> {
    v.iter().map(|s| s.to_string()).collect()
}

fn query(text: &str) -> Query {
    Query {
        link_type: "dfn".to_string(),
        link_text: text.to_string(),
        status: None,
        link_fors: None,
        explicit_for: false,
    }
}

fn reference(link_type: &str, url: &str, fors: &[&str]) -> Reference {
    Reference {
        link_type: link_type.to_string(),
        spec: None,
        status: "current".to_string(),
        url: url.to_string(),
        link_fors: owned(fors),
    }
}

#[test]
fn test_link_text_variations() {
    let cases: HashSet<(&str, &str)> = [
        ("Berries", "Berry"),
        ("Blockified", "Blockified"),
        ("Zeroes", "Zero"),
        ("Bikeshed's", "Bikeshed"),
        ("Bikesheds", "Bikeshed"),
        ("Bikesheds", "Bikesheds'"),
        ("Snapped", "Snap"),
        ("Zeroed", "Zero"),
        ("Generated", "Generate"),
        ("Navigating", "Navigating"),
        ("Snapping", "Snap"),
        ("Insensitive", "Insensitively"),
        ("throw", "thrown"),
    ]
    .into_iter()
    .collect();

    for (lhs, rhs) in cases.into_iter() {
        {
            let result = link_text_variations("dfn", lhs);
            assert!(result.contains(&rhs.to_string()));
        }
        {
            let result = link_text_variations("dfn", rhs);
            assert!(result.contains(&lhs.to_string()));
        }
    }
}

#[test]
fn variations_of_participles() {
    let v = link_text_variations("dfn", "Navigating");
    assert!(v.contains(&"Navigate".to_string()));
    let v = link_text_variations("dfn", "Navigate");
    assert!(v.contains(&"Navigating".to_string()));
    let v = link_text_variations("dfn", "Snapping");
    assert!(v.contains(&"Snap".to_string()));
    assert_eq!(link_text_variations("property", "Snapping"), vec!["Snapping".to_string()]);
    let v = link_text_variations("dfn", "word");
    assert_eq!(v[0], "word");
    let unique: HashSet<&String> = v.iter().collect();
    assert_eq!(unique.len(), v.len());
}

#[test]
fn local_reference_wins_over_external() {
    let mut manager = ReferenceManager::new();
    manager.add_local_dfn("foo".to_string(), "dfn".to_string(), "foo", Vec::new());
    let data = owned(&["foo", "dfn", "other", "o", "1", "current", "https://o/#foo", "1", "1", "-"]);
    assert!(manager
        .external_reference_source
        .load_group("fo".to_string(), &data)
        .is_ok());
    let r = manager.get_reference(&query("foo"), false).unwrap();
    assert_eq!(r.url, "#foo");
    assert_eq!(r.status, "local");
    let r = manager.get_reference(&query("foos"), true).unwrap();
    assert_eq!(r.url, "https://o/#foo");
    assert!(manager.get_reference(&query("foos"), false).is_err());
}

#[test]
fn external_reference_found_inexactly() {
    let mut manager = ReferenceManager::new();
    let data = owned(&[
        "bike", "dfn", "other", "o", "1", "current", "https://o/#bike", "1", "1", "-",
    ]);
    manager
        .external_reference_source
        .load_group("bi".to_string(), &data)
        .unwrap();
    assert!(manager.get_reference(&query("bikes"), false).is_err());
    let r = manager.get_reference(&query("bikes"), true).unwrap();
    assert_eq!(r.url, "https://o/#bike");
    assert_eq!(r.spec, Some("other".to_string()));
}

#[test]
fn slash_for_matches_only_unscoped() {
    let mut source = ReferenceSource::new(SourceKind::AnchorBlock);
    source.add_reference("x".to_string(), reference("dfn", "#scoped", &["a"]));
    source.add_reference("x".to_string(), reference("dfn", "#plain", &[]));
    let mut q = query("x");
    q.link_fors = Some(owned(&["/"]));
    let found = source.query_references(&q, QueryMode::Exact).unwrap();
    assert_eq!(found.len(), 1);
    assert_eq!(found[0].url, "#plain");
    q.link_fors = Some(owned(&["a"]));
    let found = source.query_references(&q, QueryMode::Exact).unwrap();
    assert_eq!(found[0].url, "#scoped");
    q.link_fors = None;
    q.explicit_for = true;
    let found = source.query_references(&q, QueryMode::Exact).unwrap();
    assert_eq!(found[0].url, "#plain");
}

#[test]
fn query_errors_name_the_failing_stage() {
    let mut source = ReferenceSource::new(SourceKind::Local);
    source.add_reference("x".to_string(), reference("dfn", "#x", &["a"]));
    assert_eq!(source.query_references(&query("y"), QueryMode::Exact).unwrap_err(), QueryError::Text);
    let mut q = query("x");
    q.link_type = "property".to_string();
    assert_eq!(source.query_references(&q, QueryMode::Exact).unwrap_err(), QueryError::LinkType);
    let mut q = query("x");
    q.status = Some("obsolete".to_string());
    assert_eq!(source.query_references(&q, QueryMode::Exact).unwrap_err(), QueryError::Status);
    let mut q = query("x");
    q.link_fors = Some(owned(&["b"]));
    assert_eq!(source.query_references(&q, QueryMode::Exact).unwrap_err(), QueryError::For);
}

#[test]
fn external_groups_load_once() {
    let source = ReferenceSource::new(SourceKind::External);
    assert_eq!(source.group_to_load(&"Hello".to_string()), Some("he".to_string()));
    let mut source = source;
    source.load_group("he".to_string(), &Vec::new()).unwrap();
    assert_eq!(source.group_to_load(&"help".to_string()), None);
    let local = ReferenceSource::new(SourceKind::Local);
    assert_eq!(local.group_to_load(&"Hello".to_string()), None);
}

#[test]
fn malformed_anchor_data_is_an_error() {
    assert!(parse_anchor_data(&owned(&["foo", "dfn", "spec"])).is_err());
    assert!(parse_anchor_data(&owned(&["foo", "dfn", "s", "s", "1", "cur", "u", "1", "1", "a"])).is_err());
    let recs = parse_anchor_data(&owned(&[
        "foo", "dfn", "s", "s", "1", "cur", "u", "1", "1", "a", "b", "-",
    ]))
    .unwrap();
    assert_eq!(recs.len(), 1);
    assert_eq!(recs[0].1.link_fors, owned(&["a", "b"]));
}

#[test]
fn alias_resolves_like_its_target() {
    let mut manager = BiblioManager::new();
    let data = owned(&[
        "a foo", "Foo", "BAR", "", "d bar", "Bar", "2020", "REC", "Bar Title", "https://bar", "",
        "", "", "", "Alice", "Bob", "-",
    ]);
    manager.biblio_source.load_group("fo".to_string(), &data).unwrap();
    let via_alias = manager.get_biblio("FOO").unwrap();
    let direct = manager.get_biblio("bar").unwrap();
    assert_eq!(via_alias.biblio_format, BiblioFormat::Dict);
    assert_eq!(via_alias.title, direct.title);
    assert_eq!(via_alias.title, Some("Bar Title".to_string()));
    assert_eq!(via_alias.authors, owned(&["Alice", "Bob"]));
    assert!(manager.get_biblio("missing").is_none());
}

#[test]
fn alias_cycles_give_up() {
    let mut manager = BiblioManager::new();
    let data = owned(&["a x", "X", "y", "", "a y", "Y", "x", ""]);
    manager.biblio_source.load_group("xy".to_string(), &data).unwrap();
    assert!(manager.get_biblio("x").is_none());
    assert!(manager
        .biblio_source
        .load_group("zz".to_string(), &owned(&["q key", "a", "b", "c"]))
        .is_err());
}
