use bikeshed::html::escape_html;
use bikeshed::panel::{group_citations, section_links, to_decimal, Citation, PanelLink};

fn cite(target: &str, section: Option<&str>, id: Option<&str>) -> Citation {
    Citation {
        target: target.to_string(),
        section: section.map(|s| s.to_string()),
        id: id.map(|s| s.to_string()),
    }
}

#[test]
fn citations_grouped_by_section() {
    let cs = vec![
        cite("foo", Some("§1 Intro"), None),
        cite("bar", Some("§1 Intro"), None),
        cite("foo", Some("§2 Model"), Some("x")),
        cite("foo", Some("§1 Intro"), Some("y")),
        cite("foo", None, None),
    ];
    let groups = group_citations(&cs, &"foo".to_string());
    assert_eq!(groups.len(), 2);
    assert_eq!(groups[0].section, "§1 Intro");
    assert_eq!(groups[0].links, vec![0, 3]);
    assert_eq!(groups[1].section, "§2 Model");
    assert_eq!(groups[1].links, vec![2]);
    assert!(group_citations(&cs, &"nothing".to_string()).is_empty());

    let links = section_links(&cs, &groups[0], &"foo".to_string());
    assert_eq!(
        links,
        vec![
            PanelLink { href: "#ref-for-foo".to_string(), text: "§1 Intro".to_string() },
            PanelLink { href: "#y".to_string(), text: "(2)".to_string() },
        ]
    );
}

#[test]
fn decimal_numbers() {
    assert_eq!(to_decimal(0), "0");
    assert_eq!(to_decimal(7), "7");
    assert_eq!(to_decimal(120), "120");
}

#[test]
fn escaping_markup() {
    assert_eq!(escape_html("a < b && c"), "a &lt; b &amp;&amp; c");
    assert_eq!(escape_html("plain"), "plain");
}
