use bikeshed::boolset::BoolSet;
use bikeshed::metadata::{
    boolish_to_bool, parse_boilerplate, parse_editor, parse_editor_term, parse_level, parse_vec, split_trim,
    Editor, EditorTerm,
};
use std::collections::BTreeMap;

#[test]
fn test_bool_set() {
    {
        let bs = BoolSet::new_with_default(true);
        assert_eq!(bs.get("a"), true);
    }
    {
        let bs = BoolSet::new_with_default(false);
        assert_eq!(bs.get("a"), false);
    }
    {
        let mut bs = BoolSet::new_with_default(true);
        bs.insert("a", true);
        assert_eq!(bs.get("a"), true);
        assert_eq!(bs.get("b"), true);
    }
    {
        let mut bs = BoolSet::new_with_default(false);
        bs.insert("a", true);
        assert_eq!(bs.get("a"), true);
        assert_eq!(bs.get("b"), false);
    }
    {
        let mut bs = BoolSet::new_with_default(false);
        bs.insert("a", true);
        assert_eq!(bs.get("a"), true);
        assert_eq!(bs.get("b"), false);

        let mut other = BoolSet::new_with_default(true);
        other.insert("a", false);
        other.insert("b", true);
        bs.update(&other);
        assert_eq!(bs.get("a"), false);
        assert_eq!(bs.get("b"), true);
    }
}

#[test]
fn test_parse_boilerplate() {
    {
        let result = parse_boilerplate("");
        assert_eq!(result, Err("wrong boilerplate piece format"));
    }
    {
        let result = parse_boilerplate("omit logo");
        assert!(result.is_ok());
        if let Ok(result) = result {
            assert_eq!(result.get("logo"), false);
            assert_eq!(result.get("copyright"), true);
        }
    }
    {
        let result = parse_boilerplate("logo omit");
        assert_eq!(result, Err("wrong boolish format"));
    }
    {
        let result = parse_boilerplate("omit logo, omit copyright");
        assert!(result.is_ok());
        if let Ok(result) = result {
            assert_eq!(result.get("logo"), false);
            assert_eq!(result.get("copyright"), false);
            assert_eq!(result.get("warning"), true);
        }
    }
    {
        let result = parse_boilerplate("logo no");
        assert!(result.is_ok());
        if let Ok(result) = result {
            assert_eq!(result.get("logo"), false);
            assert_eq!(result.get("copyright"), true);
        }
    }
    {
        let result = parse_boilerplate("logo logo");
        assert_eq!(result, Err("wrong boolish format"));
    }
    {
        let result = parse_boilerplate("logo no logo");
        assert_eq!(result, Err("wrong boilerplate piece format"));
    }
    {
        let result = parse_boilerplate("logo yes, omit copyright, warning no");
        assert!(result.is_ok());
        if let Ok(result) = result {
            assert_eq!(result.get("logo"), true);
            assert_eq!(result.get("copyright"), false);
            assert_eq!(result.get("warning"), false);
        }
    }
}

#[test]
fn test_parse_editor_term() {
    let mut cases: BTreeMap<&'static str, Result<EditorTerm, &'static str>> = BTreeMap::new();
    cases.insert("x", Err("wrong editor term format"));
    cases.insert("x, xs", Ok(EditorTerm::new("x".to_owned(), "xs".to_owned())));
    cases.insert("x, xs, xss", Err("wrong editor term format"));

    for (val, target) in cases {
        let result = parse_editor_term(val);
        assert_eq!(result, target);
    }
}

#[test]
fn boolish_words() {
    assert_eq!(boolish_to_bool("YES"), Ok(true));
    assert_eq!(boolish_to_bool("off"), Ok(false));
    assert_eq!(boolish_to_bool("maybe"), Err("the input is not boolish"));
}

#[test]
fn field_helpers() {
    assert_eq!(split_trim(" a , b ,, c", ','), vec!["a", "b", "", "c"]);
    assert_eq!(parse_level("none"), "");
    assert_eq!(parse_level("3"), "3");
    assert_eq!(parse_vec("x"), vec!["x".to_string()]);
    assert_eq!(EditorTerm::default().plural, "Editors");
}

#[test]
fn test_parse_editor() {
    let mut cases: BTreeMap<&'static str, Result<Editor, &'static str>> = BTreeMap::new();
    cases.insert("", Err("invalid editor"));
    cases.insert("Super Mario", Ok(Editor::new("Super Mario".to_owned())));
    cases.insert("Super Mario, w3cid 12345", Ok(Editor {
                name: "Super Mario".to_owned(),
                w3c_id: Some("12345".to_owned()),
                ..Default::default()
            }));
    cases.insert("Super Mario, w3cid 12345, Nintendo", Ok(Editor {
                name: "Super Mario".to_owned(),
                w3c_id: Some("12345".to_owned()),
                org: Some("Nintendo".to_owned()),
                ..Default::default()
            }));
    cases.insert("Super Mario, w3cid 12345, hi@mario.com", Ok(Editor {
                name: "Super Mario".to_owned(),
                w3c_id: Some("12345".to_owned()),
                email: Some("hi@mario.com".to_owned()),
                ..Default::default()
            }));
    cases.insert("Super Mario, w3cid 12345, https://mario.com", Ok(Editor {
                name: "Super Mario".to_owned(),
                w3c_id: Some("12345".to_owned()),
                link: Some("https://mario.com".to_owned()),
                ..Default::default()
            }));
    cases.insert("Super Mario, w3cid 12345, hi@mario.com, https://mario.com", Ok(Editor {
                name: "Super Mario".to_owned(),
                w3c_id: Some("12345".to_owned()),
                email: Some("hi@mario.com".to_owned()),
                link: Some("https://mario.com".to_owned()),
                ..Default::default()
            }));
    cases.insert("Super Mario, w3cid 12345, https://mario.com, hi@mario.com", Ok(Editor {
                name: "Super Mario".to_owned(),
                w3c_id: Some("12345".to_owned()),
                email: Some("hi@mario.com".to_owned()),
                link: Some("https://mario.com".to_owned()),
                ..Default::default()
            }));
    cases.insert("Super Mario, w3cid 12345, Nintendo, hi@mario.com", Ok(Editor {
                name: "Super Mario".to_owned(),
                w3c_id: Some("12345".to_owned()),
                org: Some("Nintendo".to_owned()),
                email: Some("hi@mario.com".to_owned()),
                ..Default::default()
            }));
    cases.insert("Super Mario, w3cid 12345, Nintendo, https://mario.com", Ok(Editor {
                name: "Super Mario".to_owned(),
                w3c_id: Some("12345".to_owned()),
                org: Some("Nintendo".to_owned()),
                link: Some("https://mario.com".to_owned()),
                ..Default::default()
            }));
    cases.insert("Super Mario, w3cid 12345, Nintendo, hi@mario.com, https://mario.com", Ok(Editor {
                name: "Super Mario".to_owned(),
                w3c_id: Some("12345".to_owned()),
                org: Some("Nintendo".to_owned()),
                email: Some("hi@mario.com".to_owned()),
                link: Some("https://mario.com".to_owned()),
                ..Default::default()
            }));
    cases.insert("Super Mario, w3cid 12345, Nintendo, https://mario.com, hi@mario.com", Ok(Editor {
                name: "Super Mario".to_owned(),
                w3c_id: Some("12345".to_owned()),
                org: Some("Nintendo".to_owned()),
                email: Some("hi@mario.com".to_owned()),
                link: Some("https://mario.com".to_owned()),
                ..Default::default()
            }));
    cases.insert("Super Mario, Nintendo, w3cid 12345, https://mario.com, hi@mario.com", Ok(Editor {
                name: "Super Mario".to_owned(),
                w3c_id: Some("12345".to_owned()),
                org: Some("Nintendo".to_owned()),
                email: Some("hi@mario.com".to_owned()),
                link: Some("https://mario.com".to_owned()),
                ..Default::default()
            }));
    cases.insert("Super Mario, Nintendo, https://mario.com, w3cid 12345, hi@mario.com", Ok(Editor {
                name: "Super Mario".to_owned(),
                w3c_id: Some("12345".to_owned()),
                org: Some("Nintendo".to_owned()),
                email: Some("hi@mario.com".to_owned()),
                link: Some("https://mario.com".to_owned()),
                ..Default::default()
            }));
    cases.insert("Super Mario, Nintendo, https://mario.com, hi@mario.com, w3cid 12345", Ok(Editor {
                name: "Super Mario".to_owned(),
                w3c_id: Some("12345".to_owned()),
                org: Some("Nintendo".to_owned()),
                email: Some("hi@mario.com".to_owned()),
                link: Some("https://mario.com".to_owned()),
                ..Default::default()
            }));
    cases.insert("Super Mario, Nintendo hi@nintendo.com", Ok(Editor {
                name: "Super Mario".to_owned(),
                org: Some("Nintendo".to_owned()),
                org_link: Some("hi@nintendo.com".to_owned()),
                ..Default::default()
            }));
    cases.insert("Super Mario, Nintendo https://nintendo.com", Ok(Editor {
                name: "Super Mario".to_owned(),
                org: Some("Nintendo".to_owned()),
                org_link: Some("https://nintendo.com".to_owned()),
                ..Default::default()
            }));
    cases.insert("Super Mario, Nintendo not an email or a link", Ok(Editor {
                name: "Super Mario".to_owned(),
                org: Some("Nintendo not an email or a link".to_owned()),
                ..Default::default()
            }));
    cases.insert("Super Mario, Nintendo, error, https://mario.com, hi@mario.com", Err("wrong editor format"));
    cases.insert("Super Mario, Nintendo, https://mario.com, error, hi@mario.com", Err("wrong editor format"));
    cases.insert("Super Mario, Nintendo, https://mario.com, hi@mario.com, error", Err("wrong editor format"));

    for (val, target) in cases {
        let result = parse_editor(val);
        assert_eq!(result, target);
    }
}
