use bikeshed::comment::Line;
use bikeshed::datablock::{
    opens_anchor_block, parse_info_tree, process_anchors, transform_data_blocks, InfoError, InfoPair,
};
use bikeshed::reference::{Query, ReferenceManager};

fn owned(v: &[&str]) -> Vec<String> {
    v.iter().map(|s| s.to_string()).collect()
}

fn pair(k: &str, v: &str) -> InfoPair {
    InfoPair { key: k.to_string(), val: v.to_string() }
}

#[test]
fn info_tree_paths() {
    let lines = owned(&["type: dfn", "    urlPrefix: https://ex.com/", "        text: foo", "        text:  Bar Baz "]);
    let infos = parse_info_tree(&lines, 4).unwrap();
    assert_eq!(
        infos,
        vec![
            vec![pair("type", "dfn"), pair("urlPrefix", "https://ex.com/"), pair("text", "foo")],
            vec![pair("type", "dfn"), pair("urlPrefix", "https://ex.com/"), pair("text", "Bar Baz")],
        ]
    );
    assert_eq!(parse_info_tree(&Vec::new(), 4).unwrap(), Vec::<Vec<InfoPair>>::new());
}

#[test]
fn info_tree_errors() {
    assert_eq!(parse_info_tree(&owned(&["a: b", "        c: d"]), 4), Err(InfoError::Jump));
    assert_eq!(parse_info_tree(&owned(&["no colon"]), 4), Err(InfoError::NotAPair));
    assert_eq!(parse_info_tree(&owned(&[": value"]), 4), Err(InfoError::NotAPair));
}

#[test]
fn anchors_become_anchor_block_references() {
    let mut manager = ReferenceManager::new();
    let lines = owned(&["type: dfn", "    urlPrefix: https://ex.com/", "        text: foo", "        text: Bar Baz"]);
    process_anchors(&mut manager, &lines, 4).unwrap();
    let q = Query {
        link_type: "dfn".to_string(),
        link_text: "Bar Baz".to_string(),
        status: None,
        link_fors: None,
        explicit_for: false,
    };
    let r = manager.get_reference(&q, false).unwrap();
    assert_eq!(r.url, "https://ex.com/#bar-baz");
    let missing = owned(&["type: dfn"]);
    assert_eq!(process_anchors(&mut manager, &missing, 4), Err(InfoError::MissingKey));
}

#[test]
fn data_blocks_are_taken_out() {
    let texts = ["text", "<pre class=\"anchors\">", "type: dfn", "    text: foo", "</pre>", "after"];
    let lines: Vec<Line> = texts
        .iter()
        .enumerate()
        .map(|(i, t)| Line { index: i + 1, text: t.to_string() })
        .collect();
    let (kept, blocks) = transform_data_blocks(&lines);
    assert_eq!(
        kept,
        vec![
            Line { index: 1, text: "text".to_string() },
            Line { index: 6, text: "after".to_string() },
        ]
    );
    assert_eq!(blocks, vec![owned(&["type: dfn", "    text: foo"])]);
    assert!(opens_anchor_block("<pre id=x class='idl anchors'>"));
    assert!(!opens_anchor_block("<pre class=idl>anchors"));
    assert!(!opens_anchor_block("<pre>"));
}
