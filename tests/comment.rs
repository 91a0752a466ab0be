use bikeshed::comment::{remove_comments, remove_comments_in_text, Line};

#[test]
fn comments_within_and_across_lines() {
    let texts = ["a <!-- b --> c", "<!-- start", "inside", "end --> tail", "<!-- only -->", "plain  "];
    let lines: Vec<Line> = texts
        .iter()
        .enumerate()
        .map(|(i, t)| Line { index: i + 1, text: t.to_string() })
        .collect();
    let out = remove_comments(&lines);
    assert_eq!(
        out,
        vec![
            Line { index: 1, text: "a  c".to_string() },
            Line { index: 4, text: " tail".to_string() },
            Line { index: 6, text: "plain".to_string() },
        ]
    );
}

#[test]
fn comment_state_carries_over() {
    assert_eq!(remove_comments_in_text("x <!-- y", false), ("x ".to_string(), true));
    assert_eq!(remove_comments_in_text("y --> z", true), (" z".to_string(), false));
    assert_eq!(remove_comments_in_text("no comment", false), ("no comment".to_string(), false));
}
