use bikeshed::markdown::{parse, MarkdownError};
use bikeshed::token::TokenKind;
use bikeshed::tokenize::tokenize_lines;

fn lines(text: &str) -> Vec<String> {
    text.split('\n').map(|s| s.to_string()).collect()
}

fn kinds(text: &str) -> Vec<TokenKind> {
    tokenize_lines(&lines(text), 4).iter().map(|t| t.kind).collect()
}

#[test]
fn bulleted_list_of_two_items() {
    let out = parse(&lines("- a\n- b"), 4).unwrap();
    assert_eq!(
        out,
        vec![
            "<ul data-md>",
            "<li data-md>",
            "<p>a</p>\n",
            "</li>",
            "<li data-md>",
            "<p>b</p>\n",
            "</li>",
            "</ul>"
        ]
    );
}

#[test]
fn nested_list_inside_first_item() {
    let out = parse(&lines("- a\n    - b"), 4).unwrap();
    assert_eq!(
        out,
        vec![
            "<ul data-md>",
            "<li data-md>",
            "<p>a</p>\n",
            "<ul data-md>",
            "<li data-md>",
            "<p>b</p>\n",
            "</li>",
            "</ul>",
            "</li>",
            "</ul>"
        ]
    );
}

#[test]
fn numbered_list_start_attribute() {
    let out = parse(&lines("1. x\n2. y"), 4).unwrap();
    assert_eq!(out[0], "<ol data-md>");
    assert_eq!(out.last().unwrap(), "</ol>");
    let out = parse(&lines("5. x"), 4).unwrap();
    assert_eq!(out[0], "<ol data-md start=5>");
    let out = parse(&lines("007. x"), 4).unwrap();
    assert_eq!(out[0], "<ol data-md start=7>");
}

#[test]
fn definition_list_items() {
    let out = parse(&lines(": term\n:: meaning"), 4).unwrap();
    assert_eq!(
        out,
        vec![
            "<dl data-md>",
            "<dt data-md>",
            "<p>term</p>\n",
            "</dt>",
            "<dd data-md>",
            "<p>meaning</p>\n",
            "</dd>",
            "</dl>"
        ]
    );
}

#[test]
fn headings_single_and_multi_line() {
    assert_eq!(parse(&lines("# Title"), 4).unwrap(), vec!["<h2 >Title</h2>\n"]);
    assert_eq!(
        parse(&lines("## Sub ## {#sub-id}"), 4).unwrap(),
        vec!["<h3 id = sub-id>Sub</h3>\n"]
    );
    assert_eq!(
        parse(&lines("Title {#t}\n====="), 4).unwrap(),
        vec!["<h2 id = t>Title</h2>\n"]
    );
    assert_eq!(parse(&lines("Sub\n---"), 4).unwrap(), vec!["<h3 >Sub</h3>\n"]);
}

#[test]
fn paragraphs_rules_and_quotes() {
    assert_eq!(
        parse(&lines("one\ntwo  \n\n***"), 4).unwrap(),
        vec!["<p>one", "two</p>\n", "", "<hr>"]
    );
    assert_eq!(
        parse(&lines("> quoted"), 4).unwrap(),
        vec!["<blockquote>", "<p>quoted</p>\n", "</blockquote>"]
    );
}

#[test]
fn raw_regions_pass_lines_through() {
    assert_eq!(
        parse(&lines("```\n# not a heading\n```"), 4).unwrap(),
        vec!["<pre>", "# not a heading", "</pre>"]
    );
    assert_eq!(
        parse(&lines("<pre>\n- x\n</pre>"), 4).unwrap(),
        vec!["<pre>", "- x", "</pre>"]
    );
}

#[test]
fn tokenizer_classifies_lines() {
    assert_eq!(
        kinds("\n===\n---\n* * *\n# h\n3. n\n+ b\n: t\n:: d\n> q\n<div>\n<em>x</em>\ntext"),
        vec![
            TokenKind::Blank,
            TokenKind::EqualsLine,
            TokenKind::DashLine,
            TokenKind::HorizontalRule,
            TokenKind::Head,
            TokenKind::Numbered,
            TokenKind::Bulleted,
            TokenKind::Dt,
            TokenKind::Dd,
            TokenKind::QuoteBlock,
            TokenKind::MarkupBlock,
            TokenKind::Text,
            TokenKind::Text
        ]
    );
}

#[test]
fn under_indented_item_line_is_an_error() {
    let out = parse(&lines("    - a\n    b\n  c"), 4);
    assert!(out.is_ok());
    assert_eq!(parse(&lines("- a\n\n    b"), 4).unwrap()[0], "<ul data-md>");
    let deep: Vec<String> = (0..80).map(|i| format!("{}- x", "\t".repeat(i))).collect();
    assert_eq!(parse(&deep, 4), Err(MarkdownError::TooDeep));
}
