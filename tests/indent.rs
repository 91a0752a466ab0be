use bikeshed::indent::{get_indent_level, trim_indent};

#[test]
fn indent_level_counts_tabs_and_space_runs() {
    assert_eq!(get_indent_level("\t\tx", 4), 2);
    assert_eq!(get_indent_level("        x", 4), 2);
    assert_eq!(get_indent_level("  x", 4), 0);
    assert_eq!(get_indent_level("\t    \tx", 4), 3);
    assert_eq!(get_indent_level("", 4), 0);
    assert_eq!(get_indent_level("      x", 4), 1);
}

#[test]
fn trim_indent_fails_without_indentation() {
    assert!(trim_indent("x", 1, 4).is_err());
    assert!(trim_indent("  x", 1, 4).is_err());
}

#[test]
fn trim_indent_removes_units() {
    assert_eq!(trim_indent("\t    x", 2, 4).unwrap(), "x");
    assert_eq!(trim_indent("      x", 1, 4).unwrap(), "  x");
    assert_eq!(trim_indent("x", 0, 4).unwrap(), "x");
}

#[test]
fn trim_indent_keeps_blank_lines() {
    assert_eq!(trim_indent("   ", 3, 4).unwrap(), "   ");
    assert_eq!(trim_indent("", 1, 4).unwrap(), "");
}
