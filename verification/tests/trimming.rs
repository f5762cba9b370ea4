use header_stats::key::extract_key;
use header_stats::nodes::Node;
use header_stats::nodes::NodeKind;
use header_stats::trim::trim_key;

#[test]
fn trim_removes_leading_and_trailing_spaces_and_tabs() {
    assert_eq!(trim_key("  foo \t"), "foo");
    assert_eq!(trim_key("\t\tbar"), "bar");
    assert_eq!(trim_key("baz"), "baz");
    assert_eq!(trim_key(""), "");
    assert_eq!(trim_key(" \t "), "");
}

#[test]
fn trim_is_idempotent_on_examples() {
    for s in [" a b ", "\t x ", "y", "  ", ""] {
        let once = trim_key(s);
        let twice = trim_key(&once);
        assert_eq!(once, twice);
    }
}

#[test]
fn trim_keeps_inner_whitespace() {
    assert_eq!(trim_key(" a  b "), "a  b");
}

#[test]
fn trim_leaves_other_whitespace_alone() {
    // No Unicode trimming: a no-break space is not removed.
    assert_eq!(trim_key("\u{a0}foo\u{a0}"), "\u{a0}foo\u{a0}");
    // A newline is not removed either.
    assert_eq!(trim_key("\nfoo\n"), "\nfoo\n");
}

#[test]
fn extract_key_of_empty_children_is_empty() {
    let nodes: Vec<Node> = vec![];
    assert_eq!(extract_key("== ==", &nodes), "");
}

#[test]
fn extract_key_slices_and_trims_span() {
    let text = "== Foo bar ==";
    let nodes = vec![Node { start: 2, end: 11, kind: NodeKind::Text }];
    assert_eq!(extract_key(text, &nodes), "Foo bar");
}

#[test]
fn extract_key_out_of_range_span_is_empty() {
    let text = "short";
    let nodes = vec![Node { start: 2, end: 99, kind: NodeKind::Text }];
    assert_eq!(extract_key(text, &nodes), "");
}
