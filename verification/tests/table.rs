use header_stats::header_stats::HeaderCounts;
use header_stats::header_stats::HeaderStats;
use header_stats::header_stats::warning_in_range;
use header_stats::nodes::ListItem;
use header_stats::nodes::Node;
use header_stats::nodes::NodeKind;
use header_stats::nodes::TableCell;
use header_stats::nodes::TableRow;
use header_stats::nodes::TemplateParameter;
use header_stats::page::Page;

fn text_node(start: usize, end: usize) -> Node {
    Node { start, end, kind: NodeKind::Text }
}

fn heading(start: usize, end: usize, children: Vec<Node>, level: u8) -> Node {
    Node { start, end, kind: NodeKind::Heading { nodes: children, level } }
}

fn page_with(text: &str, nodes: Vec<Node>) -> Page {
    Page { title: "test".to_string(), namespace: 0, text: text.to_string(), nodes }
}

fn count_at(stats: &HeaderStats, key: &str, level: u8) -> usize {
    match stats.get(key) {
        Some(c) => c.count(level).unwrap(),
        None => 0,
    }
}

#[test]
fn top_level_heading_counted() {
    // "== Foo ==": the heading's inline content spans " Foo " (bytes 2..7).
    let page = page_with("== Foo ==", vec![heading(0, 9, vec![text_node(2, 7)], 2)]);
    let mut stats = HeaderStats::new();
    stats.process_nodes(&page, &page.nodes);
    assert_eq!(count_at(&stats, "Foo", 2), 1);
    assert_eq!(count_at(&stats, "Foo", 3), 0);
    assert_eq!(stats.header_counts.len(), 1);
}

#[test]
fn heading_in_table_cell_counted() {
    let text = "== Foo ==";
    let cell = TableCell {
        attributes: None,
        content: vec![heading(0, 9, vec![text_node(2, 7)], 2)],
    };
    let row = TableRow { attributes: vec![], cells: vec![cell] };
    let table = Node {
        start: 0,
        end: 9,
        kind: NodeKind::Table { attributes: vec![], captions: vec![], rows: vec![row] },
    };
    let page = page_with(text, vec![table]);
    let mut stats = HeaderStats::new();
    stats.process_nodes(&page, &page.nodes);
    assert_eq!(count_at(&stats, "Foo", 2), 1);
}

#[test]
fn heading_in_list_item_counted() {
    let text = "== Foo ==";
    let item = ListItem { nodes: vec![heading(0, 9, vec![text_node(2, 7)], 2)] };
    let list = Node { start: 0, end: 9, kind: NodeKind::UnorderedList { items: vec![item] } };
    let page = page_with(text, vec![list]);
    let mut stats = HeaderStats::new();
    stats.process_nodes(&page, &page.nodes);
    assert_eq!(count_at(&stats, "Foo", 2), 1);
}

#[test]
fn heading_in_template_parameter_value_counted() {
    let text = "== Foo ==";
    let param = TemplateParameter {
        name: None,
        value: vec![heading(0, 9, vec![text_node(2, 7)], 2)],
    };
    let template = Node {
        start: 0,
        end: 9,
        kind: NodeKind::Template { name: vec![text_node(0, 0)], parameters: vec![param] },
    };
    let page = page_with(text, vec![template]);
    let mut stats = HeaderStats::new();
    stats.process_nodes(&page, &page.nodes);
    assert_eq!(count_at(&stats, "Foo", 2), 1);
}

#[test]
fn heading_in_link_caption_counted() {
    let text = "== Foo ==";
    let link = Node {
        start: 0,
        end: 9,
        kind: NodeKind::Link { text: vec![heading(0, 9, vec![text_node(2, 7)], 2)] },
    };
    let page = page_with(text, vec![link]);
    let mut stats = HeaderStats::new();
    stats.process_nodes(&page, &page.nodes);
    assert_eq!(count_at(&stats, "Foo", 2), 1);
}

#[test]
fn heading_in_parameter_default_counted() {
    let text = "== Foo ==";
    let parameter = Node {
        start: 0,
        end: 9,
        kind: NodeKind::Parameter {
            name: vec![],
            default: Some(vec![heading(0, 9, vec![text_node(2, 7)], 2)]),
        },
    };
    let page = page_with(text, vec![parameter]);
    let mut stats = HeaderStats::new();
    stats.process_nodes(&page, &page.nodes);
    assert_eq!(count_at(&stats, "Foo", 2), 1);
}

#[test]
fn level_outside_range_ignored() {
    let text = "= Foo =";
    let page = page_with(
        text,
        vec![
            heading(0, 7, vec![text_node(1, 6)], 1),
            heading(0, 7, vec![text_node(1, 6)], 7),
        ],
    );
    let mut stats = HeaderStats::new();
    stats.process_nodes(&page, &page.nodes);
    assert_eq!(stats.header_counts.len(), 0);
    assert!(stats.get("Foo").is_none());
}

#[test]
fn same_key_at_two_levels_shares_one_record() {
    let text = "== Foo ==";
    let page = page_with(
        text,
        vec![
            heading(0, 9, vec![text_node(2, 7)], 2),
            heading(0, 9, vec![text_node(2, 7)], 3),
        ],
    );
    let mut stats = HeaderStats::new();
    stats.process_nodes(&page, &page.nodes);
    assert_eq!(stats.header_counts.len(), 1);
    assert_eq!(count_at(&stats, "Foo", 2), 1);
    assert_eq!(count_at(&stats, "Foo", 3), 1);
    assert_eq!(count_at(&stats, "Foo", 4), 0);
}

#[test]
fn processing_twice_doubles_counts() {
    let text = "== Foo ==";
    let page = page_with(text, vec![heading(0, 9, vec![text_node(2, 7)], 2)]);
    let mut stats = HeaderStats::new();
    stats.process_nodes(&page, &page.nodes);
    stats.process_nodes(&page, &page.nodes);
    assert_eq!(count_at(&stats, "Foo", 2), 2);
}

#[test]
fn heading_with_empty_content_counts_empty_key() {
    let text = "== ==";
    let page = page_with(text, vec![heading(0, 5, vec![], 2)]);
    let mut stats = HeaderStats::new();
    stats.process_nodes(&page, &page.nodes);
    assert_eq!(count_at(&stats, "", 2), 1);
}

#[test]
fn counts_accessor_rejects_out_of_range_levels() {
    let c = HeaderCounts::new();
    assert!(c.count(1).is_none());
    assert!(c.count(7).is_none());
    for level in 2..=6u8 {
        assert_eq!(c.count(level), Some(0));
    }
}

#[test]
fn get_absent_key_is_none() {
    let stats = HeaderStats::new();
    assert!(stats.get("anything").is_none());
}

#[test]
fn warning_range_checks_both_ends() {
    assert!(warning_in_range(0, 4, 5));
    assert!(!warning_in_range(0, 5, 5));
    assert!(!warning_in_range(5, 2, 5));
    assert!(!warning_in_range(0, 0, 0));
}
