//! End-to-end runs over real wiki markup: the markup is parsed with the
//! markup parser, its tree is converted into the library's node model, and
//! the counts are checked. The markup used here is ASCII, so byte positions
//! and character positions coincide.

use header_stats::header_stats::HeaderStats;
use header_stats::nodes::ListItem;
use header_stats::nodes::Node;
use header_stats::nodes::NodeKind;
use header_stats::nodes::TableCaption;
use header_stats::nodes::TableCell;
use header_stats::nodes::TableRow;
use header_stats::nodes::TemplateParameter;
use header_stats::page::Page;
use parse_wiki_text::Node as PNode;
use parse_wiki_text::Positioned;

fn conv_nodes(nodes: &[PNode]) -> Vec<Node> {
    nodes.iter().map(conv_node).collect()
}

fn conv_node(n: &PNode) -> Node {
    let start = n.start();
    let end = n.end();
    let kind = match n {
        PNode::DefinitionList { items, .. } => NodeKind::DefinitionList {
            items: items.iter().map(|it| ListItem { nodes: conv_nodes(&it.nodes) }).collect(),
        },
        PNode::OrderedList { items, .. } => NodeKind::OrderedList {
            items: items.iter().map(|it| ListItem { nodes: conv_nodes(&it.nodes) }).collect(),
        },
        PNode::UnorderedList { items, .. } => NodeKind::UnorderedList {
            items: items.iter().map(|it| ListItem { nodes: conv_nodes(&it.nodes) }).collect(),
        },
        PNode::Heading { nodes, level, .. } => {
            NodeKind::Heading { nodes: conv_nodes(nodes), level: *level }
        }
        PNode::Preformatted { nodes, .. } => NodeKind::Preformatted { nodes: conv_nodes(nodes) },
        PNode::Tag { nodes, .. } => NodeKind::Tag { nodes: conv_nodes(nodes) },
        PNode::Image { text, .. } => NodeKind::Image { text: conv_nodes(text) },
        PNode::Link { text, .. } => NodeKind::Link { text: conv_nodes(text) },
        PNode::Parameter { name, default, .. } => NodeKind::Parameter {
            name: conv_nodes(name),
            default: default.as_ref().map(|d| conv_nodes(d)),
        },
        PNode::Table { attributes, captions, rows, .. } => NodeKind::Table {
            attributes: conv_nodes(attributes),
            captions: captions
                .iter()
                .map(|c| TableCaption {
                    attributes: c.attributes.as_ref().map(|a| conv_nodes(a)),
                    content: conv_nodes(&c.content),
                })
                .collect(),
            rows: rows
                .iter()
                .map(|r| TableRow {
                    attributes: conv_nodes(&r.attributes),
                    cells: r
                        .cells
                        .iter()
                        .map(|c| TableCell {
                            attributes: c.attributes.as_ref().map(|a| conv_nodes(a)),
                            content: conv_nodes(&c.content),
                        })
                        .collect(),
                })
                .collect(),
        },
        PNode::Template { name, parameters, .. } => NodeKind::Template {
            name: conv_nodes(name),
            parameters: parameters
                .iter()
                .map(|p| TemplateParameter {
                    name: p.name.as_ref().map(|nm| conv_nodes(nm)),
                    value: conv_nodes(&p.value),
                })
                .collect(),
        },
        PNode::Bold { .. } => NodeKind::Bold,
        PNode::BoldItalic { .. } => NodeKind::BoldItalic,
        PNode::Category { .. } => NodeKind::Category,
        PNode::CharacterEntity { .. } => NodeKind::CharacterEntity,
        PNode::Comment { .. } => NodeKind::Comment,
        PNode::EndTag { .. } => NodeKind::EndTag,
        PNode::ExternalLink { .. } => NodeKind::ExternalLink,
        PNode::HorizontalDivider { .. } => NodeKind::HorizontalDivider,
        PNode::Italic { .. } => NodeKind::Italic,
        PNode::MagicWord { .. } => NodeKind::MagicWord,
        PNode::ParagraphBreak { .. } => NodeKind::ParagraphBreak,
        PNode::Redirect { .. } => NodeKind::Redirect,
        PNode::StartTag { .. } => NodeKind::StartTag,
        PNode::Text { .. } => NodeKind::Text,
    };
    Node { start, end, kind }
}

fn page_of(title: &str, namespace: u32, text: &str) -> Page {
    let output = parse_wiki_text::Configuration::default().parse(text);
    Page {
        title: title.to_string(),
        namespace,
        text: text.to_string(),
        nodes: conv_nodes(&output.nodes),
    }
}

fn count_at(stats: &HeaderStats, key: &str, level: u8) -> usize {
    match stats.get(key) {
        Some(c) => c.count(level).unwrap(),
        None => 0,
    }
}

#[test]
fn example_end_to_end() {
    let markup = "== Etymology ==\ntext\n=== Pronunciation ===\nmore text\n== Etymology ==\n";
    let pages = vec![page_of("word", 0, markup)];
    let mut stats = HeaderStats::new();
    stats.parse(&pages, 100, &vec![0]);
    assert_eq!(stats.header_counts.len(), 2);
    assert_eq!(count_at(&stats, "Etymology", 2), 2);
    assert_eq!(count_at(&stats, "Pronunciation", 3), 1);
    for level in 2..=6u8 {
        if level != 2 {
            assert_eq!(count_at(&stats, "Etymology", level), 0);
        }
        if level != 3 {
            assert_eq!(count_at(&stats, "Pronunciation", level), 0);
        }
    }
}

#[test]
fn heading_content_not_treated_as_second_heading() {
    let markup = "== A [[B]] ==\n=== C ===\n";
    let pages = vec![page_of("word", 0, markup)];
    let mut stats = HeaderStats::new();
    stats.parse(&pages, 100, &vec![0]);
    assert_eq!(stats.header_counts.len(), 2);
    assert_eq!(count_at(&stats, "A [[B]]", 2), 1);
    assert_eq!(count_at(&stats, "C", 3), 1);
}

#[test]
fn namespace_filtering_excludes_other_namespaces() {
    let pages = vec![
        page_of("included", 0, "== Kept ==\n"),
        page_of("excluded", 1, "== Dropped ==\n"),
    ];
    let mut stats = HeaderStats::new();
    stats.parse(&pages, 100, &vec![0]);
    assert_eq!(count_at(&stats, "Kept", 2), 1);
    assert!(stats.get("Dropped").is_none());
}

#[test]
fn page_limit_stops_after_n_selected_pages() {
    let pages = vec![
        page_of("one", 0, "== A ==\n"),
        page_of("skipped", 1, "== X ==\n"),
        page_of("two", 0, "== B ==\n"),
        page_of("three", 0, "== C ==\n"),
    ];
    let mut stats = HeaderStats::new();
    stats.parse(&pages, 2, &vec![0]);
    assert_eq!(count_at(&stats, "A", 2), 1);
    assert_eq!(count_at(&stats, "B", 2), 1);
    assert!(stats.get("C", ).is_none());
    assert!(stats.get("X").is_none());
}

#[test]
fn page_limit_zero_processes_nothing() {
    let pages = vec![page_of("one", 0, "== A ==\n")];
    let mut stats = HeaderStats::new();
    stats.parse(&pages, 0, &vec![0]);
    assert_eq!(stats.header_counts.len(), 0);
}

#[test]
fn heading_keys_trimmed_of_spaces_and_tabs_only() {
    let markup = "==\tPadded  ==\n";
    let pages = vec![page_of("word", 0, markup)];
    let mut stats = HeaderStats::new();
    stats.parse(&pages, 100, &vec![0]);
    assert_eq!(count_at(&stats, "Padded", 2), 1);
}
