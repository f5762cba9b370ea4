//! The markup tree model: a closed tagged union with one case per node kind,
//! together with the specification of how many headings with a given key and
//! level occur in a tree.
//!
//! Every node carries the span of page text it occupies, as character
//! positions into the page text; a heading's key is the text spanned by its
//! child nodes, trimmed of leading and trailing spaces and tabs.

use vstd::prelude::*;
use crate::key::heading_key;

verus! {

/// A node of the parsed markup tree.
///
/// `start` and `end` are character positions into the page text (the span of
/// source text the node occupies); `kind` says what markup element it is and
/// holds whatever nested structure that element has.
pub struct Node {
    /// Character position in the page text where the node starts.
    pub start: usize,
    /// Character position in the page text where the node ends (exclusive).
    pub end: usize,
    /// The markup element this node is.
    pub kind: NodeKind,
}

/// The kinds of markup element, one variant per node kind of the markup
/// grammar. Structural kinds hold the sub-trees that must be descended into
/// when searching for headings; the remaining kinds are leaves for that
/// purpose.
pub enum NodeKind {
    Bold,
    BoldItalic,
    Category,
    CharacterEntity,
    Comment,
    DefinitionList { items: Vec<ListItem> },
    EndTag,
    ExternalLink,
    Heading { nodes: Vec<Node>, level: u8 },
    HorizontalDivider,
    Image { text: Vec<Node> },
    Italic,
    Link { text: Vec<Node> },
    MagicWord,
    OrderedList { items: Vec<ListItem> },
    ParagraphBreak,
    Parameter { name: Vec<Node>, default: Option<Vec<Node>> },
    Preformatted { nodes: Vec<Node> },
    Redirect,
    StartTag,
    Table { attributes: Vec<Node>, captions: Vec<TableCaption>, rows: Vec<TableRow> },
    Tag { nodes: Vec<Node> },
    Template { name: Vec<Node>, parameters: Vec<TemplateParameter> },
    Text,
    UnorderedList { items: Vec<ListItem> },
}

/// An item of a definition, ordered or unordered list.
pub struct ListItem {
    /// The content of the item.
    pub nodes: Vec<Node>,
}

/// A caption of a table.
pub struct TableCaption {
    /// The HTML attributes of the caption, if any.
    pub attributes: Option<Vec<Node>>,
    /// The content of the caption.
    pub content: Vec<Node>,
}

/// A row of a table.
pub struct TableRow {
    /// The HTML attributes of the row.
    pub attributes: Vec<Node>,
    /// The cells of the row.
    pub cells: Vec<TableCell>,
}

/// A cell of a table row.
pub struct TableCell {
    /// The HTML attributes of the cell, if any.
    pub attributes: Option<Vec<Node>>,
    /// The content of the cell.
    pub content: Vec<Node>,
}

/// A parameter of a template invocation.
pub struct TemplateParameter {
    /// The name of the parameter, if given explicitly.
    pub name: Option<Vec<Node>>,
    /// The value of the parameter.
    pub value: Vec<Node>,
}

/// The number of heading occurrences with key `key` at level `level` in a
/// sequence of sibling nodes.
pub open spec fn count_in_nodes(nodes: Seq<Node>, text: Seq<char>, key: Seq<char>, level: int) -> nat
    decreases nodes, nodes.len() + 1,
{
    count_in_nodes_from(nodes, text, key, level, 0)
}

/// The heading occurrences in the sibling nodes from position `i` on.
pub open spec fn count_in_nodes_from(nodes: Seq<Node>, text: Seq<char>, key: Seq<char>, level: int, i: int) -> nat
    decreases nodes, nodes.len() - i,
{
    if i < 0 || i >= nodes.len() {
        0
    } else {
        count_in_node(nodes[i], text, key, level) + count_in_nodes_from(nodes, text, key, level, i + 1)
    }
}

/// The number of heading occurrences with key `key` at level `level` in a
/// single node.
///
/// A heading itself contributes one occurrence when its own key and level
/// match; its child nodes are not searched for further headings, since the
/// markup grammar does not nest headings inside headings. Every other
/// structural kind contributes whatever its sub-trees contain, and leaf kinds
/// contribute nothing.
pub open spec fn count_in_node(node: Node, text: Seq<char>, key: Seq<char>, level: int) -> nat
    decreases node, 0int,
{
    match node.kind {
        NodeKind::Heading { nodes, level: lvl } => {
            if lvl as int == level && heading_key(text, nodes@) == key {
                1nat
            } else {
                0nat
            }
        },
        NodeKind::DefinitionList { items } => count_in_items(items@, text, key, level),
        NodeKind::OrderedList { items } => count_in_items(items@, text, key, level),
        NodeKind::UnorderedList { items } => count_in_items(items@, text, key, level),
        NodeKind::Preformatted { nodes } => count_in_nodes(nodes@, text, key, level),
        NodeKind::Tag { nodes } => count_in_nodes(nodes@, text, key, level),
        NodeKind::Image { text: caption } => count_in_nodes(caption@, text, key, level),
        NodeKind::Link { text: caption } => count_in_nodes(caption@, text, key, level),
        NodeKind::Parameter { name, default } => {
            count_in_opt_nodes(default, text, key, level) + count_in_nodes(name@, text, key, level)
        },
        NodeKind::Table { attributes, captions, rows } => {
            count_in_nodes(attributes@, text, key, level)
                + count_in_captions(captions@, text, key, level)
                + count_in_rows(rows@, text, key, level)
        },
        NodeKind::Template { name, parameters } => {
            count_in_nodes(name@, text, key, level) + count_in_tparams(parameters@, text, key, level)
        },
        NodeKind::Bold => 0,
        NodeKind::BoldItalic => 0,
        NodeKind::Category => 0,
        NodeKind::CharacterEntity => 0,
        NodeKind::Comment => 0,
        NodeKind::EndTag => 0,
        NodeKind::ExternalLink => 0,
        NodeKind::HorizontalDivider => 0,
        NodeKind::Italic => 0,
        NodeKind::MagicWord => 0,
        NodeKind::ParagraphBreak => 0,
        NodeKind::Redirect => 0,
        NodeKind::StartTag => 0,
        NodeKind::Text => 0,
    }
}

/// The heading occurrences in an optional sequence of nodes: none when the
/// sequence is absent.
pub open spec fn count_in_opt_nodes(nodes: Option<Vec<Node>>, text: Seq<char>, key: Seq<char>, level: int) -> nat
    decreases nodes, 0int,
{
    match nodes {
        Some(v) => count_in_nodes(v@, text, key, level),
        None => 0,
    }
}

/// The heading occurrences in a sequence of list items.
pub open spec fn count_in_items(items: Seq<ListItem>, text: Seq<char>, key: Seq<char>, level: int) -> nat
    decreases items, items.len() + 1,
{
    count_in_items_from(items, text, key, level, 0)
}

/// The heading occurrences in the list items from position `i` on.
pub open spec fn count_in_items_from(items: Seq<ListItem>, text: Seq<char>, key: Seq<char>, level: int, i: int) -> nat
    decreases items, items.len() - i,
{
    if i < 0 || i >= items.len() {
        0
    } else {
        count_in_item(items[i], text, key, level) + count_in_items_from(items, text, key, level, i + 1)
    }
}

/// The heading occurrences in one list item.
pub open spec fn count_in_item(item: ListItem, text: Seq<char>, key: Seq<char>, level: int) -> nat
    decreases item, 0int,
{
    count_in_nodes(item.nodes@, text, key, level)
}

/// The heading occurrences in a sequence of table captions.
pub open spec fn count_in_captions(captions: Seq<TableCaption>, text: Seq<char>, key: Seq<char>, level: int) -> nat
    decreases captions, captions.len() + 1,
{
    count_in_captions_from(captions, text, key, level, 0)
}

/// The heading occurrences in the table captions from position `i` on.
pub open spec fn count_in_captions_from(captions: Seq<TableCaption>, text: Seq<char>, key: Seq<char>, level: int, i: int) -> nat
    decreases captions, captions.len() - i,
{
    if i < 0 || i >= captions.len() {
        0
    } else {
        count_in_caption(captions[i], text, key, level)
            + count_in_captions_from(captions, text, key, level, i + 1)
    }
}

/// The heading occurrences in one table caption: its attributes, if present,
/// and its content.
pub open spec fn count_in_caption(caption: TableCaption, text: Seq<char>, key: Seq<char>, level: int) -> nat
    decreases caption, 0int,
{
    count_in_opt_nodes(caption.attributes, text, key, level)
        + count_in_nodes(caption.content@, text, key, level)
}

/// The heading occurrences in a sequence of table rows.
pub open spec fn count_in_rows(rows: Seq<TableRow>, text: Seq<char>, key: Seq<char>, level: int) -> nat
    decreases rows, rows.len() + 1,
{
    count_in_rows_from(rows, text, key, level, 0)
}

/// The heading occurrences in the table rows from position `i` on.
pub open spec fn count_in_rows_from(rows: Seq<TableRow>, text: Seq<char>, key: Seq<char>, level: int, i: int) -> nat
    decreases rows, rows.len() - i,
{
    if i < 0 || i >= rows.len() {
        0
    } else {
        count_in_row(rows[i], text, key, level) + count_in_rows_from(rows, text, key, level, i + 1)
    }
}

/// The heading occurrences in one table row: its attributes and its cells.
pub open spec fn count_in_row(row: TableRow, text: Seq<char>, key: Seq<char>, level: int) -> nat
    decreases row, 0int,
{
    count_in_nodes(row.attributes@, text, key, level) + count_in_cells(row.cells@, text, key, level)
}

/// The heading occurrences in a sequence of table cells.
pub open spec fn count_in_cells(cells: Seq<TableCell>, text: Seq<char>, key: Seq<char>, level: int) -> nat
    decreases cells, cells.len() + 1,
{
    count_in_cells_from(cells, text, key, level, 0)
}

/// The heading occurrences in the table cells from position `i` on.
pub open spec fn count_in_cells_from(cells: Seq<TableCell>, text: Seq<char>, key: Seq<char>, level: int, i: int) -> nat
    decreases cells, cells.len() - i,
{
    if i < 0 || i >= cells.len() {
        0
    } else {
        count_in_cell(cells[i], text, key, level) + count_in_cells_from(cells, text, key, level, i + 1)
    }
}

/// The heading occurrences in one table cell: its attributes, if present, and
/// its content.
pub open spec fn count_in_cell(cell: TableCell, text: Seq<char>, key: Seq<char>, level: int) -> nat
    decreases cell, 0int,
{
    count_in_opt_nodes(cell.attributes, text, key, level)
        + count_in_nodes(cell.content@, text, key, level)
}

/// The heading occurrences in a sequence of template parameters.
pub open spec fn count_in_tparams(params: Seq<TemplateParameter>, text: Seq<char>, key: Seq<char>, level: int) -> nat
    decreases params, params.len() + 1,
{
    count_in_tparams_from(params, text, key, level, 0)
}

/// The heading occurrences in the template parameters from position `i` on.
pub open spec fn count_in_tparams_from(params: Seq<TemplateParameter>, text: Seq<char>, key: Seq<char>, level: int, i: int) -> nat
    decreases params, params.len() - i,
{
    if i < 0 || i >= params.len() {
        0
    } else {
        count_in_tparam(params[i], text, key, level)
            + count_in_tparams_from(params, text, key, level, i + 1)
    }
}

/// The heading occurrences in one template parameter: its name, if present,
/// and its value.
pub open spec fn count_in_tparam(param: TemplateParameter, text: Seq<char>, key: Seq<char>, level: int) -> nat
    decreases param, 0int,
{
    count_in_opt_nodes(param.name, text, key, level) + count_in_nodes(param.value@, text, key, level)
}

/// Recursion completeness: a heading nested inside a list item, a table
/// caption or cell, a template name or parameter, a link or image caption, a
/// parameter default, or a preformatted or tag block is counted exactly as
/// the nested content says, so no nesting construct hides a heading.
pub proof fn lemma_recursion_completeness(node: Node, text: Seq<char>, key: Seq<char>, level: int)
    ensures
        node.kind matches NodeKind::DefinitionList { items } ==> count_in_node(node, text, key, level)
            == count_in_items(items@, text, key, level),
        node.kind matches NodeKind::OrderedList { items } ==> count_in_node(node, text, key, level)
            == count_in_items(items@, text, key, level),
        node.kind matches NodeKind::UnorderedList { items } ==> count_in_node(node, text, key, level)
            == count_in_items(items@, text, key, level),
        node.kind matches NodeKind::Link { text: caption } ==> count_in_node(node, text, key, level)
            == count_in_nodes(caption@, text, key, level),
        node.kind matches NodeKind::Image { text: caption } ==> count_in_node(node, text, key, level)
            == count_in_nodes(caption@, text, key, level),
        node.kind matches NodeKind::Table { attributes, captions, rows } ==> count_in_node(node, text, key, level)
            == count_in_nodes(attributes@, text, key, level)
                + count_in_captions(captions@, text, key, level)
                + count_in_rows(rows@, text, key, level),
        node.kind matches NodeKind::Template { name, parameters } ==> count_in_node(node, text, key, level)
            == count_in_nodes(name@, text, key, level)
                + count_in_tparams(parameters@, text, key, level),
        forall|item: ListItem| #[trigger] count_in_item(item, text, key, level)
            == count_in_nodes(item.nodes@, text, key, level),
        forall|cell: TableCell| #[trigger] count_in_cell(cell, text, key, level)
            == count_in_opt_nodes(cell.attributes, text, key, level)
                + count_in_nodes(cell.content@, text, key, level),
        forall|param: TemplateParameter| #[trigger] count_in_tparam(param, text, key, level)
            == count_in_opt_nodes(param.name, text, key, level)
                + count_in_nodes(param.value@, text, key, level),
{
}

/// A heading's own children are not searched for further headings: the
/// occurrences contributed by a heading node depend only on its own key and
/// level, never on headings nested inside its inline content.
pub proof fn lemma_heading_content_not_searched(node: Node, text: Seq<char>, key: Seq<char>, level: int)
    requires
        node.kind is Heading,
    ensures
        node.kind matches NodeKind::Heading { nodes, level: lvl } ==> count_in_node(node, text, key, level)
            == if lvl as int == level && heading_key(text, nodes@) == key {
                1nat
            } else {
                0nat
            },
{
}

} // verus!
