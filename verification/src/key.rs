//! The header key extractor: the plain text a heading's child nodes span in
//! the page text, trimmed into the lookup key.

use vstd::prelude::*;
use crate::nodes::Node;
use crate::trim::trimmed;
use crate::trim::trim_key;

verus! {

/// The text spanned by a sequence of sibling nodes: the part of the page text
/// from the start of the first node to the end of the last one. An empty
/// sequence, or one whose span does not lie inside the text, spans nothing.
pub open spec fn span_text(text: Seq<char>, nodes: Seq<Node>) -> Seq<char> {
    if nodes.len() > 0 && nodes[0].start <= nodes[nodes.len() - 1].end
        && nodes[nodes.len() - 1].end <= text.len() {
        text.subrange(nodes[0].start as int, nodes[nodes.len() - 1].end as int)
    } else {
        Seq::empty()
    }
}

/// The header key of a heading with child nodes `nodes` in a page with text
/// `text`: the spanned text, trimmed of leading and trailing spaces and tabs.
pub open spec fn heading_key(text: Seq<char>, nodes: Seq<Node>) -> Seq<char> {
    trimmed(span_text(text, nodes))
}

/// Extract the header key of a heading whose child nodes are `nodes`, from
/// the page text `text`.
pub fn extract_key(text: &str, nodes: &Vec<Node>) -> (r: String)
    ensures
        r@ == heading_key(text@, nodes@),
{
    let len = text.unicode_len();
    if nodes.len() > 0 {
        let s = nodes[0].start;
        let e = nodes[nodes.len() - 1].end;
        if s <= e && e <= len {
            let raw = text.substring_char(s, e);
            return trim_key(raw);
        }
    }
    proof {
        crate::trim::lemma_trimmed_bounds(Seq::<char>::empty(), 0, 0);
    }
    String::new()
}

} // verus!
