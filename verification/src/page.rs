//! Pages and the page selection pipeline: a corpus is filtered by namespace
//! membership and truncated to a maximum page count, in stream order.

use vstd::prelude::*;
use crate::nodes::Node;
use crate::nodes::count_in_nodes;

verus! {

/// A page of the corpus: its title, the numeric code of its namespace, its
/// raw markup text, and the parsed markup tree of that text.
pub struct Page {
    /// The title of the page.
    pub title: String,
    /// The numeric namespace code of the page.
    pub namespace: u32,
    /// The raw markup text of the page.
    pub text: String,
    /// The markup tree parsed from `text`.
    pub nodes: Vec<Node>,
}

/// The pages that the selection pipeline hands to the walker, starting at
/// position `i` of the corpus with `limit` selections still allowed: pages
/// whose namespace is in the include-set, in stream order, until `limit` of
/// them have been taken.
pub open spec fn selected_from(pages: Seq<Page>, namespaces: Seq<u32>, limit: nat, i: int) -> Seq<Page>
    decreases pages.len() - i,
{
    if i < 0 || i >= pages.len() || limit == 0 {
        Seq::empty()
    } else if namespaces.contains(pages[i].namespace) {
        seq![pages[i]] + selected_from(pages, namespaces, (limit - 1) as nat, i + 1)
    } else {
        selected_from(pages, namespaces, limit, i + 1)
    }
}

/// The pages selected from the whole corpus.
pub open spec fn selected_pages(pages: Seq<Page>, namespaces: Seq<u32>, limit: nat) -> Seq<Page> {
    selected_from(pages, namespaces, limit, 0)
}

/// The pages of the corpus whose namespace is in the include-set, from
/// position `i` on, with no limit applied.
pub open spec fn filtered_from(pages: Seq<Page>, namespaces: Seq<u32>, i: int) -> Seq<Page>
    decreases pages.len() - i,
{
    if i < 0 || i >= pages.len() {
        Seq::empty()
    } else if namespaces.contains(pages[i].namespace) {
        seq![pages[i]] + filtered_from(pages, namespaces, i + 1)
    } else {
        filtered_from(pages, namespaces, i + 1)
    }
}

/// The heading occurrences with key `key` at level `level` in a sequence of
/// already-selected pages.
pub open spec fn pages_count(pages: Seq<Page>, key: Seq<char>, level: int) -> nat
    decreases pages.len(),
{
    if pages.len() == 0 {
        0
    } else {
        count_in_nodes(pages[0].nodes@, pages[0].text@, key, level)
            + pages_count(pages.drop_first(), key, level)
    }
}

/// The heading occurrences with key `key` at level `level` that a run over
/// the corpus records, starting at position `i` with `limit` pages still
/// allowed: the occurrences in the pages the pipeline selects.
pub open spec fn corpus_count_from(pages: Seq<Page>, namespaces: Seq<u32>, limit: nat, i: int, key: Seq<char>, level: int) -> nat
    decreases pages.len() - i,
{
    if i < 0 || i >= pages.len() || limit == 0 {
        0
    } else if namespaces.contains(pages[i].namespace) {
        count_in_nodes(pages[i].nodes@, pages[i].text@, key, level)
            + corpus_count_from(pages, namespaces, (limit - 1) as nat, i + 1, key, level)
    } else {
        corpus_count_from(pages, namespaces, limit, i + 1, key, level)
    }
}

/// The heading occurrences with key `key` at level `level` that a run over
/// the whole corpus records.
pub open spec fn corpus_count(pages: Seq<Page>, namespaces: Seq<u32>, limit: nat, key: Seq<char>, level: int) -> nat {
    corpus_count_from(pages, namespaces, limit, 0, key, level)
}

/// True when `ns` is one of the namespace codes of the include-set.
#[verifier::loop_isolation(false)]
pub fn namespace_included(namespaces: &Vec<u32>, ns: u32) -> (r: bool)
    ensures
        r == namespaces@.contains(ns),
{
    let n = namespaces.len();
    let mut i: usize = 0;
    while i < n
        invariant
            i <= n,
            forall|m: int| 0 <= m < i ==> namespaces@[m] != ns,
        decreases n - i,
    {
        if namespaces[i] == ns {
            proof {
                assert(namespaces@[i as int] == ns);
            }
            return true;
        }
        i = i + 1;
    }
    proof {
        if namespaces@.contains(ns) {
            let w = choose|m: int| 0 <= m < namespaces@.len() && namespaces@[m] == ns;
            assert(namespaces@[w] != ns);
        }
    }
    false
}

/// Count conservation over the corpus: what a run records is exactly the
/// number of heading occurrences with that key and level across the selected
/// pages.
pub proof fn lemma_corpus_count_is_over_selected(pages: Seq<Page>, namespaces: Seq<u32>, limit: nat, i: int, key: Seq<char>, level: int)
    ensures
        corpus_count_from(pages, namespaces, limit, i, key, level) == pages_count(
            selected_from(pages, namespaces, limit, i),
            key,
            level,
        ),
    decreases pages.len() - i,
{
    if i < 0 || i >= pages.len() || limit == 0 {
    } else if namespaces.contains(pages[i].namespace) {
        lemma_corpus_count_is_over_selected(pages, namespaces, (limit - 1) as nat, i + 1, key, level);
        let rest = selected_from(pages, namespaces, (limit - 1) as nat, i + 1);
        let whole = seq![pages[i]] + rest;
        assert(whole[0] == pages[i]);
        assert(whole.drop_first() =~= rest);
    } else {
        lemma_corpus_count_is_over_selected(pages, namespaces, limit, i + 1, key, level);
    }
}

/// Namespace filtering: every selected page has its namespace in the
/// include-set, so no page outside it contributes any count.
pub proof fn lemma_selected_namespaces(pages: Seq<Page>, namespaces: Seq<u32>, limit: nat, i: int)
    ensures
        forall|j: int|
            0 <= j < selected_from(pages, namespaces, limit, i).len() ==> namespaces.contains(
                #[trigger] selected_from(pages, namespaces, limit, i)[j].namespace,
            ),
    decreases pages.len() - i,
{
    if i < 0 || i >= pages.len() || limit == 0 {
    } else if namespaces.contains(pages[i].namespace) {
        lemma_selected_namespaces(pages, namespaces, (limit - 1) as nat, i + 1);
        let rest = selected_from(pages, namespaces, (limit - 1) as nat, i + 1);
        let sel = selected_from(pages, namespaces, limit, i);
        assert(sel == seq![pages[i]] + rest);
        assert forall|j: int| 0 <= j < sel.len() implies namespaces.contains(
            #[trigger] sel[j].namespace,
        ) by {
            if j > 0 {
                assert(sel[j] == rest[j - 1]);
            }
        }
    } else {
        lemma_selected_namespaces(pages, namespaces, limit, i + 1);
        let sel = selected_from(pages, namespaces, limit, i);
        let rest = selected_from(pages, namespaces, limit, i + 1);
        assert(sel == rest);
        assert forall|j: int| 0 <= j < sel.len() implies namespaces.contains(
            #[trigger] sel[j].namespace,
        ) by {
            assert(namespaces.contains(rest[j].namespace));
        }
    }
}

/// The page limit: the selection is exactly the first `limit` pages of the
/// namespace-filtered corpus, in stream order, so no later page contributes.
pub proof fn lemma_selected_is_filtered_prefix(pages: Seq<Page>, namespaces: Seq<u32>, limit: nat, i: int)
    ensures
        selected_from(pages, namespaces, limit, i).len() <= limit,
        selected_from(pages, namespaces, limit, i) == filtered_from(pages, namespaces, i).take(
            vstd::math::min(limit as int, filtered_from(pages, namespaces, i).len() as int),
        ),
    decreases pages.len() - i,
{
    let sel = selected_from(pages, namespaces, limit, i);
    let fil = filtered_from(pages, namespaces, i);
    if i < 0 || i >= pages.len() || limit == 0 {
        assert(sel =~= fil.take(vstd::math::min(limit as int, fil.len() as int)));
    } else if namespaces.contains(pages[i].namespace) {
        lemma_selected_is_filtered_prefix(pages, namespaces, (limit - 1) as nat, i + 1);
        let rest_sel = selected_from(pages, namespaces, (limit - 1) as nat, i + 1);
        let rest_fil = filtered_from(pages, namespaces, i + 1);
        let m: int = vstd::math::min(limit as int, fil.len() as int);
        assert(fil == seq![pages[i]] + rest_fil);
        assert(m - 1 == vstd::math::min(limit as int - 1, rest_fil.len() as int));
        assert(sel =~= fil.take(m)) by {
            assert(rest_sel == rest_fil.take(m - 1));
            assert(fil.take(m)[0] == pages[i]);
            assert(forall|j: int| 0 <= j < m - 1 ==> fil.take(m)[j + 1] == #[trigger] rest_fil[j]);
        }
    } else {
        lemma_selected_is_filtered_prefix(pages, namespaces, limit, i + 1);
    }
}

} // verus!
