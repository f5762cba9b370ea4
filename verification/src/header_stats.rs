//! The header count table and the markup tree walker: every heading
//! encountered in the selected pages is recorded, per normalized header key,
//! in a per-level counter record for heading levels 2 through 6.

use vstd::prelude::*;
use crate::key::extract_key;
use crate::key::heading_key;
use crate::nodes::NodeKind;
use crate::nodes::Node;
use crate::nodes::ListItem;
use crate::nodes::TableCaption;
use crate::nodes::TableRow;
use crate::nodes::TableCell;
use crate::nodes::TemplateParameter;
use crate::nodes::count_in_node;
use crate::nodes::count_in_nodes;
use crate::nodes::count_in_nodes_from;
use crate::nodes::count_in_items;
use crate::nodes::count_in_items_from;
use crate::nodes::count_in_item;
use crate::nodes::count_in_captions;
use crate::nodes::count_in_captions_from;
use crate::nodes::count_in_caption;
use crate::nodes::count_in_rows;
use crate::nodes::count_in_rows_from;
use crate::nodes::count_in_row;
use crate::nodes::count_in_cells;
use crate::nodes::count_in_cells_from;
use crate::nodes::count_in_cell;
use crate::nodes::count_in_tparams;
use crate::nodes::count_in_tparams_from;
use crate::nodes::count_in_tparam;
use crate::page::Page;
use crate::page::corpus_count;
use crate::page::corpus_count_from;

verus! {

/// The lowest heading level that is aggregated.
pub const MIN_HEADER_LEVEL: u8 = 2;

/// The highest heading level that is aggregated.
pub const MAX_HEADER_LEVEL: u8 = 6;

/// The per-header counter record: one occurrence count per heading level in
/// the closed range from 2 to 6.
#[derive(Clone, Copy, Debug, PartialEq, Eq, Structural)]
pub struct HeaderCounts {
    level2: usize,
    level3: usize,
    level4: usize,
    level5: usize,
    level6: usize,
}

impl HeaderCounts {
    /// The occurrence count recorded at `level`; zero for levels outside the
    /// aggregated range.
    pub closed spec fn spec_count(self, level: int) -> nat {
        if level == 2 {
            self.level2 as nat
        } else if level == 3 {
            self.level3 as nat
        } else if level == 4 {
            self.level4 as nat
        } else if level == 5 {
            self.level5 as nat
        } else if level == 6 {
            self.level6 as nat
        } else {
            0
        }
    }

    /// The total number of occurrences recorded over all levels.
    pub open spec fn total(self) -> nat {
        self.spec_count(2) + self.spec_count(3) + self.spec_count(4) + self.spec_count(5)
            + self.spec_count(6)
    }

    /// A zero-initialized record.
    pub fn new() -> (r: Self)
        ensures
            forall|l: int| r.spec_count(l) == 0,
    {
        HeaderCounts { level2: 0, level3: 0, level4: 0, level5: 0, level6: 0 }
    }

    /// The count recorded at `level`, or nothing when `level` is outside the
    /// aggregated range from 2 to 6.
    pub fn count(&self, level: u8) -> (r: Option<usize>)
        ensures
            2 <= level <= 6 ==> (r matches Some(c) && c as nat == self.spec_count(level as int)),
            !(2 <= level <= 6) ==> r is None,
    {
        if level == 2 {
            Some(self.level2)
        } else if level == 3 {
            Some(self.level3)
        } else if level == 4 {
            Some(self.level4)
        } else if level == 5 {
            Some(self.level5)
        } else if level == 6 {
            Some(self.level6)
        } else {
            None
        }
    }

    /// Increment the count at `level` by exactly one.
    fn increment(&mut self, level: u8)
        requires
            2 <= level <= 6,
            old(self).spec_count(level as int) < usize::MAX,
        ensures
            forall|l: int|
                final(self).spec_count(l) == if l == level as int {
                    old(self).spec_count(l) + 1
                } else {
                    old(self).spec_count(l)
                },
    {
        if level == 2 {
            self.level2 = self.level2 + 1;
        } else if level == 3 {
            self.level3 = self.level3 + 1;
        } else if level == 4 {
            self.level4 = self.level4 + 1;
        } else if level == 5 {
            self.level5 = self.level5 + 1;
        } else {
            self.level6 = self.level6 + 1;
        }
    }
}

/// The mapping that a sequence of key-record entries denotes: later entries
/// shadow earlier ones, though the table never holds two entries with one
/// key.
pub open spec fn kv_map(entries: Seq<(String, HeaderCounts)>) -> Map<Seq<char>, HeaderCounts>
    decreases entries.len(),
{
    if entries.len() == 0 {
        Map::empty()
    } else {
        kv_map(entries.drop_last()).insert(entries.last().0@, entries.last().1)
    }
}

/// No two entries hold the same key.
pub open spec fn distinct_keys(entries: Seq<(String, HeaderCounts)>) -> bool {
    forall|i: int, j: int|
        0 <= i < j < entries.len() ==> (#[trigger] entries[i]).0@ != (#[trigger] entries[j]).0@
}

/// A key is in the denoted mapping exactly when some entry holds it.
proof fn lemma_kv_contains(entries: Seq<(String, HeaderCounts)>, key: Seq<char>)
    ensures
        kv_map(entries).dom().contains(key) <==> exists|i: int|
            0 <= i < entries.len() && (#[trigger] entries[i]).0@ == key,
    decreases entries.len(),
{
    if entries.len() > 0 {
        let dl = entries.drop_last();
        lemma_kv_contains(dl, key);
        if key == entries.last().0@ {
            assert(entries[entries.len() - 1].0@ == key);
        } else {
            if kv_map(entries).dom().contains(key) {
                let i = choose|i: int| 0 <= i < dl.len() && (#[trigger] dl[i]).0@ == key;
                assert(entries[i].0@ == key);
            }
            if exists|i: int| 0 <= i < entries.len() && (#[trigger] entries[i]).0@ == key {
                let i = choose|i: int|
                    0 <= i < entries.len() && (#[trigger] entries[i]).0@ == key;
                assert(dl[i].0@ == key);
            }
        }
    }
}

/// With distinct keys, the mapping sends each entry's key to that entry's
/// record.
proof fn lemma_kv_index(entries: Seq<(String, HeaderCounts)>, i: int)
    requires
        distinct_keys(entries),
        0 <= i < entries.len(),
    ensures
        kv_map(entries).dom().contains(entries[i].0@),
        kv_map(entries)[entries[i].0@] == entries[i].1,
    decreases entries.len(),
{
    let dl = entries.drop_last();
    if i == entries.len() - 1 {
    } else {
        assert(forall|m: int| 0 <= m < dl.len() ==> dl[m] == entries[m]);
        lemma_kv_index(dl, i);
        assert(entries[i].0@ != entries.last().0@);
    }
}

/// Replacing the record of an entry replaces it in the denoted mapping.
proof fn lemma_kv_update(entries: Seq<(String, HeaderCounts)>, i: int, p: (String, HeaderCounts))
    requires
        distinct_keys(entries),
        0 <= i < entries.len(),
        p.0@ == entries[i].0@,
    ensures
        kv_map(entries.update(i, p)) == kv_map(entries).insert(p.0@, p.1),
    decreases entries.len(),
{
    let e2 = entries.update(i, p);
    let dl = entries.drop_last();
    if i == entries.len() - 1 {
        assert(e2.drop_last() =~= dl);
        assert(e2.last() == p);
        assert(kv_map(dl).insert(entries.last().0@, entries.last().1).insert(p.0@, p.1) =~= kv_map(
            dl,
        ).insert(p.0@, p.1));
    } else {
        assert(forall|m: int| 0 <= m < dl.len() ==> dl[m] == entries[m]);
        lemma_kv_update(dl, i, p);
        assert(e2.drop_last() =~= dl.update(i, p));
        assert(e2.last() == entries.last());
        assert(p.0@ != entries.last().0@);
        assert(kv_map(dl).insert(p.0@, p.1).insert(entries.last().0@, entries.last().1) =~= kv_map(
            dl,
        ).insert(entries.last().0@, entries.last().1).insert(p.0@, p.1));
    }
}

/// Appending an entry inserts it into the denoted mapping.
proof fn lemma_kv_push(entries: Seq<(String, HeaderCounts)>, p: (String, HeaderCounts))
    ensures
        kv_map(entries.push(p)) == kv_map(entries).insert(p.0@, p.1),
{
    assert(entries.push(p).drop_last() =~= entries);
    assert(entries.push(p).last() == p);
}

/// The header count table: the records of every header key observed so far,
/// each key held by exactly one entry.
#[derive(Debug)]
pub struct HeaderStats {
    /// The table's entries: one per distinct header key.
    pub header_counts: Vec<(String, HeaderCounts)>,
}

impl HeaderStats {
    /// The mapping from header key to counter record that the table holds.
    pub open spec fn as_map(self) -> Map<Seq<char>, HeaderCounts> {
        kv_map(self.header_counts@)
    }

    /// The count recorded for header key `key` at heading level `level`:
    /// zero when the key has never been observed.
    pub open spec fn count_of(self, key: Seq<char>, level: int) -> nat {
        if self.as_map().dom().contains(key) {
            self.as_map()[key].spec_count(level)
        } else {
            0
        }
    }

    /// The table's invariant: keys are unique, and every entry was observed
    /// at least once.
    pub open spec fn wf(self) -> bool {
        &&& distinct_keys(self.header_counts@)
        &&& forall|i: int|
            0 <= i < self.header_counts@.len() ==> (#[trigger] self.header_counts@[i]).1.total()
                > 0
    }

    /// An empty table, with every count zero.
    pub fn new() -> (r: Self)
        ensures
            r.wf(),
            r.header_counts@.len() == 0,
            forall|k: Seq<char>, l: int| r.count_of(k, l) == 0,
    {
        Self { header_counts: Vec::new() }
    }

    /// A key is present in the table exactly when it has been observed at
    /// least once at some level from 2 to 6.
    pub proof fn lemma_key_present_iff_counted(self, key: Seq<char>)
        requires
            self.wf(),
        ensures
            self.as_map().dom().contains(key) <==> exists|l: int|
                2 <= l <= 6 && #[trigger] self.count_of(key, l) > 0,
    {
        if self.as_map().dom().contains(key) {
            lemma_kv_contains(self.header_counts@, key);
            let i = choose|i: int|
                0 <= i < self.header_counts@.len() && (#[trigger] self.header_counts@[i]).0@
                    == key;
            lemma_kv_index(self.header_counts@, i);
            let c = self.header_counts@[i].1;
            assert(c.total() > 0);
            if c.spec_count(2) > 0 {
                assert(self.count_of(key, 2) > 0);
            } else if c.spec_count(3) > 0 {
                assert(self.count_of(key, 3) > 0);
            } else if c.spec_count(4) > 0 {
                assert(self.count_of(key, 4) > 0);
            } else if c.spec_count(5) > 0 {
                assert(self.count_of(key, 5) > 0);
            } else {
                assert(self.count_of(key, 6) > 0);
            }
        }
    }

    /// The counter record held for header key `key`, or nothing when that
    /// key has never been observed.
    #[verifier::loop_isolation(false)]
    pub fn get(&self, key: &str) -> (r: Option<HeaderCounts>)
        requires
            self.wf(),
        ensures
            self.as_map().dom().contains(key@) ==> (r matches Some(c) && c == self.as_map().index(
                key@,
            )),
            !self.as_map().dom().contains(key@) ==> r is None,
    {
        let owned = key.to_owned();
        let n = self.header_counts.len();
        let mut i: usize = 0;
        while i < n
            invariant
                i <= n,
                forall|m: int| 0 <= m < i ==> (#[trigger] self.header_counts@[m]).0@ != key@,
            decreases n - i,
        {
            let e = &self.header_counts[i];
            if e.0 == owned {
                proof {
                    lemma_kv_index(self.header_counts@, i as int);
                }
                return Some(e.1);
            }
            i = i + 1;
        }
        proof {
            lemma_kv_contains(self.header_counts@, key@);
            if self.as_map().dom().contains(key@) {
                let w = choose|w: int|
                    0 <= w < self.header_counts@.len() && (#[trigger] self.header_counts@[w]).0@
                        == key@;
                assert(self.header_counts@[w].0@ != key@);
            }
        }
        None
    }

    /// Record one occurrence of the heading whose child nodes are `nodes`, at
    /// heading level `level`, for the page `page`: the key is extracted and
    /// its counter record is created if absent, then its slot for `level` is
    /// incremented by exactly one.
    #[verifier::loop_isolation(false)]
    pub fn process_header(&mut self, page: &Page, nodes: &Vec<Node>, level: u8)
        requires
            old(self).wf(),
            2 <= level <= 6,
            old(self).count_of(heading_key(page.text@, nodes@), level as int) < usize::MAX,
        ensures
            final(self).wf(),
            forall|k: Seq<char>, l: int|
                final(self).count_of(k, l) == old(self).count_of(k, l) + (
                if k == heading_key(page.text@, nodes@) && l == level as int {
                    1nat
                } else {
                    0nat
                }),
    {
        let key = extract_key(page.text.as_str(), nodes);
        let ghost kq = heading_key(page.text@, nodes@);
        let n = self.header_counts.len();
        let mut idx: usize = 0;
        let mut found = false;
        while idx < n && !found
            invariant
                idx <= n,
                !found ==> forall|m: int|
                    0 <= m < idx ==> (#[trigger] self.header_counts@[m]).0@ != kq,
                found ==> idx < n && self.header_counts@[idx as int].0@ == kq,
            decreases n - idx, if found { 0int } else { 1int },
        {
            let e = &self.header_counts[idx];
            if e.0 == key {
                found = true;
            } else {
                idx = idx + 1;
            }
        }
        if found {
            proof {
                lemma_kv_index(self.header_counts@, idx as int);
            }
            let mut c = self.header_counts[idx].1;
            c.increment(level);
            self.header_counts[idx] = (key, c);
            proof {
                let p = self.header_counts@[idx as int];
                lemma_kv_update(old(self).header_counts@, idx as int, p);
                assert forall|m: int| 0 <= m < self.header_counts@.len() implies (
                #[trigger] self.header_counts@[m]).1.total() > 0 by {
                    if m != idx {
                        assert(self.header_counts@[m] == old(self).header_counts@[m]);
                    }
                }
                assert forall|k: Seq<char>, l: int|
                    self.count_of(k, l) == old(self).count_of(k, l) + (
                    if k == kq && l == level as int {
                        1nat
                    } else {
                        0nat
                    }) by {
                    if k == kq {
                        assert(self.as_map()[kq] == p.1);
                    }
                }
            }
        } else {
            proof {
                lemma_kv_contains(self.header_counts@, kq);
            }
            let mut c = HeaderCounts::new();
            c.increment(level);
            self.header_counts.push((key, c));
            proof {
                let p = self.header_counts@.last();
                lemma_kv_push(old(self).header_counts@, p);
                assert forall|m: int| 0 <= m < self.header_counts@.len() implies (
                #[trigger] self.header_counts@[m]).1.total() > 0 by {
                    if m < self.header_counts@.len() - 1 {
                        assert(self.header_counts@[m] == old(self).header_counts@[m]);
                    }
                }
                assert forall|i: int, j: int|
                    0 <= i < j < self.header_counts@.len() implies (
                #[trigger] self.header_counts@[i]).0@ != (#[trigger] self.header_counts@[j]).0@ by {
                    if j == self.header_counts@.len() - 1 {
                        assert(self.header_counts@[i] == old(self).header_counts@[i]);
                    } else {
                        assert(self.header_counts@[i] == old(self).header_counts@[i]);
                        assert(self.header_counts@[j] == old(self).header_counts@[j]);
                    }
                }
                assert forall|k: Seq<char>, l: int|
                    self.count_of(k, l) == old(self).count_of(k, l) + (
                    if k == kq && l == level as int {
                        1nat
                    } else {
                        0nat
                    }) by {
                    if k == kq {
                        assert(self.as_map()[kq] == p.1);
                    }
                }
            }
        }
    }
    /// Process a corpus of pages: keep the pages whose namespace is in the
    /// include-set, in stream order, stop once `page_limit` of them have been
    /// taken, and record every heading of every page so selected.
    #[verifier::loop_isolation(false)]
    pub fn parse(&mut self, pages: &Vec<Page>, page_limit: usize, namespaces: &Vec<u32>)
        requires
            old(self).wf(),
            forall|k: Seq<char>, l: int|
                2 <= l <= 6 ==> old(self).count_of(k, l) + corpus_count(
                    pages@,
                    namespaces@,
                    page_limit as nat,
                    k,
                    l,
                ) <= usize::MAX,
        ensures
            final(self).wf(),
            forall|k: Seq<char>, l: int|
                2 <= l <= 6 ==> final(self).count_of(k, l) == old(self).count_of(k, l)
                    + corpus_count(pages@, namespaces@, page_limit as nat, k, l),
    {
        let n = pages.len();
        let mut i: usize = 0;
        let mut taken: usize = 0;
        while i < n && taken < page_limit
            invariant
                i <= n,
                taken <= page_limit,
                self.wf(),
                forall|k: Seq<char>, l: int|
                    2 <= l <= 6 ==> self.count_of(k, l) + corpus_count_from(
                        pages@,
                        namespaces@,
                        (page_limit - taken) as nat,
                        i as int,
                        k,
                        l,
                    ) == old(self).count_of(k, l) + corpus_count(
                        pages@,
                        namespaces@,
                        page_limit as nat,
                        k,
                        l,
                    ),
            decreases n - i,
        {
            let page = &pages[i];
            let ghost rem = (page_limit - taken) as nat;
            if crate::page::namespace_included(namespaces, page.namespace) {
                let ghost pre = *self;
                proof {
                    assert forall|k: Seq<char>, l: int|
                        2 <= l <= 6 implies pre.count_of(k, l) + count_in_nodes(
                        pages@[i as int].nodes@,
                        pages@[i as int].text@,
                        k,
                        l,
                    ) <= usize::MAX by {
                        assert(corpus_count_from(pages@, namespaces@, rem, i as int, k, l)
                            == count_in_nodes(pages@[i as int].nodes@, pages@[i as int].text@, k, l)
                            + corpus_count_from(
                            pages@,
                            namespaces@,
                            (rem - 1) as nat,
                            i as int + 1,
                            k,
                            l,
                        ));
                    }
                }
                self.process_nodes(page, &page.nodes);
                taken = taken + 1;
                proof {
                    assert forall|k: Seq<char>, l: int|
                        2 <= l <= 6 implies self.count_of(k, l) + corpus_count_from(
                        pages@,
                        namespaces@,
                        (page_limit - taken) as nat,
                        i as int + 1,
                        k,
                        l,
                    ) == old(self).count_of(k, l) + corpus_count(
                        pages@,
                        namespaces@,
                        page_limit as nat,
                        k,
                        l,
                    ) by {
                        assert(corpus_count_from(pages@, namespaces@, rem, i as int, k, l)
                            == count_in_nodes(pages@[i as int].nodes@, pages@[i as int].text@, k, l)
                            + corpus_count_from(
                            pages@,
                            namespaces@,
                            (rem - 1) as nat,
                            i as int + 1,
                            k,
                            l,
                        ));
                    }
                }
            } else {
                proof {
                    assert forall|k: Seq<char>, l: int|
                        2 <= l <= 6 implies corpus_count_from(
                        pages@,
                        namespaces@,
                        rem,
                        i as int,
                        k,
                        l,
                    ) == corpus_count_from(pages@, namespaces@, rem, i as int + 1, k, l) by {
                        assert(!namespaces@.contains(pages@[i as int].namespace));
                    }
                }
            }
            i = i + 1;
        }
        proof {
            let rem = (page_limit - taken) as nat;
            assert forall|k: Seq<char>, l: int|
                2 <= l <= 6 implies #[trigger] corpus_count_from(
                pages@,
                namespaces@,
                rem,
                i as int,
                k,
                l,
            ) == 0 by {
            }
        }
    }

    /// Visit a sequence of sibling markup nodes of `page`, recording every
    /// heading they contain, at any nesting depth, into the table.
    #[verifier::loop_isolation(false)]
    pub fn process_nodes(&mut self, page: &Page, nodes: &Vec<Node>)
        requires
            old(self).wf(),
            forall|k: Seq<char>, l: int|
                2 <= l <= 6 ==> old(self).count_of(k, l) + count_in_nodes(nodes@, page.text@, k, l)
                    <= usize::MAX,
        ensures
            final(self).wf(),
            forall|k: Seq<char>, l: int|
                2 <= l <= 6 ==> final(self).count_of(k, l) == old(self).count_of(k, l)
                    + count_in_nodes(nodes@, page.text@, k, l),
        decreases nodes@,
    {
        let ghost t = page.text@;
        let n = nodes.len();
        let mut i: usize = 0;
        while i < n
            invariant
                i <= n,
                self.wf(),
                forall|k: Seq<char>, l: int|
                    2 <= l <= 6 ==> self.count_of(k, l) + count_in_nodes_from(
                        nodes@,
                        t,
                        k,
                        l,
                        i as int,
                    ) == old(self).count_of(k, l) + count_in_nodes(nodes@, t, k, l),
            decreases n - i,
        {
            let ghost pre = *self;
            proof {
                assert forall|k: Seq<char>, l: int|
                    2 <= l <= 6 implies pre.count_of(k, l) + count_in_node(nodes@[i as int], t, k, l)
                        <= usize::MAX by {
                    assert(count_in_nodes_from(nodes@, t, k, l, i as int) == count_in_node(
                        nodes@[i as int],
                        t,
                        k,
                        l,
                    ) + count_in_nodes_from(nodes@, t, k, l, i as int + 1));
                }
            }
            self.process_node(page, &nodes[i]);
            proof {
                assert forall|k: Seq<char>, l: int|
                    2 <= l <= 6 implies self.count_of(k, l) + count_in_nodes_from(
                        nodes@,
                        t,
                        k,
                        l,
                        i as int + 1,
                    ) == old(self).count_of(k, l) + count_in_nodes(nodes@, t, k, l) by {
                    assert(count_in_nodes_from(nodes@, t, k, l, i as int) == count_in_node(
                        nodes@[i as int],
                        t,
                        k,
                        l,
                    ) + count_in_nodes_from(nodes@, t, k, l, i as int + 1));
                }
            }
            i = i + 1;
        }
        proof {
            assert(forall|k: Seq<char>, l: int|
                count_in_nodes_from(nodes@, t, k, l, n as int) == 0);
        }
    }

    /// Visit one markup node, dispatching on its kind: a heading is recorded,
    /// structural kinds are descended into, and leaf kinds are passed over.
    fn process_node(&mut self, page: &Page, node: &Node)
        requires
            old(self).wf(),
            forall|k: Seq<char>, l: int|
                2 <= l <= 6 ==> old(self).count_of(k, l) + count_in_node(*node, page.text@, k, l)
                    <= usize::MAX,
        ensures
            final(self).wf(),
            forall|k: Seq<char>, l: int|
                2 <= l <= 6 ==> final(self).count_of(k, l) == old(self).count_of(k, l)
                    + count_in_node(*node, page.text@, k, l),
        decreases node,
    {
        let ghost t = page.text@;
        match &node.kind {
            NodeKind::Heading { nodes, level } => {
                let lvl = *level;
                if MIN_HEADER_LEVEL <= lvl && lvl <= MAX_HEADER_LEVEL {
                    proof {
                        let hk = heading_key(t, nodes@);
                        assert(count_in_node(*node, t, hk, lvl as int) == 1);
                    }
                    self.process_header(page, nodes, lvl);
                }
            },
            NodeKind::DefinitionList { items } => {
                self.process_items(page, items);
            },
            NodeKind::OrderedList { items } => {
                self.process_items(page, items);
            },
            NodeKind::UnorderedList { items } => {
                self.process_items(page, items);
            },
            NodeKind::Preformatted { nodes } => {
                self.process_nodes(page, nodes);
            },
            NodeKind::Tag { nodes } => {
                self.process_nodes(page, nodes);
            },
            NodeKind::Image { text } => {
                self.process_nodes(page, text);
            },
            NodeKind::Link { text } => {
                self.process_nodes(page, text);
            },
            NodeKind::Parameter { name, default } => {
                match default {
                    Some(nodes) => {
                        self.process_nodes(page, nodes);
                    },
                    None => {},
                }
                self.process_nodes(page, name);
            },
            NodeKind::Table { attributes, captions, rows } => {
                self.process_nodes(page, attributes);
                self.process_captions(page, captions);
                self.process_rows(page, rows);
            },
            NodeKind::Template { name, parameters } => {
                self.process_nodes(page, name);
                self.process_tparams(page, parameters);
            },
            NodeKind::Bold => {},
            NodeKind::BoldItalic => {},
            NodeKind::Category => {},
            NodeKind::CharacterEntity => {},
            NodeKind::Comment => {},
            NodeKind::EndTag => {},
            NodeKind::ExternalLink => {},
            NodeKind::HorizontalDivider => {},
            NodeKind::Italic => {},
            NodeKind::MagicWord => {},
            NodeKind::ParagraphBreak => {},
            NodeKind::Redirect => {},
            NodeKind::StartTag => {},
            NodeKind::Text => {},
        }
    }

    /// Visit every item of a list, recursing into each item's content.
    #[verifier::loop_isolation(false)]
    fn process_items(&mut self, page: &Page, items: &Vec<ListItem>)
        requires
            old(self).wf(),
            forall|k: Seq<char>, l: int|
                2 <= l <= 6 ==> old(self).count_of(k, l) + count_in_items(items@, page.text@, k, l)
                    <= usize::MAX,
        ensures
            final(self).wf(),
            forall|k: Seq<char>, l: int|
                2 <= l <= 6 ==> final(self).count_of(k, l) == old(self).count_of(k, l)
                    + count_in_items(items@, page.text@, k, l),
        decreases items@,
    {
        let ghost t = page.text@;
        let n = items.len();
        let mut i: usize = 0;
        while i < n
            invariant
                i <= n,
                self.wf(),
                forall|k: Seq<char>, l: int|
                    2 <= l <= 6 ==> self.count_of(k, l) + count_in_items_from(
                        items@,
                        t,
                        k,
                        l,
                        i as int,
                    ) == old(self).count_of(k, l) + count_in_items(items@, t, k, l),
            decreases n - i,
        {
            let ghost pre = *self;
            proof {
                assert forall|k: Seq<char>, l: int|
                    2 <= l <= 6 implies pre.count_of(k, l) + count_in_nodes(
                        items@[i as int].nodes@,
                        t,
                        k,
                        l,
                    ) <= usize::MAX by {
                    assert(count_in_items_from(items@, t, k, l, i as int) == count_in_item(
                        items@[i as int],
                        t,
                        k,
                        l,
                    ) + count_in_items_from(items@, t, k, l, i as int + 1));
                }
            }
            let item = &items[i];
            self.process_nodes(page, &item.nodes);
            proof {
                assert forall|k: Seq<char>, l: int|
                    2 <= l <= 6 implies self.count_of(k, l) + count_in_items_from(
                        items@,
                        t,
                        k,
                        l,
                        i as int + 1,
                    ) == old(self).count_of(k, l) + count_in_items(items@, t, k, l) by {
                    assert(count_in_items_from(items@, t, k, l, i as int) == count_in_item(
                        items@[i as int],
                        t,
                        k,
                        l,
                    ) + count_in_items_from(items@, t, k, l, i as int + 1));
                }
            }
            i = i + 1;
        }
        proof {
            assert(forall|k: Seq<char>, l: int|
                count_in_items_from(items@, t, k, l, n as int) == 0);
        }
    }

    /// Visit every caption of a table: its attributes, when present, and its
    /// content.
    #[verifier::loop_isolation(false)]
    fn process_captions(&mut self, page: &Page, captions: &Vec<TableCaption>)
        requires
            old(self).wf(),
            forall|k: Seq<char>, l: int|
                2 <= l <= 6 ==> old(self).count_of(k, l) + count_in_captions(
                    captions@,
                    page.text@,
                    k,
                    l,
                ) <= usize::MAX,
        ensures
            final(self).wf(),
            forall|k: Seq<char>, l: int|
                2 <= l <= 6 ==> final(self).count_of(k, l) == old(self).count_of(k, l)
                    + count_in_captions(captions@, page.text@, k, l),
        decreases captions@,
    {
        let ghost t = page.text@;
        let n = captions.len();
        let mut i: usize = 0;
        while i < n
            invariant
                i <= n,
                self.wf(),
                forall|k: Seq<char>, l: int|
                    2 <= l <= 6 ==> self.count_of(k, l) + count_in_captions_from(
                        captions@,
                        t,
                        k,
                        l,
                        i as int,
                    ) == old(self).count_of(k, l) + count_in_captions(captions@, t, k, l),
            decreases n - i,
        {
            let ghost pre = *self;
            proof {
                assert forall|k: Seq<char>, l: int|
                    2 <= l <= 6 implies pre.count_of(k, l) + count_in_caption(
                        captions@[i as int],
                        t,
                        k,
                        l,
                    ) <= usize::MAX by {
                    assert(count_in_captions_from(captions@, t, k, l, i as int) == count_in_caption(
                        captions@[i as int],
                        t,
                        k,
                        l,
                    ) + count_in_captions_from(captions@, t, k, l, i as int + 1));
                }
            }
            let caption = &captions[i];
            match &caption.attributes {
                Some(attributes) => {
                    self.process_nodes(page, attributes);
                },
                None => {},
            }
            self.process_nodes(page, &caption.content);
            proof {
                assert forall|k: Seq<char>, l: int|
                    2 <= l <= 6 implies self.count_of(k, l) + count_in_captions_from(
                        captions@,
                        t,
                        k,
                        l,
                        i as int + 1,
                    ) == old(self).count_of(k, l) + count_in_captions(captions@, t, k, l) by {
                    assert(count_in_captions_from(captions@, t, k, l, i as int) == count_in_caption(
                        captions@[i as int],
                        t,
                        k,
                        l,
                    ) + count_in_captions_from(captions@, t, k, l, i as int + 1));
                }
            }
            i = i + 1;
        }
        proof {
            assert(forall|k: Seq<char>, l: int|
                count_in_captions_from(captions@, t, k, l, n as int) == 0);
        }
    }

    /// Visit every row of a table: its attributes and its cells.
    #[verifier::loop_isolation(false)]
    fn process_rows(&mut self, page: &Page, rows: &Vec<TableRow>)
        requires
            old(self).wf(),
            forall|k: Seq<char>, l: int|
                2 <= l <= 6 ==> old(self).count_of(k, l) + count_in_rows(rows@, page.text@, k, l)
                    <= usize::MAX,
        ensures
            final(self).wf(),
            forall|k: Seq<char>, l: int|
                2 <= l <= 6 ==> final(self).count_of(k, l) == old(self).count_of(k, l)
                    + count_in_rows(rows@, page.text@, k, l),
        decreases rows@,
    {
        let ghost t = page.text@;
        let n = rows.len();
        let mut i: usize = 0;
        while i < n
            invariant
                i <= n,
                self.wf(),
                forall|k: Seq<char>, l: int|
                    2 <= l <= 6 ==> self.count_of(k, l) + count_in_rows_from(
                        rows@,
                        t,
                        k,
                        l,
                        i as int,
                    ) == old(self).count_of(k, l) + count_in_rows(rows@, t, k, l),
            decreases n - i,
        {
            let ghost pre = *self;
            proof {
                assert forall|k: Seq<char>, l: int|
                    2 <= l <= 6 implies pre.count_of(k, l) + count_in_row(rows@[i as int], t, k, l)
                        <= usize::MAX by {
                    assert(count_in_rows_from(rows@, t, k, l, i as int) == count_in_row(
                        rows@[i as int],
                        t,
                        k,
                        l,
                    ) + count_in_rows_from(rows@, t, k, l, i as int + 1));
                }
            }
            let row = &rows[i];
            self.process_nodes(page, &row.attributes);
            self.process_cells(page, &row.cells);
            proof {
                assert forall|k: Seq<char>, l: int|
                    2 <= l <= 6 implies self.count_of(k, l) + count_in_rows_from(
                        rows@,
                        t,
                        k,
                        l,
                        i as int + 1,
                    ) == old(self).count_of(k, l) + count_in_rows(rows@, t, k, l) by {
                    assert(count_in_rows_from(rows@, t, k, l, i as int) == count_in_row(
                        rows@[i as int],
                        t,
                        k,
                        l,
                    ) + count_in_rows_from(rows@, t, k, l, i as int + 1));
                }
            }
            i = i + 1;
        }
        proof {
            assert(forall|k: Seq<char>, l: int| count_in_rows_from(rows@, t, k, l, n as int) == 0);
        }
    }

    /// Visit every cell of a table row: its attributes, when present, and its
    /// content.
    #[verifier::loop_isolation(false)]
    fn process_cells(&mut self, page: &Page, cells: &Vec<TableCell>)
        requires
            old(self).wf(),
            forall|k: Seq<char>, l: int|
                2 <= l <= 6 ==> old(self).count_of(k, l) + count_in_cells(cells@, page.text@, k, l)
                    <= usize::MAX,
        ensures
            final(self).wf(),
            forall|k: Seq<char>, l: int|
                2 <= l <= 6 ==> final(self).count_of(k, l) == old(self).count_of(k, l)
                    + count_in_cells(cells@, page.text@, k, l),
        decreases cells@,
    {
        let ghost t = page.text@;
        let n = cells.len();
        let mut i: usize = 0;
        while i < n
            invariant
                i <= n,
                self.wf(),
                forall|k: Seq<char>, l: int|
                    2 <= l <= 6 ==> self.count_of(k, l) + count_in_cells_from(
                        cells@,
                        t,
                        k,
                        l,
                        i as int,
                    ) == old(self).count_of(k, l) + count_in_cells(cells@, t, k, l),
            decreases n - i,
        {
            let ghost pre = *self;
            proof {
                assert forall|k: Seq<char>, l: int|
                    2 <= l <= 6 implies pre.count_of(k, l) + count_in_cell(
                        cells@[i as int],
                        t,
                        k,
                        l,
                    ) <= usize::MAX by {
                    assert(count_in_cells_from(cells@, t, k, l, i as int) == count_in_cell(
                        cells@[i as int],
                        t,
                        k,
                        l,
                    ) + count_in_cells_from(cells@, t, k, l, i as int + 1));
                }
            }
            let cell = &cells[i];
            match &cell.attributes {
                Some(attributes) => {
                    self.process_nodes(page, attributes);
                },
                None => {},
            }
            self.process_nodes(page, &cell.content);
            proof {
                assert forall|k: Seq<char>, l: int|
                    2 <= l <= 6 implies self.count_of(k, l) + count_in_cells_from(
                        cells@,
                        t,
                        k,
                        l,
                        i as int + 1,
                    ) == old(self).count_of(k, l) + count_in_cells(cells@, t, k, l) by {
                    assert(count_in_cells_from(cells@, t, k, l, i as int) == count_in_cell(
                        cells@[i as int],
                        t,
                        k,
                        l,
                    ) + count_in_cells_from(cells@, t, k, l, i as int + 1));
                }
            }
            i = i + 1;
        }
        proof {
            assert(forall|k: Seq<char>, l: int|
                count_in_cells_from(cells@, t, k, l, n as int) == 0);
        }
    }

    /// Visit every parameter of a template: its name, when given explicitly,
    /// and its value.
    #[verifier::loop_isolation(false)]
    fn process_tparams(&mut self, page: &Page, params: &Vec<TemplateParameter>)
        requires
            old(self).wf(),
            forall|k: Seq<char>, l: int|
                2 <= l <= 6 ==> old(self).count_of(k, l) + count_in_tparams(
                    params@,
                    page.text@,
                    k,
                    l,
                ) <= usize::MAX,
        ensures
            final(self).wf(),
            forall|k: Seq<char>, l: int|
                2 <= l <= 6 ==> final(self).count_of(k, l) == old(self).count_of(k, l)
                    + count_in_tparams(params@, page.text@, k, l),
        decreases params@,
    {
        let ghost t = page.text@;
        let n = params.len();
        let mut i: usize = 0;
        while i < n
            invariant
                i <= n,
                self.wf(),
                forall|k: Seq<char>, l: int|
                    2 <= l <= 6 ==> self.count_of(k, l) + count_in_tparams_from(
                        params@,
                        t,
                        k,
                        l,
                        i as int,
                    ) == old(self).count_of(k, l) + count_in_tparams(params@, t, k, l),
            decreases n - i,
        {
            let ghost pre = *self;
            proof {
                assert forall|k: Seq<char>, l: int|
                    2 <= l <= 6 implies pre.count_of(k, l) + count_in_tparam(
                        params@[i as int],
                        t,
                        k,
                        l,
                    ) <= usize::MAX by {
                    assert(count_in_tparams_from(params@, t, k, l, i as int) == count_in_tparam(
                        params@[i as int],
                        t,
                        k,
                        l,
                    ) + count_in_tparams_from(params@, t, k, l, i as int + 1));
                }
            }
            let param = &params[i];
            match &param.name {
                Some(name) => {
                    self.process_nodes(page, name);
                },
                None => {},
            }
            self.process_nodes(page, &param.value);
            proof {
                assert forall|k: Seq<char>, l: int|
                    2 <= l <= 6 implies self.count_of(k, l) + count_in_tparams_from(
                        params@,
                        t,
                        k,
                        l,
                        i as int + 1,
                    ) == old(self).count_of(k, l) + count_in_tparams(params@, t, k, l) by {
                    assert(count_in_tparams_from(params@, t, k, l, i as int) == count_in_tparam(
                        params@[i as int],
                        t,
                        k,
                        l,
                    ) + count_in_tparams_from(params@, t, k, l, i as int + 1));
                }
            }
            i = i + 1;
        }
        proof {
            assert(forall|k: Seq<char>, l: int|
                count_in_tparams_from(params@, t, k, l, n as int) == 0);
        }
    }
}

/// True when both byte positions of a parser warning lie inside the page
/// text, whose length in bytes is `text_len`: only then can the warning's
/// range be sliced out of the text for display.
pub fn warning_in_range(start: usize, end: usize, text_len: usize) -> (r: bool)
    ensures
        r == (start < text_len && end < text_len),
{
    start < text_len && end < text_len
}

} // verus!
