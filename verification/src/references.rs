//! The reference list: which entries it holds, in which order, and its
//! lines.

use crate::config::{CitationStyle, Config, ConfigView};
use crate::document::{Document, Node, NodeView, TextBlock};
use crate::entry::{lookup, Bibliography, Entry, EntryView};
use crate::format::{format_reference, reference_text};
use crate::order::{
    entry_le, lemma_entry_le_total, lemma_entry_le_transitive, order_entries, Order,
};
use crate::registry::{indexed, Registry};
use crate::sorting::{lemma_inserted_at, lemma_stably_sorted, stably_sorted, total, transitive};
use crate::text::{contains, occurs_in};
use vstd::prelude::*;

verus! {

/// An entry of the reference list with the index of its key in the
/// registry.
pub type Cited = (EntryView, usize);

/// The entries of the registered keys, in the order of the registry. A key
/// that the bibliography does not hold is passed over.
pub open spec fn entries_by_citation(keys: Seq<Seq<char>>, bib: Seq<EntryView>) -> Seq<Cited>
    decreases keys.len(),
{
    if keys.len() == 0 {
        Seq::empty()
    } else {
        let before = entries_by_citation(keys.drop_last(), bib);
        match lookup(bib, keys.last()) {
            Some(entry) => before.push((entry, (keys.len() - 1) as usize)),
            None => before,
        }
    }
}

/// The entries of the bibliography whose key is registered, in the order
/// of the bibliography.
pub open spec fn cited_entries(bib: Seq<EntryView>, keys: Seq<Seq<char>>) -> Seq<Cited>
    decreases bib.len(),
{
    if bib.len() == 0 {
        Seq::empty()
    } else {
        let before = cited_entries(bib.drop_last(), keys);
        if keys.contains(bib.last().key) {
            before.push((bib.last(), keys.index_of(bib.last().key) as usize))
        } else {
            before
        }
    }
}

/// An entry does not come after another in the reference list.
pub open spec fn cited_le() -> spec_fn(Cited, Cited) -> bool {
    |a: Cited, b: Cited| entry_le(a.0, b.0)
}

/// The items in the order of the reference list under the author-year
/// style. Items that the order does not tell apart keep the order in
/// which they stand in `items`.
pub open spec fn sorted_entries(items: Seq<Cited>) -> Seq<Cited> {
    stably_sorted(items, cited_le())
}

/// The entries of the reference list, in its order: the order of first
/// citation under the index style, the order by author and year under the
/// author-year style.
pub open spec fn listed_entries(
    keys: Seq<Seq<char>>,
    bib: Seq<EntryView>,
    style: CitationStyle,
) -> Seq<Cited> {
    match style {
        CitationStyle::Index => entries_by_citation(keys, bib),
        CitationStyle::AuthorYear => sorted_entries(cited_entries(bib, keys)),
    }
}

/// The line of a listed entry. The number it may show is the index of its
/// key plus one.
pub open spec fn listed_line(item: Cited, config: ConfigView) -> Seq<char> {
    reference_text(item.0, (item.1 + 1) as nat, config)
}

/// The lines of the reference list: the line of each entry, with one empty
/// line between consecutive entries.
pub open spec fn reference_lines(items: Seq<Cited>, config: ConfigView) -> Seq<Seq<char>>
    decreases items.len(),
{
    if items.len() == 0 {
        Seq::empty()
    } else if items.len() == 1 {
        seq![listed_line(items[0], config)]
    } else {
        reference_lines(items.drop_last(), config).push(Seq::empty()).push(
            listed_line(items.last(), config),
        )
    }
}

/// The first line at or after `from` in which the placeholder occurs.
pub open spec fn placeholder_line_from(
    lines: Seq<Seq<char>>,
    placeholder: Seq<char>,
    from: int,
) -> Option<int>
    decreases lines.len() - from,
{
    if from < 0 || from >= lines.len() {
        None
    } else if occurs_in(lines[from], placeholder) {
        Some(from)
    } else {
        placeholder_line_from(lines, placeholder, from + 1)
    }
}

/// The first place at or after the node `from` where the placeholder
/// occurs: the node, which is a text block, and the line in it.
pub open spec fn placeholder_from(
    nodes: Seq<NodeView>,
    placeholder: Seq<char>,
    from: int,
) -> Option<(int, int)>
    decreases nodes.len() - from,
{
    if from < 0 || from >= nodes.len() {
        None
    } else {
        match nodes[from] {
            NodeView::Text(lines) => match placeholder_line_from(lines, placeholder, 0) {
                Some(line) => Some((from, line)),
                None => placeholder_from(nodes, placeholder, from + 1),
            },
            NodeView::Other => placeholder_from(nodes, placeholder, from + 1),
        }
    }
}

/// The first place of a document where the placeholder occurs.
pub open spec fn placeholder_place(nodes: Seq<NodeView>, placeholder: Seq<char>) -> Option<
    (int, int),
> {
    placeholder_from(nodes, placeholder, 0)
}

/// The lines with the line `at` replaced by the lines `references`.
pub open spec fn spliced(lines: Seq<Seq<char>>, at: int, references: Seq<Seq<char>>) -> Seq<
    Seq<char>,
> {
    lines.take(at) + references + lines.skip(at + 1)
}

/// The lines of a node; none for a node that is no text block.
pub open spec fn lines_of(node: NodeView) -> Seq<Seq<char>> {
    match node {
        NodeView::Text(lines) => lines,
        NodeView::Other => Seq::empty(),
    }
}

/// The document with the references in the place of the first line that
/// holds the placeholder; the document as it is where no line holds it.
pub open spec fn with_references(
    nodes: Seq<NodeView>,
    placeholder: Seq<char>,
    references: Seq<Seq<char>>,
) -> Seq<NodeView> {
    match placeholder_place(nodes, placeholder) {
        Some((node, line)) => nodes.update(
            node,
            NodeView::Text(spliced(lines_of(nodes[node]), line, references)),
        ),
        None => nodes,
    }
}

/// The order of the reference list is total and transitive.
pub proof fn lemma_cited_le()
    ensures
        total(cited_le()),
        transitive(cited_le()),
{
    assert forall|a: Cited, b: Cited| #[trigger] cited_le()(a, b) || cited_le()(b, a) by {
        lemma_entry_le_total(a.0, b.0);
    }
    assert forall|a: Cited, b: Cited, c: Cited| #[trigger]
        cited_le()(a, b) && #[trigger] cited_le()(b, c) implies cited_le()(a, c) by {
        lemma_entry_le_transitive(a.0, b.0, c.0);
    }
}

/// The reference list under the author-year style is ordered by authors
/// and year: no entry comes after an entry that stands behind it. The
/// list holds exactly the items that were to be ordered, each as often as
/// it was given.
pub proof fn lemma_sorted_entries(items: Seq<Cited>)
    ensures
        forall|i: int, j: int|
            0 <= i < j < sorted_entries(items).len() ==> entry_le(
                sorted_entries(items)[i].0,
                sorted_entries(items)[j].0,
            ),
        sorted_entries(items).to_multiset() == items.to_multiset(),
        sorted_entries(items).len() == items.len(),
{
    lemma_cited_le();
    lemma_stably_sorted(items, cited_le());
    let sorted = sorted_entries(items);
    assert forall|i: int, j: int| 0 <= i < j < sorted.len() implies entry_le(
        sorted[i].0,
        sorted[j].0,
    ) by {
        assert(cited_le()(sorted[i], sorted[j]));
    }
}

/// The reference list has one line for each entry and one empty line
/// between consecutive entries: the line of the entry `k` stands at
/// position `2 * k`, and every line at an odd position is empty.
pub proof fn lemma_reference_lines(items: Seq<Cited>, config: ConfigView)
    ensures
        items.len() == 0 ==> reference_lines(items, config).len() == 0,
        items.len() > 0 ==> reference_lines(items, config).len() == 2 * items.len() - 1,
        forall|k: int|
            0 <= k < items.len() ==> #[trigger] reference_lines(items, config)[2 * k]
                == listed_line(items[k], config),
        forall|k: int|
            0 <= k < items.len() - 1 ==> #[trigger] reference_lines(items, config)[2 * k + 1]
                == Seq::<char>::empty(),
    decreases items.len(),
{
    if items.len() > 1 {
        let front = items.drop_last();
        lemma_reference_lines(front, config);
        let lines = reference_lines(items, config);
        assert forall|k: int| 0 <= k < items.len() implies #[trigger] lines[2 * k] == listed_line(
            items[k],
            config,
        ) by {
            if k < items.len() - 1 {
                assert(lines[2 * k] == reference_lines(front, config)[2 * k]);
                assert(front[k] == items[k]);
            }
        }
        assert forall|k: int| 0 <= k < items.len() - 1 implies #[trigger] lines[2 * k + 1]
            == Seq::<char>::empty() by {
            if k < items.len() - 2 {
                assert(lines[2 * k + 1] == reference_lines(front, config)[2 * k + 1]);
            }
        }
    }
}

/// A splice replaces one line and touches no other: the lines before the
/// placeholder and the lines behind it stay as they are, with the
/// references between them.
pub proof fn lemma_spliced(lines: Seq<Seq<char>>, at: int, references: Seq<Seq<char>>)
    requires
        0 <= at < lines.len(),
    ensures
        spliced(lines, at, references).len() == lines.len() - 1 + references.len(),
        forall|k: int| 0 <= k < at ==> #[trigger] spliced(lines, at, references)[k] == lines[k],
        forall|k: int|
            0 <= k < references.len() ==> #[trigger] spliced(lines, at, references)[at + k]
                == references[k],
        forall|k: int|
            at < k < lines.len() ==> spliced(lines, at, references)[k - 1 + references.len()]
                == #[trigger] lines[k],
{
}

/// The place of the placeholder is the first line that holds it: no text
/// block before its node holds the placeholder, and no line before it in
/// its node. A document has no such place exactly when no line of its
/// text blocks holds the placeholder.
pub proof fn lemma_placeholder_place(nodes: Seq<NodeView>, placeholder: Seq<char>)
    ensures
        match placeholder_place(nodes, placeholder) {
            Some((node, line)) => {
                &&& 0 <= node < nodes.len()
                &&& nodes[node] is Text
                &&& 0 <= line < lines_of(nodes[node]).len()
                &&& occurs_in(lines_of(nodes[node])[line], placeholder)
                &&& forall|l: int|
                    0 <= l < line ==> !occurs_in(#[trigger] lines_of(nodes[node])[l], placeholder)
                &&& forall|n: int, l: int|
                    0 <= n < node && 0 <= l < lines_of(nodes[n]).len() ==> !occurs_in(
                        #[trigger] lines_of(nodes[n])[l],
                        placeholder,
                    )
            },
            None => forall|n: int, l: int|
                0 <= n < nodes.len() && 0 <= l < lines_of(nodes[n]).len() ==> !occurs_in(
                    #[trigger] lines_of(nodes[n])[l],
                    placeholder,
                ),
        },
{
    lemma_placeholder_from(nodes, placeholder, 0);
}

/// `placeholder_line_from` finds the first line at or after `from` that
/// holds the placeholder.
pub proof fn lemma_placeholder_line_from(lines: Seq<Seq<char>>, placeholder: Seq<char>, from: int)
    requires
        0 <= from,
    ensures
        match placeholder_line_from(lines, placeholder, from) {
            Some(line) => {
                &&& from <= line < lines.len()
                &&& occurs_in(lines[line], placeholder)
                &&& forall|l: int| from <= l < line ==> !occurs_in(#[trigger] lines[l], placeholder)
            },
            None => forall|l: int|
                from <= l < lines.len() ==> !occurs_in(#[trigger] lines[l], placeholder),
        },
    decreases lines.len() - from,
{
    if from < lines.len() && !occurs_in(lines[from], placeholder) {
        lemma_placeholder_line_from(lines, placeholder, from + 1);
    }
}

/// `placeholder_from` finds the first place at or after the node `from`
/// that holds the placeholder.
pub proof fn lemma_placeholder_from(nodes: Seq<NodeView>, placeholder: Seq<char>, from: int)
    requires
        0 <= from,
    ensures
        match placeholder_from(nodes, placeholder, from) {
            Some((node, line)) => {
                &&& from <= node < nodes.len()
                &&& nodes[node] is Text
                &&& 0 <= line < lines_of(nodes[node]).len()
                &&& occurs_in(lines_of(nodes[node])[line], placeholder)
                &&& forall|l: int|
                    0 <= l < line ==> !occurs_in(#[trigger] lines_of(nodes[node])[l], placeholder)
                &&& forall|n: int, l: int|
                    from <= n < node && 0 <= l < lines_of(nodes[n]).len() ==> !occurs_in(
                        #[trigger] lines_of(nodes[n])[l],
                        placeholder,
                    )
            },
            None => forall|n: int, l: int|
                from <= n < nodes.len() && 0 <= l < lines_of(nodes[n]).len() ==> !occurs_in(
                    #[trigger] lines_of(nodes[n])[l],
                    placeholder,
                ),
        },
    decreases nodes.len() - from,
{
    if from < nodes.len() {
        lemma_placeholder_line_from(lines_of(nodes[from]), placeholder, 0);
        match nodes[from] {
            NodeView::Text(lines) => {
                if placeholder_line_from(lines, placeholder, 0).is_none() {
                    lemma_placeholder_from(nodes, placeholder, from + 1);
                }
            },
            NodeView::Other => {
                lemma_placeholder_from(nodes, placeholder, from + 1);
            },
        }
    }
}

/// A line that is the placeholder holds the placeholder.
pub proof fn lemma_placeholder_occurs_in_itself(placeholder: Seq<char>)
    ensures
        occurs_in(placeholder, placeholder),
{
    assert(placeholder.subrange(0, placeholder.len() as int) =~= placeholder);
    assert(crate::text::occurs_at(placeholder, placeholder, 0));
}

/// The splice of a document: where the line `line` of the text block
/// `node` is the placeholder and no line before it holds the placeholder,
/// that line is replaced by exactly the lines of the references. The lines
/// before it and behind it, and every other node, stay as they are.
pub proof fn lemma_placeholder_splice(
    nodes: Seq<NodeView>,
    placeholder: Seq<char>,
    references: Seq<Seq<char>>,
    node: int,
    line: int,
)
    requires
        0 <= node < nodes.len(),
        nodes[node] is Text,
        0 <= line < lines_of(nodes[node]).len(),
        lines_of(nodes[node])[line] == placeholder,
        forall|l: int|
            0 <= l < line ==> !occurs_in(#[trigger] lines_of(nodes[node])[l], placeholder),
        forall|n: int, l: int|
            0 <= n < node && 0 <= l < lines_of(nodes[n]).len() ==> !occurs_in(
                #[trigger] lines_of(nodes[n])[l],
                placeholder,
            ),
    ensures
        placeholder_place(nodes, placeholder) == Some((node, line)),
        with_references(nodes, placeholder, references).len() == nodes.len(),
        forall|n: int|
            0 <= n < nodes.len() && n != node ==> #[trigger] with_references(
                nodes,
                placeholder,
                references,
            )[n] == nodes[n],
        with_references(nodes, placeholder, references)[node] == NodeView::Text(
            lines_of(nodes[node]).take(line) + references + lines_of(nodes[node]).skip(line + 1),
        ),
{
    lemma_placeholder_occurs_in_itself(placeholder);
    lemma_placeholder_place(nodes, placeholder);
    match placeholder_place(nodes, placeholder) {
        Some((n, l)) => {
            if n < node {
                assert(!occurs_in(lines_of(nodes[n])[l], placeholder));
            } else if n > node {
                assert(!occurs_in(lines_of(nodes[node])[line], placeholder));
            } else if l < line {
                assert(!occurs_in(lines_of(nodes[node])[l], placeholder));
            } else if l > line {
                assert(!occurs_in(lines_of(nodes[node])[line], placeholder));
            }
        },
        None => {
            assert(!occurs_in(lines_of(nodes[node])[line], placeholder));
        },
    }
}

/// Under the index style the references stand in the order of first
/// citation: each listed entry is the entry of a registered key, and the
/// indices of the keys ascend along the list.
pub proof fn lemma_entries_by_citation(keys: Seq<Seq<char>>, bib: Seq<EntryView>)
    requires
        keys.len() <= usize::MAX,
    ensures
        forall|k: int|
            0 <= k < entries_by_citation(keys, bib).len() ==> {
                let item = #[trigger] entries_by_citation(keys, bib)[k];
                0 <= item.1 < keys.len() && lookup(bib, keys[item.1 as int]) == Some(item.0)
            },
        forall|i: int, j: int|
            0 <= i < j < entries_by_citation(keys, bib).len() ==> entries_by_citation(
                keys,
                bib,
            )[i].1 < entries_by_citation(keys, bib)[j].1,
        forall|i: int|
            0 <= i < keys.len() && lookup(bib, keys[i]).is_some() ==> exists|k: int|
                0 <= k < entries_by_citation(keys, bib).len() && #[trigger] entries_by_citation(
                    keys,
                    bib,
                )[k].1 == i,
    decreases keys.len(),
{
    if keys.len() > 0 {
        let front = keys.drop_last();
        lemma_entries_by_citation(front, bib);
        let before = entries_by_citation(front, bib);
        let all = entries_by_citation(keys, bib);
        assert forall|k: int| 0 <= k < all.len() implies {
            let item = #[trigger] all[k];
            0 <= item.1 < keys.len() && lookup(bib, keys[item.1 as int]) == Some(item.0)
        } by {
            if k < before.len() {
                assert(all[k] == before[k]);
                assert(front[before[k].1 as int] == keys[before[k].1 as int]);
            }
        }
        assert forall|i: int, j: int| 0 <= i < j < all.len() implies all[i].1 < all[j].1 by {
            assert(all[i] == before[i]);
            if j < before.len() {
                assert(all[j] == before[j]);
            }
        }
        assert forall|i: int| 0 <= i < keys.len() && lookup(bib, keys[i]).is_some() implies exists|
            k: int,
        |
            0 <= k < all.len() && #[trigger] all[k].1 == i by {
            if i < keys.len() - 1 {
                assert(front[i] == keys[i]);
                let k = choose|k: int| 0 <= k < before.len() && #[trigger] before[k].1 == i;
                assert(all[k] == before[k]);
            } else {
                assert(all[all.len() - 1].1 == i);
            }
        }
    }
}

/// Under the author-year style the references are the cited part of the
/// bibliography: each is an entry whose key is registered, and every entry
/// whose key is registered is among them.
pub proof fn lemma_cited_entries(bib: Seq<EntryView>, keys: Seq<Seq<char>>)
    ensures
        forall|k: int|
            0 <= k < cited_entries(bib, keys).len() ==> {
                let item = #[trigger] cited_entries(bib, keys)[k];
                keys.contains(item.0.key) && bib.contains(item.0) && item.1 == keys.index_of(
                    item.0.key,
                ) as usize
            },
        forall|i: int|
            0 <= i < bib.len() && keys.contains(bib[i].key) ==> exists|k: int|
                0 <= k < cited_entries(bib, keys).len() && (#[trigger] cited_entries(
                    bib,
                    keys,
                )[k]).0 == bib[i],
    decreases bib.len(),
{
    if bib.len() > 0 {
        let front = bib.drop_last();
        lemma_cited_entries(front, keys);
        let before = cited_entries(front, keys);
        let all = cited_entries(bib, keys);
        assert forall|k: int| 0 <= k < all.len() implies {
            let item = #[trigger] all[k];
            keys.contains(item.0.key) && bib.contains(item.0) && item.1 == keys.index_of(
                item.0.key,
            ) as usize
        } by {
            if k < before.len() {
                assert(all[k] == before[k]);
                let i = choose|i: int| 0 <= i < front.len() && front[i] == before[k].0;
                assert(bib[i] == front[i]);
            } else {
                assert(all[k].0 == bib[bib.len() - 1]);
            }
        }
        assert forall|i: int| 0 <= i < bib.len() && keys.contains(bib[i].key) implies exists|
            k: int,
        |
            0 <= k < all.len() && (#[trigger] all[k]).0 == bib[i] by {
            if i < bib.len() - 1 {
                assert(front[i] == bib[i]);
                let k = choose|k: int| 0 <= k < before.len() && (#[trigger] before[k]).0 == bib[i];
                assert(all[k] == before[k]);
            } else {
                assert(all[all.len() - 1].0 == bib[i]);
            }
        }
    }
}

/// The entries of the registered keys, in the order of the registry.
fn select_by_citation<'a>(citations: &Registry, bibliography: &'a Bibliography) -> (items: Vec<
    (&'a Entry, usize),
>)
    requires
        citations.wf(),
    ensures
        items.deep_view() == entries_by_citation(citations@, bibliography@),
        forall|k: int| 0 <= k < items.len() ==> (#[trigger] items@[k]).1 < citations@.len(),
{
    let pairs = citations.snapshot();
    let ghost keys = citations@;
    let ghost bib = bibliography@;
    let mut items: Vec<(&'a Entry, usize)> = Vec::new();
    assert(items.deep_view() =~= Seq::<Cited>::empty());
    assert(keys.take(0) =~= Seq::<Seq<char>>::empty());
    assert(pairs.deep_view().len() == pairs.len());
    let mut i: usize = 0;
    while i < pairs.len()
        invariant
            i <= pairs.len(),
            pairs.len() == keys.len(),
            keys == citations@,
            bib == bibliography@,
            pairs.deep_view() == indexed(keys),
            items.deep_view() == entries_by_citation(keys.take(i as int), bib),
            forall|k: int| 0 <= k < items.len() ==> (#[trigger] items@[k]).1 < keys.len(),
        decreases pairs.len() - i,
    {
        let ghost before = items.deep_view();
        assert(pairs.deep_view()[i as int] == (keys[i as int], i));
        assert(pairs@[i as int].0@ == keys[i as int]);
        assert(pairs@[i as int].1 == i);
        proof {
            let next = keys.take(i + 1);
            assert(next.drop_last() =~= keys.take(i as int));
            assert(next.last() == keys[i as int]);
        }
        match bibliography.get(pairs[i].0.as_str()) {
            Some(entry) => {
                items.push((entry, pairs[i].1));
                assert(items.deep_view() =~= before.push((entry@, i)));
            },
            None => {},
        }
        i += 1;
    }
    assert(keys.take(keys.len() as int) =~= keys);
    items
}

/// The entries of the bibliography whose key is registered, in the order
/// of the bibliography.
fn select_cited<'a>(citations: &Registry, bibliography: &'a Bibliography) -> (items: Vec<
    (&'a Entry, usize),
>)
    requires
        citations.wf(),
    ensures
        items.deep_view() == cited_entries(bibliography@, citations@),
        forall|k: int| 0 <= k < items.len() ==> (#[trigger] items@[k]).1 < citations@.len(),
{
    let ghost keys = citations@;
    let ghost bib = bibliography@;
    let mut items: Vec<(&'a Entry, usize)> = Vec::new();
    assert(items.deep_view() =~= Seq::<Cited>::empty());
    assert(bib.take(0) =~= Seq::<EntryView>::empty());
    let mut i: usize = 0;
    while i < bibliography.entries.len()
        invariant
            i <= bibliography.entries.len(),
            citations.wf(),
            keys == citations@,
            bib == bibliography@,
            items.deep_view() == cited_entries(bib.take(i as int), keys),
            forall|k: int| 0 <= k < items.len() ==> (#[trigger] items@[k]).1 < keys.len(),
        decreases bibliography.entries.len() - i,
    {
        let ghost before = items.deep_view();
        let entry = &bibliography.entries[i];
        proof {
            let next = bib.take(i + 1);
            assert(next.drop_last() =~= bib.take(i as int));
            assert(next.last() == entry@);
        }
        match citations.get(entry.key.as_str()) {
            Some(index) => {
                items.push((entry, index));
                assert(items.deep_view() =~= before.push((entry@, index)));
            },
            None => {},
        }
        i += 1;
    }
    assert(bib.take(bib.len() as int) =~= bib);
    items
}

/// Puts the items into the order of the reference list.
fn sort_entries<'a>(items: Vec<(&'a Entry, usize)>, Ghost(bound): Ghost<nat>) -> (sorted: Vec<
    (&'a Entry, usize),
>)
    requires
        forall|k: int| 0 <= k < items.len() ==> (#[trigger] items@[k]).1 < bound,
    ensures
        sorted.deep_view() == sorted_entries(items.deep_view()),
        forall|k: int| 0 <= k < sorted.len() ==> (#[trigger] sorted@[k]).1 < bound,
{
    let ghost all = items.deep_view();
    let mut sorted: Vec<(&'a Entry, usize)> = Vec::new();
    assert(sorted.deep_view() =~= Seq::<Cited>::empty());
    assert(all.take(0) =~= Seq::<Cited>::empty());
    let mut i: usize = 0;
    while i < items.len()
        invariant
            i <= items.len(),
            all == items.deep_view(),
            sorted.len() == i,
            sorted.deep_view() == sorted_entries(all.take(i as int)),
            forall|k: int| 0 <= k < items.len() ==> (#[trigger] items@[k]).1 < bound,
            forall|k: int| 0 <= k < sorted.len() ==> (#[trigger] sorted@[k]).1 < bound,
        decreases items.len() - i,
    {
        let item = items[i];
        let ghost before = sorted.deep_view();
        let ghost before_items = sorted@;
        let mut j: usize = sorted.len();
        while j > 0 && order_entries(sorted[j - 1].0, item.0) == Order::Greater
            invariant
                j <= sorted.len(),
                before == sorted.deep_view(),
                forall|k: int|
                    j <= k < before.len() ==> !cited_le()(#[trigger] before[k], item.deep_view()),
            decreases j,
        {
            assert(before[j - 1] == sorted@[j - 1].deep_view());
            j -= 1;
        }
        proof {
            if j > 0 {
                assert(before[j - 1] == sorted@[j - 1].deep_view());
            }
            lemma_inserted_at(before, item.deep_view(), cited_le(), j as int);
            let next = all.take(i + 1);
            assert(next.drop_last() =~= all.take(i as int));
            assert(next.last() == item.deep_view());
        }
        sorted.insert(j, item);
        proof {
            assert(sorted.deep_view() =~= before.insert(j as int, item.deep_view()));
            assert forall|k: int| 0 <= k < sorted.len() implies (#[trigger] sorted@[k]).1
                < bound by {
                if k < j {
                    assert(sorted@[k] == before_items[k]);
                } else if k > j {
                    assert(sorted@[k] == before_items[k - 1]);
                }
            }
        }
        i += 1;
    }
    assert(all.take(all.len() as int) =~= all);
    sorted
}

/// Renders the reference list: one line for each registered key that the
/// bibliography holds, with an empty line between consecutive references
/// and none at the end. Under the index style the references stand in the
/// order of first citation; under the author-year style they are ordered
/// by authors and year.
pub fn render_references(
    citations: &Registry,
    bibliography: &Bibliography,
    config: &Config,
) -> (text: Vec<String>)
    requires
        citations.wf(),
    ensures
        text.deep_view() == reference_lines(
            listed_entries(citations@, bibliography@, config.citation_style),
            config@,
        ),
{
    proof {
        citations.lemma_keys_distinct();
    }
    let items = match config.citation_style {
        CitationStyle::Index => select_by_citation(citations, bibliography),
        CitationStyle::AuthorYear => {
            let cited = select_cited(citations, bibliography);
            sort_entries(cited, Ghost(citations@.len()))
        },
    };
    let ghost listed = items.deep_view();
    let mut text: Vec<String> = Vec::new();
    assert(text.deep_view() =~= Seq::<Seq<char>>::empty());
    assert(listed.take(0) =~= Seq::<Cited>::empty());
    let mut i: usize = 0;
    while i < items.len()
        invariant
            i <= items.len(),
            listed == items.deep_view(),
            citations@.len() <= usize::MAX,
            forall|k: int| 0 <= k < items.len() ==> (#[trigger] items@[k]).1 < citations@.len(),
            text.deep_view() == reference_lines(listed.take(i as int), config@),
        decreases items.len() - i,
    {
        let ghost before = text.deep_view();
        let (entry, index) = items[i];
        assert(items@[i as int].1 < citations@.len());
        let line = format_reference(entry, index + 1, config);
        proof {
            let next = listed.take(i + 1);
            assert(next.drop_last() =~= listed.take(i as int));
            assert(next.last() == (entry@, index));
        }
        if i > 0 {
            text.push(String::new());
        }
        text.push(line);
        proof {
            if i > 0 {
                assert(text.deep_view() =~= before.push(Seq::empty()).push(line@));
            } else {
                assert(text.deep_view() =~= seq![line@]);
            }
        }
        i += 1;
    }
    assert(listed.take(listed.len() as int) =~= listed);
    text
}

/// The first line of `block` in which the placeholder occurs.
fn find_placeholder_line(block: &TextBlock, placeholder: &str) -> (r: Option<usize>)
    ensures
        match r {
            Some(line) => placeholder_line_from(block@, placeholder@, 0) == Some(line as int)
                && line < block.text.len(),
            None => placeholder_line_from(block@, placeholder@, 0).is_none(),
        },
{
    let mut i: usize = 0;
    while i < block.text.len()
        invariant
            i <= block.text.len(),
            placeholder_line_from(block@, placeholder@, 0) == placeholder_line_from(
                block@,
                placeholder@,
                i as int,
            ),
        decreases block.text.len() - i,
    {
        assert(block@[i as int] == block.text@[i as int]@);
        if contains(block.text[i].as_str(), placeholder) {
            return Some(i);
        }
        i += 1;
    }
    None
}

/// Replaces the line `at` of `block` by the lines `references`.
fn splice_block(block: &mut TextBlock, at: usize, references: Vec<String>)
    requires
        at < old(block).text.len(),
    ensures
        final(block)@ == spliced(old(block)@, at as int, references.deep_view()),
{
    let ghost lines = block@;
    let ghost refs = references.deep_view();
    let mut references = references;
    let mut tail = block.text.split_off(at);
    tail.remove(0);
    assert(block@ =~= lines.take(at as int));
    assert(tail.deep_view() =~= lines.skip(at + 1));
    block.text.append(&mut references);
    block.text.append(&mut tail);
    assert(block@ =~= spliced(lines, at as int, refs));
}

/// Puts the reference list in the place of the placeholder: the first
/// line of the document, in the order of its text blocks, in which the
/// placeholder occurs is replaced by the lines of the reference list;
/// every other line stays. A document without the placeholder stays as it
/// is. Returns whether the references are missing from the document:
/// whether it holds no placeholder although keys are registered.
pub fn insert_references(
    document: &mut Document,
    citations: &Registry,
    bibliography: &Bibliography,
    config: &Config,
) -> (missing: bool)
    requires
        citations.wf(),
    ensures
        final(document)@ == with_references(
            old(document)@,
            config.placeholder@,
            reference_lines(
                listed_entries(citations@, bibliography@, config.citation_style),
                config@,
            ),
        ),
        missing == (placeholder_place(old(document)@, config.placeholder@).is_none()
            && citations@.len() > 0),
{
    let ghost nodes = document@;
    let ghost placeholder = config.placeholder@;
    let mut n: usize = 0;
    while n < document.nodes.len()
        invariant
            n <= document.nodes.len(),
            citations.wf(),
            document@ == nodes,
            *document == *old(document),
            placeholder == config.placeholder@,
            placeholder_place(nodes, placeholder) == placeholder_from(nodes, placeholder, n as int),
        decreases document.nodes.len() - n,
    {
        assert(nodes[n as int] == document.nodes@[n as int]@);
        let found = match &document.nodes[n] {
            Node::Text(block) => find_placeholder_line(block, config.placeholder.as_str()),
            Node::Other => None,
        };
        if let Some(line) = found {
            let references = render_references(citations, bibliography, config);
            let ghost items_before = document.nodes@;
            let ghost refs = references.deep_view();
            match &mut document.nodes[n] {
                Node::Text(block) => {
                    splice_block(block, line, references);
                },
                Node::Other => {},
            }
            proof {
                let replaced = NodeView::Text(
                    spliced(lines_of(nodes[n as int]), line as int, refs),
                );
                assert(document.nodes@.len() == items_before.len());
                assert(document.nodes@[n as int]@ == replaced);
                assert forall|j: int| 0 <= j < nodes.len() && j != n implies document@[j]
                    == nodes[j] by {
                    assert(document.nodes@[j] == items_before[j]);
                    assert(nodes[j] == items_before[j]@);
                }
                assert(document@ =~= nodes.update(n as int, replaced));
            }
            return false;
        }
        n += 1;
    }
    !citations.is_empty()
}

} // verus!
