//! Rendering of documents: citations are rewritten block by block, the
//! reference list is built from the registry and put in the place of the
//! placeholder.

use crate::config::{Config, ConfigView};
use crate::document::{Document, Node, NodeView, TextBlock};
use crate::entry::{Bibliography, EntryView};
use crate::order::{
    lemma_text_order_flip, lemma_text_order_transitive, order_texts, text_order, Order,
};
use crate::paths::{link_prefix_of, relative_link};
use crate::registry::Registry;
use crate::scan::{render_citations_line, scan_line, Scan};
use crate::sorting::{lemma_inserted_at, lemma_stably_sorted, stably_sorted, total, transitive};
use crate::text::str_eq;
use vstd::prelude::*;
use vstd::string::*;

verus! {

/// The lines of a block with their citations rewritten, line after line.
pub open spec fn scan_block(
    lines: Seq<Seq<char>>,
    bib: Seq<EntryView>,
    link_prefix: Option<Seq<char>>,
    config: ConfigView,
    keys: Seq<Seq<char>>,
) -> Scan<Seq<Seq<char>>>
    decreases lines.len(),
{
    if lines.len() == 0 {
        Scan { text: Seq::empty(), keys: keys, missing: Seq::empty() }
    } else {
        let before = scan_block(lines.drop_last(), bib, link_prefix, config, keys);
        let last = scan_line(lines.last(), bib, link_prefix, config, before.keys);
        Scan {
            text: before.text.push(last.text),
            keys: last.keys,
            missing: before.missing + last.missing,
        }
    }
}

/// A node with its citations rewritten: only text blocks change.
pub open spec fn scan_node(
    node: NodeView,
    bib: Seq<EntryView>,
    link_prefix: Option<Seq<char>>,
    config: ConfigView,
    keys: Seq<Seq<char>>,
) -> Scan<NodeView> {
    match node {
        NodeView::Text(lines) => {
            let block = scan_block(lines, bib, link_prefix, config, keys);
            Scan { text: NodeView::Text(block.text), keys: block.keys, missing: block.missing }
        },
        NodeView::Other => Scan { text: node, keys: keys, missing: Seq::empty() },
    }
}

/// The nodes of a document with their citations rewritten, node after
/// node.
pub open spec fn scan_document(
    nodes: Seq<NodeView>,
    bib: Seq<EntryView>,
    link_prefix: Option<Seq<char>>,
    config: ConfigView,
    keys: Seq<Seq<char>>,
) -> Scan<Seq<NodeView>>
    decreases nodes.len(),
{
    if nodes.len() == 0 {
        Scan { text: Seq::empty(), keys: keys, missing: Seq::empty() }
    } else {
        let before = scan_document(nodes.drop_last(), bib, link_prefix, config, keys);
        let last = scan_node(nodes.last(), bib, link_prefix, config, before.keys);
        Scan {
            text: before.text.push(last.text),
            keys: last.keys,
            missing: before.missing + last.missing,
        }
    }
}

/// Documents with their citations rewritten, document after document, all
/// with one registry. Each document links to the references in
/// `refs_file`.
pub open spec fn scan_documents(
    documents: Seq<(Seq<char>, Seq<NodeView>)>,
    bib: Seq<EntryView>,
    config: ConfigView,
    refs_file: Seq<char>,
    keys: Seq<Seq<char>>,
) -> Scan<Seq<(Seq<char>, Seq<NodeView>)>>
    decreases documents.len(),
{
    if documents.len() == 0 {
        Scan { text: Seq::empty(), keys: keys, missing: Seq::empty() }
    } else {
        let before = scan_documents(documents.drop_last(), bib, config, refs_file, keys);
        let path = documents.last().0;
        let last = scan_document(
            documents.last().1,
            bib,
            link_prefix_of(path, refs_file),
            config,
            before.keys,
        );
        Scan {
            text: before.text.push((path, last.text)),
            keys: last.keys,
            missing: before.missing + last.missing,
        }
    }
}

/// A document with its path.
pub type Named = (Seq<char>, Seq<NodeView>);

/// A document does not come after another: its path does not come after
/// the path of the other in the order of texts.
pub open spec fn path_le() -> spec_fn(Named, Named) -> bool {
    |a: Named, b: Named| text_order(a.0, b.0) != Order::Greater
}

/// The documents in the order of their paths. Documents of one path keep
/// the order in which they were given.
pub open spec fn documents_by_path(documents: Seq<Named>) -> Seq<Named> {
    stably_sorted(documents, path_le())
}

/// The order of documents is total and transitive.
pub proof fn lemma_path_le()
    ensures
        total(path_le()),
        transitive(path_le()),
{
    assert forall|a: Named, b: Named| #[trigger] path_le()(a, b) || path_le()(b, a) by {
        lemma_text_order_flip(a.0, b.0, 0);
    }
    assert forall|a: Named, b: Named, c: Named| #[trigger]
        path_le()(a, b) && #[trigger] path_le()(b, c) implies path_le()(a, c) by {
        lemma_text_order_transitive(a.0, b.0, c.0, 0);
        lemma_text_order_flip(a.0, b.0, 0);
        lemma_text_order_flip(b.0, c.0, 0);
        lemma_text_order_flip(a.0, c.0, 0);
    }
}

/// Documents are scanned in an order that depends on their paths alone:
/// the documents in the order of their paths stand by ascending path, and
/// they are the documents that were given, each as often as it was given.
pub proof fn lemma_documents_by_path(documents: Seq<Named>)
    ensures
        forall|i: int, j: int|
            0 <= i < j < documents_by_path(documents).len() ==> text_order(
                documents_by_path(documents)[i].0,
                documents_by_path(documents)[j].0,
            ) != Order::Greater,
        documents_by_path(documents).to_multiset() == documents.to_multiset(),
        documents_by_path(documents).len() == documents.len(),
{
    lemma_path_le();
    lemma_stably_sorted(documents, path_le());
    let sorted = documents_by_path(documents);
    assert forall|i: int, j: int| 0 <= i < j < sorted.len() implies text_order(
        sorted[i].0,
        sorted[j].0,
    ) != Order::Greater by {
        assert(path_le()(sorted[i], sorted[j]));
    }
}

/// Rewrites the citation markers of every line of `block`, top to bottom,
/// registering the cited keys in `citations`. Returns the markers whose key
/// the bibliography does not hold; they are left in the text as they
/// stand.
pub fn render_citations_block(
    block: &mut TextBlock,
    bibliography: &Bibliography,
    config: &Config,
    link_prefix: Option<&String>,
    citations: &mut Registry,
) -> (missing: Vec<String>)
    requires
        old(citations).wf(),
    ensures
        final(citations).wf(),
        (Scan { text: final(block)@, keys: final(citations)@, missing: missing.deep_view() })
            == scan_block(
            old(block)@,
            bibliography@,
            link_prefix.deep_view(),
            config@,
            old(citations)@,
        ),
{
    let ghost lines = block@;
    let ghost bib = bibliography@;
    let ghost prefix = link_prefix.deep_view();
    let mut text: Vec<String> = Vec::new();
    let mut missing: Vec<String> = Vec::new();
    assert(text.deep_view() =~= Seq::<Seq<char>>::empty());
    assert(missing.deep_view() =~= Seq::<Seq<char>>::empty());
    assert(lines.take(0) =~= Seq::<Seq<char>>::empty());
    let mut i: usize = 0;
    while i < block.text.len()
        invariant
            i <= block.text.len(),
            block@ == lines,
            citations.wf(),
            bib == bibliography@,
            prefix == link_prefix.deep_view(),
            (Scan { text: text.deep_view(), keys: citations@, missing: missing.deep_view() })
                == scan_block(lines.take(i as int), bib, prefix, config@, old(citations)@),
        decreases block.text.len() - i,
    {
        let ghost before = Scan {
            text: text.deep_view(),
            keys: citations@,
            missing: missing.deep_view(),
        };
        let (line, mut unknown) = render_citations_line(
            block.text[i].as_str(),
            bibliography,
            config,
            link_prefix,
            citations,
        );
        let ghost unknown_view = unknown.deep_view();
        text.push(line);
        missing.append(&mut unknown);
        proof {
            let next = lines.take(i + 1);
            assert(next.drop_last() =~= lines.take(i as int));
            assert(next.last() == block.text@[i as int]@);
            assert(text.deep_view() =~= before.text.push(line@));
            assert(missing.deep_view() =~= before.missing + unknown_view);
        }
        i += 1;
    }
    assert(lines.take(block.text.len() as int) =~= lines);
    block.text = text;
    missing
}

/// Rewrites the citation markers of every text block of `document`, in
/// order, registering the cited keys in `citations`. Returns the markers
/// whose key the bibliography does not hold.
pub fn render_citations_document(
    document: &mut Document,
    bibliography: &Bibliography,
    config: &Config,
    link_prefix: Option<&String>,
    citations: &mut Registry,
) -> (missing: Vec<String>)
    requires
        old(citations).wf(),
    ensures
        final(citations).wf(),
        (Scan { text: final(document)@, keys: final(citations)@, missing: missing.deep_view() })
            == scan_document(
            old(document)@,
            bibliography@,
            link_prefix.deep_view(),
            config@,
            old(citations)@,
        ),
{
    let ghost nodes = document@;
    let ghost bib = bibliography@;
    let ghost prefix = link_prefix.deep_view();
    let mut missing: Vec<String> = Vec::new();
    assert(missing.deep_view() =~= Seq::<Seq<char>>::empty());
    assert(nodes.take(0) =~= Seq::<NodeView>::empty());
    assert(document@.take(0) =~= Seq::<NodeView>::empty());
    let mut i: usize = 0;
    while i < document.nodes.len()
        invariant
            i <= document.nodes.len(),
            document@.len() == nodes.len(),
            forall|j: int| i <= j < nodes.len() ==> document@[j] == nodes[j],
            citations.wf(),
            bib == bibliography@,
            prefix == link_prefix.deep_view(),
            (Scan {
                text: document@.take(i as int),
                keys: citations@,
                missing: missing.deep_view(),
            }) == scan_document(nodes.take(i as int), bib, prefix, config@, old(citations)@),
        decreases document.nodes.len() - i,
    {
        let ghost before = Scan {
            text: document@.take(i as int),
            keys: citations@,
            missing: missing.deep_view(),
        };
        let ghost nodes_before = document.nodes@;
        let ghost view_before = document@;
        assert(forall|j: int| 0 <= j < nodes_before.len() ==> view_before[j] == nodes_before[j]@);
        let ghost mut unknown_view = Seq::<Seq<char>>::empty();
        match &mut document.nodes[i] {
            Node::Text(block) => {
                let mut unknown = render_citations_block(
                    block,
                    bibliography,
                    config,
                    link_prefix,
                    citations,
                );
                proof {
                    unknown_view = unknown.deep_view();
                }
                missing.append(&mut unknown);
            },
            Node::Other => {},
        }
        proof {
            let step = scan_node(nodes[i as int], bib, prefix, config@, before.keys);
            assert(view_before[i as int] == nodes[i as int]);
            assert(document.nodes@.len() == nodes_before.len());
            assert(document@[i as int] == step.text);
            assert(citations@ == step.keys);
            assert(unknown_view == step.missing);
            assert(missing.deep_view() =~= before.missing + unknown_view);
            assert forall|j: int| 0 <= j < document@.len() && j != i implies document@[j]
                == view_before[j] by {
                assert(document.nodes@[j] == nodes_before[j]);
            }
            let next = nodes.take(i + 1);
            assert(next.drop_last() =~= nodes.take(i as int));
            assert(next.last() == nodes[i as int]);
            assert(document@.take(i + 1) =~= before.text.push(step.text));
        }
        i += 1;
    }
    assert(nodes.take(nodes.len() as int) =~= nodes);
    assert(document@.take(document@.len() as int) =~= document@);
    missing
}

/// Rewrites the citation markers of `document`, which holds its own
/// references: citations link within the document. Returns the registry of
/// the cited keys and the markers whose key the bibliography does not
/// hold.
pub fn render_citations(
    document: &mut Document,
    bibliography: &Bibliography,
    config: &Config,
) -> (r: (Registry, Vec<String>))
    ensures
        r.0.wf(),
        (Scan { text: final(document)@, keys: r.0@, missing: r.1.deep_view() }) == scan_document(
            old(document)@,
            bibliography@,
            None,
            config@,
            Seq::empty(),
        ),
{
    let mut citations = Registry::new();
    let missing = render_citations_document(document, bibliography, config, None, &mut citations);
    (citations, missing)
}

/// Puts the documents into the order of their paths.
pub fn sort_documents(documents: &mut Vec<(String, Document)>)
    ensures
        final(documents).deep_view() == documents_by_path(old(documents).deep_view()),
{
    let ghost all = documents.deep_view();
    let mut rest: Vec<(String, Document)> = Vec::new();
    std::mem::swap(documents, &mut rest);
    assert(documents.deep_view() =~= Seq::<Named>::empty());
    assert(all.take(0) =~= Seq::<Named>::empty());
    assert(rest.deep_view() =~= all.skip(0));
    let ghost mut i: int = 0;
    while rest.len() > 0
        invariant
            0 <= i <= all.len(),
            rest.deep_view() == all.skip(i),
            documents.deep_view() == documents_by_path(all.take(i)),
        decreases rest.len(),
    {
        let ghost before = documents.deep_view();
        let ghost rest_before = rest.deep_view();
        let ghost rest_items = rest@;
        assert(rest_before.len() == rest.len());
        let item = rest.remove(0);
        assert(item.deep_view() == rest_before[0]);
        assert forall|k: int| 0 <= k < rest@.len() implies rest.deep_view()[k] == all.skip(
            i + 1,
        )[k] by {
            assert(rest@[k] == rest_items[k + 1]);
            assert(rest_before[k + 1] == rest_items[k + 1].deep_view());
        }
        assert(rest.deep_view() =~= all.skip(i + 1));
        let mut j: usize = documents.len();
        while j > 0 && order_texts(documents[j - 1].0.as_str(), item.0.as_str()) == Order::Greater
            invariant
                j <= documents.len(),
                before == documents.deep_view(),
                forall|k: int|
                    j <= k < before.len() ==> !path_le()(#[trigger] before[k], item.deep_view()),
            decreases j,
        {
            assert(before[j - 1] == documents@[j - 1].deep_view());
            j -= 1;
        }
        proof {
            if j > 0 {
                assert(before[j - 1] == documents@[j - 1].deep_view());
            }
            lemma_inserted_at(before, item.deep_view(), path_le(), j as int);
            let next = all.take(i + 1);
            assert(next.drop_last() =~= all.take(i));
            assert(next.last() == item.deep_view());
        }
        let ghost item_view = item.deep_view();
        documents.insert(j, item);
        proof {
            assert(documents.deep_view() =~= before.insert(j as int, item_view));
            i = i + 1;
        }
    }
    assert(all.take(all.len() as int) =~= all);
}

/// Rewrites the citation markers of all documents with one registry for
/// all of them. The documents are put into the order of their paths and
/// scanned in that order, so that the numbering depends on the documents
/// alone. A document other than `refs_file` links to the references by
/// the relative path from its own place to `refs_file`. Returns the
/// registry of the cited keys and the markers whose key the bibliography
/// does not hold.
pub fn render_citations_all(
    documents: &mut Vec<(String, Document)>,
    bibliography: &Bibliography,
    config: &Config,
    refs_file: &str,
) -> (r: (Registry, Vec<String>))
    ensures
        r.0.wf(),
        (Scan { text: final(documents).deep_view(), keys: r.0@, missing: r.1.deep_view() })
            == scan_documents(
            documents_by_path(old(documents).deep_view()),
            bibliography@,
            config@,
            refs_file@,
            Seq::empty(),
        ),
{
    sort_documents(documents);
    render_citations_in_order(documents, bibliography, config, refs_file)
}

/// Rewrites the citation markers of all documents, in the order in which
/// they stand in `documents`, with one registry for all of them. A
/// document other than `refs_file` links to the references by the relative
/// path from its own place to `refs_file`. Returns the registry of the
/// cited keys and the markers whose key the bibliography does not hold.
pub fn render_citations_in_order(
    documents: &mut Vec<(String, Document)>,
    bibliography: &Bibliography,
    config: &Config,
    refs_file: &str,
) -> (r: (Registry, Vec<String>))
    ensures
        r.0.wf(),
        (Scan { text: final(documents).deep_view(), keys: r.0@, missing: r.1.deep_view() })
            == scan_documents(
            old(documents).deep_view(),
            bibliography@,
            config@,
            refs_file@,
            Seq::empty(),
        ),
{
    let ghost docs = documents.deep_view();
    let ghost bib = bibliography@;
    let mut citations = Registry::new();
    let mut missing: Vec<String> = Vec::new();
    assert(missing.deep_view() =~= Seq::<Seq<char>>::empty());
    assert(docs.take(0) =~= Seq::<(Seq<char>, Seq<NodeView>)>::empty());
    let mut i: usize = 0;
    while i < documents.len()
        invariant
            i <= documents.len(),
            documents.deep_view().len() == docs.len(),
            forall|j: int| i <= j < docs.len() ==> documents.deep_view()[j] == docs[j],
            citations.wf(),
            bib == bibliography@,
            (Scan {
                text: documents.deep_view().take(i as int),
                keys: citations@,
                missing: missing.deep_view(),
            }) == scan_documents(docs.take(i as int), bib, config@, refs_file@, Seq::empty()),
        decreases documents.len() - i,
    {
        let ghost before = Scan {
            text: documents.deep_view().take(i as int),
            keys: citations@,
            missing: missing.deep_view(),
        };
        let ghost items_before = documents@;
        let ghost view_before = documents.deep_view();
        assert(forall|j: int|
            0 <= j < items_before.len() ==> view_before[j] == items_before[j].deep_view());
        let link_prefix = if str_eq(documents[i].0.as_str(), refs_file) {
            None
        } else {
            Some(relative_link(refs_file, documents[i].0.as_str()))
        };
        assert(link_prefix.deep_view() == link_prefix_of(docs[i as int].0, refs_file@));
        let item = &mut documents[i];
        let mut unknown = render_citations_document(
            &mut item.1,
            bibliography,
            config,
            link_prefix.as_ref(),
            &mut citations,
        );
        let ghost unknown_view = unknown.deep_view();
        missing.append(&mut unknown);
        proof {
            let step = scan_document(
                docs[i as int].1,
                bib,
                link_prefix_of(docs[i as int].0, refs_file@),
                config@,
                before.keys,
            );
            assert(view_before[i as int] == docs[i as int]);
            assert(documents@.len() == items_before.len());
            assert(documents.deep_view()[i as int] == (docs[i as int].0, step.text));
            assert(missing.deep_view() =~= before.missing + unknown_view);
            assert forall|j: int|
                0 <= j < documents.deep_view().len() && j != i implies documents.deep_view()[j]
                == view_before[j] by {
                assert(documents@[j] == items_before[j]);
            }
            let next = docs.take(i + 1);
            assert(next.drop_last() =~= docs.take(i as int));
            assert(next.last() == docs[i as int]);
            assert(documents.deep_view().take(i + 1) =~= before.text.push(
                (docs[i as int].0, step.text),
            ));
        }
        i += 1;
    }
    assert(docs.take(docs.len() as int) =~= docs);
    assert(documents.deep_view().take(documents.deep_view().len() as int)
        =~= documents.deep_view());
    (citations, missing)
}

} // verus!
