//! The whole run: citations are rewritten in all documents, then each
//! reference list is put in the place of its placeholder.
//!
//! With a file for the references of all documents, the documents share
//! one registry and one reference list, which goes into that file. Without
//! one, every document has a registry and a reference list of its own.

use crate::config::{Config, ConfigView};
use crate::document::{Document, NodeView};
use crate::entry::{Bibliography, EntryView};
use crate::references::{
    insert_references, listed_entries, placeholder_place, reference_lines, with_references,
};
use crate::registry::Registry;
use crate::render::{
    documents_by_path, render_citations, render_citations_all, scan_document, scan_documents,
    sort_documents, Named,
};
use crate::text::str_eq;
use vstd::prelude::*;
use vstd::string::*;

verus! {

/// What the operator is told of a run that went through.
#[derive(Clone, Debug, PartialEq, Eq)]
pub enum Warning {
    /// A marker whose key the bibliography does not hold; the marker was
    /// left in the text.
    UnknownKey(String),
    /// A document, given by its path, that cites entries and holds no
    /// placeholder for their references.
    NoPlaceholder(String),
}

/// The model of a [`Warning`].
pub enum WarningView {
    UnknownKey(Seq<char>),
    NoPlaceholder(Seq<char>),
}

impl DeepView for Warning {
    type V = WarningView;

    open spec fn deep_view(&self) -> WarningView {
        match self {
            Warning::UnknownKey(marker) => WarningView::UnknownKey(marker@),
            Warning::NoPlaceholder(path) => WarningView::NoPlaceholder(path@),
        }
    }
}

/// Why a run was given up before any document was changed.
#[derive(Clone, Debug, PartialEq, Eq)]
pub enum RenderError {
    /// The file for the references, given by its path, is not among the
    /// documents.
    MissingReferenceFile(String),
}

/// The message of an error.
pub open spec fn error_message(e: RenderError) -> Seq<char> {
    match e {
        RenderError::MissingReferenceFile(path) => "Reference output file "@ + path@
            + " not in the list of documents. Include it with @[...](...)"@,
    }
}

impl RenderError {
    /// The message to show to the operator.
    pub fn message(&self) -> (m: String)
        ensures
            m@ == error_message(*self),
    {
        match self {
            RenderError::MissingReferenceFile(path) => {
                let mut m = "Reference output file ".to_owned();
                m.append(path.as_str());
                m.append(" not in the list of documents. Include it with @[...](...)");
                m
            },
        }
    }
}

/// The documents after a run, and what the operator is told.
pub struct Rendered {
    pub documents: Seq<Named>,
    pub warnings: Seq<WarningView>,
}

/// One warning for each marker of an unknown key.
pub open spec fn unknown_keys(markers: Seq<Seq<char>>) -> Seq<WarningView> {
    markers.map_values(|marker: Seq<char>| WarningView::UnknownKey(marker))
}

/// The warning of a document that is to hold references: one where keys
/// are registered and the document holds no placeholder, none otherwise.
pub open spec fn placeholder_warning(
    path: Seq<char>,
    nodes: Seq<NodeView>,
    placeholder: Seq<char>,
    keys: Seq<Seq<char>>,
) -> Seq<WarningView> {
    if placeholder_place(nodes, placeholder).is_none() && keys.len() > 0 {
        seq![WarningView::NoPlaceholder(path)]
    } else {
        Seq::empty()
    }
}

/// The lines of the reference list of the registered keys.
pub open spec fn references_of(
    keys: Seq<Seq<char>>,
    bib: Seq<EntryView>,
    config: ConfigView,
) -> Seq<Seq<char>> {
    reference_lines(listed_entries(keys, bib, config.citation_style), config)
}

/// A document rendered on its own: its citations are rewritten with a
/// registry of its own, and the references of that registry are put in
/// the place of its placeholder.
pub open spec fn rendered_alone(
    document: Named,
    bib: Seq<EntryView>,
    config: ConfigView,
) -> Rendered {
    let scan = scan_document(document.1, bib, None, config, Seq::empty());
    Rendered {
        documents: seq![
            (
                document.0,
                with_references(
                    scan.text,
                    config.placeholder,
                    references_of(scan.keys, bib, config),
                ),
            ),
        ],
        warnings: unknown_keys(scan.missing) + placeholder_warning(
            document.0,
            scan.text,
            config.placeholder,
            scan.keys,
        ),
    }
}

/// Documents rendered each on its own, one after the other.
pub open spec fn rendered_each(
    documents: Seq<Named>,
    bib: Seq<EntryView>,
    config: ConfigView,
) -> Rendered
    decreases documents.len(),
{
    if documents.len() == 0 {
        Rendered { documents: Seq::empty(), warnings: Seq::empty() }
    } else {
        let before = rendered_each(documents.drop_last(), bib, config);
        let last = rendered_alone(documents.last(), bib, config);
        Rendered {
            documents: before.documents + last.documents,
            warnings: before.warnings + last.warnings,
        }
    }
}

/// Documents with the references put into each document of the path
/// `refs_file`, one after the other.
pub open spec fn with_reference_file(
    documents: Seq<Named>,
    refs_file: Seq<char>,
    placeholder: Seq<char>,
    keys: Seq<Seq<char>>,
    references: Seq<Seq<char>>,
) -> Rendered
    decreases documents.len(),
{
    if documents.len() == 0 {
        Rendered { documents: Seq::empty(), warnings: Seq::empty() }
    } else {
        let before = with_reference_file(
            documents.drop_last(),
            refs_file,
            placeholder,
            keys,
            references,
        );
        let last = documents.last();
        if last.0 == refs_file {
            Rendered {
                documents: before.documents.push(
                    (last.0, with_references(last.1, placeholder, references)),
                ),
                warnings: before.warnings + placeholder_warning(last.0, last.1, placeholder, keys),
            }
        } else {
            Rendered { documents: before.documents.push(last), warnings: before.warnings }
        }
    }
}

/// Documents rendered together: their citations are rewritten in the
/// order of their paths with one registry, and the references of that
/// registry are put into the file `refs_file`.
pub open spec fn rendered_together(
    documents: Seq<Named>,
    bib: Seq<EntryView>,
    config: ConfigView,
    refs_file: Seq<char>,
) -> Rendered {
    let scan = scan_documents(documents_by_path(documents), bib, config, refs_file, Seq::empty());
    let spliced = with_reference_file(
        scan.text,
        refs_file,
        config.placeholder,
        scan.keys,
        references_of(scan.keys, bib, config),
    );
    Rendered {
        documents: spliced.documents,
        warnings: unknown_keys(scan.missing) + spliced.warnings,
    }
}

/// A document of the given path is among the documents.
pub open spec fn has_path(documents: Seq<Named>, path: Seq<char>) -> bool {
    exists|i: int| 0 <= i < documents.len() && (#[trigger] documents[i]).0 == path
}

/// The outcome of a run. With a file for the references that is not among
/// the documents the run fails, with the path of that file. Otherwise the
/// documents come out in the order of their paths: rendered together
/// where the settings name a file for the references, each on its own
/// where they name none.
pub open spec fn rendered(documents: Seq<Named>, bib: Seq<EntryView>, config: ConfigView) -> Result<
    Rendered,
    Seq<char>,
> {
    match config.refs_file {
        Some(refs_file) => if has_path(documents, refs_file) {
            Ok(rendered_together(documents, bib, config, refs_file))
        } else {
            Err(refs_file)
        },
        None => Ok(rendered_each(documents_by_path(documents), bib, config)),
    }
}

/// Whether a document of the given path is among the documents.
fn contains_path(documents: &Vec<(String, Document)>, path: &str) -> (r: bool)
    ensures
        r == has_path(documents.deep_view(), path@),
{
    let mut i: usize = 0;
    while i < documents.len()
        invariant
            i <= documents.len(),
            forall|j: int| 0 <= j < i ==> (#[trigger] documents.deep_view()[j]).0 != path@,
        decreases documents.len() - i,
    {
        assert(documents.deep_view()[i as int] == documents@[i as int].deep_view());
        if str_eq(documents[i].0.as_str(), path) {
            return true;
        }
        i += 1;
    }
    false
}

/// Appends one warning for each marker of an unknown key.
fn push_unknown(warnings: &mut Vec<Warning>, markers: &Vec<String>)
    ensures
        final(warnings).deep_view() == old(warnings).deep_view() + unknown_keys(
            markers.deep_view(),
        ),
{
    let ghost all = markers.deep_view();
    let ghost before = warnings.deep_view();
    assert(warnings.deep_view() =~= before + unknown_keys(all.take(0)));
    let mut i: usize = 0;
    while i < markers.len()
        invariant
            i <= markers.len(),
            all == markers.deep_view(),
            warnings.deep_view() == before + unknown_keys(all.take(i as int)),
        decreases markers.len() - i,
    {
        let ghost warned = warnings.deep_view();
        warnings.push(Warning::UnknownKey(markers[i].clone()));
        proof {
            assert(all[i as int] == markers@[i as int]@);
            assert(warnings.deep_view() =~= warned.push(WarningView::UnknownKey(all[i as int])));
            assert(unknown_keys(all.take(i + 1)) =~= unknown_keys(all.take(i as int)).push(
                WarningView::UnknownKey(all[i as int]),
            ));
        }
        i += 1;
    }
    assert(all.take(all.len() as int) =~= all);
}

/// Appends the warning of a document that is to hold references.
fn push_placeholder_warning(
    warnings: &mut Vec<Warning>,
    path: &String,
    missing: bool,
    Ghost(nodes): Ghost<Seq<NodeView>>,
    Ghost(placeholder): Ghost<Seq<char>>,
    Ghost(keys): Ghost<Seq<Seq<char>>>,
)
    requires
        missing == (placeholder_place(nodes, placeholder).is_none() && keys.len() > 0),
    ensures
        final(warnings).deep_view() == old(warnings).deep_view() + placeholder_warning(
            path@,
            nodes,
            placeholder,
            keys,
        ),
{
    let ghost before = warnings.deep_view();
    if missing {
        warnings.push(Warning::NoPlaceholder(path.clone()));
        assert(warnings.deep_view() =~= before + seq![WarningView::NoPlaceholder(path@)]);
    } else {
        assert(warnings.deep_view() =~= before + Seq::<WarningView>::empty());
    }
}

/// Renders each document on its own, in the order in which they stand.
fn render_each(
    documents: &mut Vec<(String, Document)>,
    bibliography: &Bibliography,
    config: &Config,
) -> (warnings: Vec<Warning>)
    ensures
        (Rendered { documents: final(documents).deep_view(), warnings: warnings.deep_view() })
            == rendered_each(old(documents).deep_view(), bibliography@, config@),
{
    let ghost docs = documents.deep_view();
    let ghost bib = bibliography@;
    let mut warnings: Vec<Warning> = Vec::new();
    assert(warnings.deep_view() =~= Seq::<WarningView>::empty());
    assert(docs.take(0) =~= Seq::<Named>::empty());
    assert(documents.deep_view().take(0) =~= Seq::<Named>::empty());
    let mut i: usize = 0;
    while i < documents.len()
        invariant
            i <= documents.len(),
            bib == bibliography@,
            documents.deep_view().len() == docs.len(),
            forall|j: int| i <= j < docs.len() ==> documents.deep_view()[j] == docs[j],
            (Rendered {
                documents: documents.deep_view().take(i as int),
                warnings: warnings.deep_view(),
            }) == rendered_each(docs.take(i as int), bib, config@),
        decreases documents.len() - i,
    {
        let ghost done = documents.deep_view().take(i as int);
        let ghost warned = warnings.deep_view();
        let ghost items_before = documents@;
        let ghost view_before = documents.deep_view();
        assert(forall|j: int|
            0 <= j < items_before.len() ==> view_before[j] == items_before[j].deep_view());
        assert(view_before[i as int] == docs[i as int]);
        let ghost step = rendered_alone(docs[i as int], bib, config@);
        let ghost scan = scan_document(docs[i as int].1, bib, None, config@, Seq::empty());
        let item = &mut documents[i];
        let (citations, unknown) = render_citations(&mut item.1, bibliography, config);
        let missing = insert_references(&mut item.1, &citations, bibliography, config);
        push_unknown(&mut warnings, &unknown);
        push_placeholder_warning(
            &mut warnings,
            &item.0,
            missing,
            Ghost(scan.text),
            Ghost(config.placeholder@),
            Ghost(scan.keys),
        );
        proof {
            assert(documents@.len() == items_before.len());
            assert(documents.deep_view()[i as int] == step.documents[0]);
            assert(warnings.deep_view() == warned + step.warnings);
            assert forall|j: int|
                0 <= j < documents.deep_view().len() && j != i implies documents.deep_view()[j]
                == view_before[j] by {
                assert(documents@[j] == items_before[j]);
            }
            let next = docs.take(i + 1);
            assert(next.drop_last() =~= docs.take(i as int));
            assert(next.last() == docs[i as int]);
            assert(documents.deep_view().take(i + 1) =~= done + step.documents);
        }
        i += 1;
    }
    assert(docs.take(docs.len() as int) =~= docs);
    assert(documents.deep_view().take(documents.deep_view().len() as int)
        =~= documents.deep_view());
    warnings
}

/// Puts the references of `citations` into each document of the path
/// `refs_file`.
fn insert_into_reference_file(
    documents: &mut Vec<(String, Document)>,
    refs_file: &str,
    citations: &Registry,
    bibliography: &Bibliography,
    config: &Config,
    warnings: &mut Vec<Warning>,
)
    requires
        citations.wf(),
    ensures
        final(documents).deep_view() == with_reference_file(
            old(documents).deep_view(),
            refs_file@,
            config.placeholder@,
            citations@,
            references_of(citations@, bibliography@, config@),
        ).documents,
        final(warnings).deep_view() == old(warnings).deep_view() + with_reference_file(
            old(documents).deep_view(),
            refs_file@,
            config.placeholder@,
            citations@,
            references_of(citations@, bibliography@, config@),
        ).warnings,
{
    let ghost docs = documents.deep_view();
    let ghost references = references_of(citations@, bibliography@, config@);
    let ghost placeholder = config.placeholder@;
    let ghost keys = citations@;
    let ghost warned_at_start = warnings.deep_view();
    assert(docs.take(0) =~= Seq::<Named>::empty());
    assert(documents.deep_view().take(0) =~= Seq::<Named>::empty());
    assert(warnings.deep_view() =~= warned_at_start + Seq::<WarningView>::empty());
    let mut i: usize = 0;
    while i < documents.len()
        invariant
            i <= documents.len(),
            citations.wf(),
            keys == citations@,
            placeholder == config.placeholder@,
            references == references_of(citations@, bibliography@, config@),
            documents.deep_view().len() == docs.len(),
            forall|j: int| i <= j < docs.len() ==> documents.deep_view()[j] == docs[j],
            documents.deep_view().take(i as int) == with_reference_file(
                docs.take(i as int),
                refs_file@,
                placeholder,
                keys,
                references,
            ).documents,
            warnings.deep_view() == warned_at_start + with_reference_file(
                docs.take(i as int),
                refs_file@,
                placeholder,
                keys,
                references,
            ).warnings,
        decreases documents.len() - i,
    {
        let ghost done = with_reference_file(
            docs.take(i as int),
            refs_file@,
            placeholder,
            keys,
            references,
        );
        let ghost items_before = documents@;
        let ghost view_before = documents.deep_view();
        assert(forall|j: int|
            0 <= j < items_before.len() ==> view_before[j] == items_before[j].deep_view());
        assert(view_before[i as int] == docs[i as int]);
        proof {
            let next = docs.take(i + 1);
            assert(next.drop_last() =~= docs.take(i as int));
            assert(next.last() == docs[i as int]);
        }
        if str_eq(documents[i].0.as_str(), refs_file) {
            let item = &mut documents[i];
            let missing = insert_references(&mut item.1, citations, bibliography, config);
            push_placeholder_warning(
                warnings,
                &item.0,
                missing,
                Ghost(docs[i as int].1),
                Ghost(placeholder),
                Ghost(keys),
            );
            proof {
                assert(documents@.len() == items_before.len());
                assert forall|j: int|
                    0 <= j < documents.deep_view().len() && j != i implies documents.deep_view()[j]
                    == view_before[j] by {
                    assert(documents@[j] == items_before[j]);
                }
                assert(documents.deep_view().take(i + 1) =~= done.documents.push(
                    (docs[i as int].0, with_references(docs[i as int].1, placeholder, references)),
                ));
                assert(warnings.deep_view() =~= warned_at_start + (done.warnings
                    + placeholder_warning(docs[i as int].0, docs[i as int].1, placeholder, keys)));
            }
        } else {
            assert(documents.deep_view().take(i + 1) =~= done.documents.push(docs[i as int]));
        }
        i += 1;
    }
    assert(docs.take(docs.len() as int) =~= docs);
    assert(documents.deep_view().take(documents.deep_view().len() as int)
        =~= documents.deep_view());
}

/// Renders all documents. With a file for the references that is not
/// among the documents, the run fails and no document is changed.
/// Otherwise the documents are put into the order of their paths, their
/// citations are rewritten and their references inserted: together, with
/// one reference list in the file for the references, where the settings
/// name such a file; each on its own where they name none. Returns what
/// the operator is to be told: the markers of unknown keys, and the
/// documents that cite entries and hold no placeholder.
pub fn render_documents(
    documents: &mut Vec<(String, Document)>,
    bibliography: &Bibliography,
    config: &Config,
) -> (r: Result<Vec<Warning>, RenderError>)
    ensures
        match rendered(old(documents).deep_view(), bibliography@, config@) {
            Ok(outcome) => {
                &&& r matches Ok(warnings)
                &&& warnings.deep_view() == outcome.warnings
                &&& final(documents).deep_view() == outcome.documents
            },
            Err(path) => {
                &&& r matches Err(RenderError::MissingReferenceFile(missing))
                &&& missing@ == path
                &&& final(documents).deep_view() == old(documents).deep_view()
            },
        },
{
    match &config.refs_file {
        Some(refs_file) => {
            if !contains_path(documents, refs_file.as_str()) {
                return Err(RenderError::MissingReferenceFile(refs_file.clone()));
            }
            let (citations, unknown) = render_citations_all(
                documents,
                bibliography,
                config,
                refs_file.as_str(),
            );
            let mut warnings: Vec<Warning> = Vec::new();
            assert(warnings.deep_view() =~= Seq::<WarningView>::empty());
            push_unknown(&mut warnings, &unknown);
            insert_into_reference_file(
                documents,
                refs_file.as_str(),
                &citations,
                bibliography,
                config,
                &mut warnings,
            );
            assert(warnings.deep_view() =~= rendered_together(
                old(documents).deep_view(),
                bibliography@,
                config@,
                refs_file@,
            ).warnings);
            Ok(warnings)
        },
        None => {
            sort_documents(documents);
            Ok(render_each(documents, bibliography, config))
        },
    }
}

} // verus!
