//! Citation rendering: scanning documents for citation markers, numbering the
//! cited entries, formatting inline citations and reference lists.
//!
//! - [`entry`], [`config`], [`document`]: the bibliography, the settings
//!   and the documents, each with its model.
//! - [`format`]: inline citations and the lines of the reference list.
//! - [`registry`]: the cited keys in the order of first citation.
//! - [`scan`]: the marker syntax and the rewriting of a line.
//! - [`render`]: the rewriting of blocks, documents and lists of documents.
//! - [`references`]: the reference list and its place in a document.
//! - [`pipeline`]: the whole run.
//! - [`order`], [`sorting`], [`paths`], [`text`]: the order of references,
//!   stable sorting, relative links and text primitives.

pub mod config;
pub mod document;
pub mod entry;
pub mod format;
pub mod order;
pub mod paths;
pub mod pipeline;
pub mod references;
pub mod registry;
pub mod render;
pub mod scan;
pub mod sorting;
pub mod text;
