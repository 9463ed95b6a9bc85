//! References of contributions to collections and proceedings.

use crate::entry::{Entry, EntryView, Person, PersonView};
use crate::format::{
    format_authors_opt, format_chunk_opt, format_pages, pages_text, persons_or_anonymous,
    publisher_text, push_publisher, push_reference_head, reference_head, text_or,
};
use vstd::prelude::*;
use vstd::string::*;

verus! {

/// Formats contributions: head, editors and book title, pages, publisher,
/// address.
pub struct InCollectionFormatter {}

/// The editors of the first editorial role, if the entry has any role.
pub open spec fn first_editors(e: EntryView) -> Option<Seq<PersonView>> {
    if e.editors.len() > 0 {
        Some(e.editors[0])
    } else {
        None
    }
}

/// The reference of a contribution to a collection.
pub open spec fn incollection_text(e: EntryView) -> Seq<char> {
    reference_head(e) + ". In: "@ + persons_or_anonymous(first_editors(e)) + " (eds.): "@
        + text_or(e.book_title, "Untitled"@) + (match e.pages {
        Some(ranges) => ", pp. "@ + pages_text(ranges),
        None => Seq::empty(),
    }) + publisher_text(e) + "."@
}

fn editors_of(item: &Entry) -> (r: Option<&Vec<Person>>)
    ensures
        r.deep_view() == first_editors(item@),
{
    if item.editors.len() > 0 {
        Some(&item.editors[0])
    } else {
        None
    }
}

impl InCollectionFormatter {
    /// Appends the reference of `item` to `result`.
    pub fn format(&self, result: &mut String, item: &Entry)
        ensures
            final(result)@ == old(result)@ + incollection_text(item@),
    {
        push_reference_head(result, item);
        let editors = format_authors_opt(editors_of(item));
        let book_title = format_chunk_opt(item.book_title.as_ref(), "Untitled");
        result.append(". In: ");
        result.append(editors.as_str());
        result.append(" (eds.): ");
        result.append(book_title.as_str());
        if let Some(ranges) = &item.pages {
            let pages = format_pages(ranges.as_slice());
            result.append(", pp. ");
            result.append(pages.as_str());
        }
        push_publisher(result, item);
        result.append(".");
        assert(result@ =~= old(result)@ + incollection_text(item@));
    }
}

} // verus!
