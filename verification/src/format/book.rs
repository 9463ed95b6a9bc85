//! References of books.

use crate::entry::{Entry, EntryView};
use crate::format::{publisher_text, push_publisher, push_reference_head, reference_head};
use vstd::prelude::*;
use vstd::string::*;

verus! {

/// Formats books: head, publisher, address.
pub struct BookFormatter {}

/// The reference of a book.
pub open spec fn book_text(e: EntryView) -> Seq<char> {
    reference_head(e) + publisher_text(e) + "."@
}

impl BookFormatter {
    /// Appends the reference of `item` to `result`.
    pub fn format(&self, result: &mut String, item: &Entry)
        ensures
            final(result)@ == old(result)@ + book_text(item@),
    {
        push_reference_head(result, item);
        push_publisher(result, item);
        result.append(".");
        assert(result@ =~= old(result)@ + book_text(item@));
    }
}

} // verus!
