//! References of parts of books.

use crate::entry::{Entry, EntryView};
use crate::format::book::{book_text, BookFormatter};
use vstd::prelude::*;

verus! {

/// Formats parts of books, as books are formatted.
pub struct InBookFormatter {}

/// The reference of a part of a book: that of a book with the same fields.
pub open spec fn inbook_text(e: EntryView) -> Seq<char> {
    book_text(e)
}

impl InBookFormatter {
    /// Appends the reference of `item` to `result`.
    pub fn format(&self, result: &mut String, item: &Entry)
        ensures
            final(result)@ == old(result)@ + inbook_text(item@),
    {
        let book = BookFormatter {  };
        book.format(result, item);
    }
}

} // verus!
