//! References of articles, and of every entry type without a formatter of
//! its own.

use crate::entry::{Entry, EntryView};
use crate::format::{format_pages, pages_text, push_reference_head, reference_head};
use crate::text::{decimal_int, push_int};
use vstd::prelude::*;
use vstd::string::*;

verus! {

/// Formats articles: head, journal, volume and number, pages.
pub struct ArticleFormatter {}

/// The journal of an article in italics, where it has one.
pub open spec fn journal_text(e: EntryView) -> Seq<char> {
    match e.journal {
        Some(journal) => ". *"@ + journal + "*"@,
        None => Seq::empty(),
    }
}

/// The volume of an article with its issue number, where it has a volume.
pub open spec fn volume_text(e: EntryView) -> Seq<char> {
    match e.volume {
        Some(volume) => " "@ + decimal_int(volume as int) + (match e.number {
            Some(number) => ":"@ + number,
            None => Seq::empty(),
        }),
        None => Seq::empty(),
    }
}

/// The pages of an article, where the entry has the field.
pub open spec fn article_pages_text(e: EntryView) -> Seq<char> {
    match e.pages {
        Some(ranges) => ", "@ + pages_text(ranges),
        None => Seq::empty(),
    }
}

/// The reference of an article.
pub open spec fn article_text(e: EntryView) -> Seq<char> {
    reference_head(e) + journal_text(e) + volume_text(e) + article_pages_text(e) + "."@
}

fn push_journal(out: &mut String, item: &Entry)
    ensures
        final(out)@ == old(out)@ + journal_text(item@),
{
    if let Some(journal) = &item.journal {
        out.append(". *");
        out.append(journal.as_str());
        out.append("*");
    }
    assert(out@ =~= old(out)@ + journal_text(item@));
}

fn push_volume(out: &mut String, item: &Entry)
    ensures
        final(out)@ == old(out)@ + volume_text(item@),
{
    if let Some(volume) = item.volume {
        out.append(" ");
        push_int(out, volume);
        if let Some(number) = &item.number {
            out.append(":");
            out.append(number.as_str());
        }
    }
    assert(out@ =~= old(out)@ + volume_text(item@));
}

fn push_pages(out: &mut String, item: &Entry)
    ensures
        final(out)@ == old(out)@ + article_pages_text(item@),
{
    if let Some(ranges) = &item.pages {
        let pages = format_pages(ranges.as_slice());
        out.append(", ");
        out.append(pages.as_str());
    }
    assert(out@ =~= old(out)@ + article_pages_text(item@));
}

impl ArticleFormatter {
    /// Appends the reference of `item` to `result`.
    pub fn format(&self, result: &mut String, item: &Entry)
        ensures
            final(result)@ == old(result)@ + article_text(item@),
    {
        push_reference_head(result, item);
        push_journal(result, item);
        push_volume(result, item);
        push_pages(result, item);
        result.append(".");
        assert(result@ =~= old(result)@ + article_text(item@));
    }
}

} // verus!
