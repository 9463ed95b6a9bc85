//! Formatting of inline citations and of reference-list lines.
//!
//! Every formatter has a specification function that gives the text it
//! produces (`citation_text`, `reference_text`, `article_text`, ...); the
//! executable functions are proved to produce exactly that text.

pub mod article;
pub mod book;
pub mod inbook;
pub mod incollection;

use crate::config::{CitationStyle, Config, ConfigView};
use crate::entry::{Date, Entry, EntryType, EntryView, Person, PersonView};
use crate::text::{chars_of, decimal_int, decimal_nat, joined, push_int, push_nat};
use std::ops::Range;
use vstd::prelude::*;
use vstd::string::*;

verus! {

/// The anchor of the reference with the given key.
pub open spec fn anchor_id(key: Seq<char>) -> Seq<char> {
    "cite-ref-"@ + key
}

/// The HTML anchor that a reference line starts with when links are on.
pub open spec fn anchor_tag(key: Seq<char>) -> Seq<char> {
    "<a name=\""@ + anchor_id(key) + "\" id=\""@ + anchor_id(key) + "\"></a>"@
}

/// The year of an exact date; four question marks for any other date and
/// for a missing one.
pub open spec fn date_text(date: Option<Date>) -> Seq<char> {
    match date {
        Some(Date::Exact(year)) => decimal_int(year as int),
        _ => "????"@,
    }
}

/// The first page range as `start-end`; three question marks where the
/// list holds no range.
pub open spec fn pages_text(ranges: Seq<Range<u32>>) -> Seq<char> {
    if ranges.len() == 0 {
        "???"@
    } else {
        decimal_nat(ranges[0].start as nat) + "-"@ + decimal_nat(ranges[0].end as nat)
    }
}

/// A token of a given name starts at `i`: a character other than a space
/// that stands first or follows a space.
pub open spec fn is_token_start(s: Seq<char>, i: int) -> bool {
    &&& 0 <= i < s.len()
    &&& s[i] != ' '
    &&& (i == 0 || s[i - 1] == ' ')
}

/// The first characters of the tokens that start before position `n`.
pub open spec fn initials_upto(s: Seq<char>, n: int) -> Seq<char>
    decreases n,
{
    if n <= 0 {
        Seq::empty()
    } else if is_token_start(s, n - 1) {
        initials_upto(s, n - 1).push(s[n - 1])
    } else {
        initials_upto(s, n - 1)
    }
}

/// The initials of a given name: the first character of each of its
/// space-separated tokens.
pub open spec fn initials(s: Seq<char>) -> Seq<char> {
    initials_upto(s, s.len() as int)
}

/// A person in a reference line: the family name, then a space and the
/// initials where a given name is present.
pub open spec fn person_text(p: PersonView) -> Seq<char> {
    if p.given_name.len() == 0 {
        p.name
    } else {
        p.name + " "@ + initials(p.given_name)
    }
}

/// The persons of a reference line, separated by a comma and a space.
pub open spec fn persons_text(persons: Seq<PersonView>) -> Seq<char> {
    joined(persons.map_values(|p: PersonView| person_text(p)), ", "@)
}

/// The persons of a reference line, or `Anonymous` where there are none.
pub open spec fn persons_or_anonymous(persons: Option<Seq<PersonView>>) -> Seq<char> {
    match persons {
        Some(list) if list.len() > 0 => persons_text(list),
        _ => "Anonymous"@,
    }
}

/// The authors of an inline citation, by family name: one name, two names
/// joined by an ampersand, the first name and `et al.` for three or more,
/// `Anonymous` for none.
pub open spec fn citation_authors_text(authors: Option<Seq<PersonView>>) -> Seq<char> {
    match authors {
        Some(list) if list.len() == 1 => list[0].name,
        Some(list) if list.len() == 2 => list[0].name + " & "@ + list[1].name,
        Some(list) if list.len() >= 3 => list[0].name + " et al."@,
        _ => "Anonymous"@,
    }
}

/// The text of an optional field, or `alternative` where it is absent.
pub open spec fn text_or(value: Option<Seq<char>>, alternative: Seq<char>) -> Seq<char> {
    match value {
        Some(text) => text,
        None => alternative,
    }
}

/// What every reference starts with: authors, year and title.
pub open spec fn reference_head(e: EntryView) -> Seq<char> {
    persons_or_anonymous(e.authors) + " ("@ + date_text(e.date) + "): **"@ + text_or(
        e.title,
        "Untitled"@,
    ) + "**"@
}

/// The publisher and address of a reference, each shown where present.
pub open spec fn publisher_text(e: EntryView) -> Seq<char> {
    (match e.publisher {
        Some(names) => ". *"@ + joined(names, ", "@) + "*"@,
        None => Seq::empty(),
    }) + (match e.address {
        Some(address) => ", "@ + address,
        None => Seq::empty(),
    })
}

/// The label of an inline citation: the index, or authors and year.
pub open spec fn citation_label(
    e: EntryView,
    index: nat,
    no_author: bool,
    style: CitationStyle,
) -> Seq<char> {
    match style {
        CitationStyle::Index => decimal_nat(index),
        CitationStyle::AuthorYear => if no_author {
            date_text(e.date)
        } else {
            citation_authors_text(e.authors) + " "@ + date_text(e.date)
        },
    }
}

/// The inline citation of an entry: its label, wrapped into a link to the
/// entry's anchor behind `link_prefix` when links are on.
pub open spec fn citation_text(
    e: EntryView,
    index: nat,
    link_prefix: Option<Seq<char>>,
    no_author: bool,
    config: ConfigView,
) -> Seq<char> {
    let label = citation_label(e, index, no_author, config.citation_style);
    if config.link_refs {
        "["@ + label + "]("@ + text_or(link_prefix, Seq::empty()) + "#"@ + anchor_id(e.key) + ")"@
    } else {
        label
    }
}

/// The formatter of a reference, one for each way of formatting.
#[derive(Clone, Copy, Debug, PartialEq, Eq, Structural)]
pub enum Formatter {
    Article,
    Book,
    InBook,
    InCollection,
}

/// The formatter of an entry type; articles and every type without a
/// formatter of its own use the article formatter.
pub open spec fn formatter_of(tp: EntryType) -> Formatter {
    match tp {
        EntryType::Article => Formatter::Article,
        EntryType::Book => Formatter::Book,
        EntryType::InBook => Formatter::InBook,
        EntryType::InCollection => Formatter::InCollection,
        EntryType::InProceedings => Formatter::InCollection,
        EntryType::Other => Formatter::Article,
    }
}

/// The reference of an entry without its tags.
pub open spec fn entry_text(e: EntryView) -> Seq<char> {
    match formatter_of(e.entry_type) {
        Formatter::Article => article::article_text(e),
        Formatter::Book => book::book_text(e),
        Formatter::InBook => inbook::inbook_text(e),
        Formatter::InCollection => incollection::incollection_text(e),
    }
}

/// The tags before a reference: the anchor when links are on, the index in
/// brackets under the index style, the key in brackets when keys are shown.
pub open spec fn reference_tags(key: Seq<char>, index: nat, config: ConfigView) -> Seq<char> {
    (if config.link_refs {
        anchor_tag(key)
    } else {
        Seq::empty()
    }) + (if config.citation_style == CitationStyle::Index {
        "["@ + decimal_nat(index) + "] "@
    } else {
        Seq::empty()
    }) + (if config.render_key {
        "["@ + key + "] "@
    } else {
        Seq::empty()
    })
}

/// The line of an entry in the reference list.
pub open spec fn reference_text(e: EntryView, index: nat, config: ConfigView) -> Seq<char> {
    reference_tags(e.key, index, config) + entry_text(e)
}

/// The anchor of the reference with the given key: `cite-ref-` and the key.
pub fn key_to_anchor(key: &str) -> (anchor: String)
    ensures
        anchor@ == anchor_id(key@),
{
    let mut anchor = "cite-ref-".to_owned();
    anchor.append(key);
    anchor
}

/// The anchor of the reference with the given key: `cite-ref-` and the key.
pub fn format_ref_anchor(key: &str) -> (anchor: String)
    ensures
        anchor@ == anchor_id(key@),
{
    key_to_anchor(key)
}

/// The HTML anchor of the reference with the given key.
pub fn format_anchor(key: &str) -> (tag: String)
    ensures
        tag@ == anchor_tag(key@),
{
    let anchor = key_to_anchor(key);
    let mut tag = "<a name=\"".to_owned();
    tag.append(anchor.as_str());
    tag.append("\" id=\"");
    tag.append(anchor.as_str());
    tag.append("\"></a>");
    tag
}

/// The first page range as `start-end`, or `???` for an empty list.
pub fn format_pages(ranges: &[Range<u32>]) -> (text: String)
    ensures
        text@ == pages_text(ranges@),
{
    if ranges.len() == 0 {
        "???".to_owned()
    } else {
        let mut text = String::new();
        push_nat(&mut text, ranges[0].start as u64);
        text.append("-");
        push_nat(&mut text, ranges[0].end as u64);
        assert(text@ =~= pages_text(ranges@));
        text
    }
}

/// The year of an exact date, or `????`.
pub fn format_date(date: Option<Date>) -> (text: String)
    ensures
        text@ == date_text(date),
{
    match date {
        Some(Date::Exact(year)) => {
            let mut text = String::new();
            push_int(&mut text, year as i64);
            assert(text@ =~= date_text(date));
            text
        },
        _ => "????".to_owned(),
    }
}

/// Appends the initials of a given name.
fn push_initials(out: &mut String, given_name: &str)
    ensures
        final(out)@ == old(out)@ + initials(given_name@),
{
    let chars = chars_of(given_name);
    let mut i: usize = 0;
    while i < chars.len()
        invariant
            i <= chars.len(),
            chars@ == given_name@,
            out@ == old(out)@ + initials_upto(chars@, i as int),
        decreases chars.len() - i,
    {
        if chars[i] != ' ' && (i == 0 || chars[i - 1] == ' ') {
            out.push(chars[i]);
            assert(out@ =~= old(out)@ + initials_upto(chars@, i + 1));
        }
        i += 1;
    }
}

/// Appends a person as a reference line shows it.
fn push_person(out: &mut String, person: &Person)
    ensures
        final(out)@ == old(out)@ + person_text(person@),
{
    out.append(person.name.as_str());
    if person.given_name.as_str().unicode_len() != 0 {
        out.append(" ");
        push_initials(out, person.given_name.as_str());
        assert(out@ =~= old(out)@ + person_text(person@));
    }
}

/// The persons of a reference line, separated by a comma and a space.
pub fn format_authors(authors: &[Person]) -> (text: String)
    ensures
        text@ == persons_text(authors.deep_view()),
{
    let ghost parts = authors.deep_view().map_values(|p: PersonView| person_text(p));
    let mut text = String::new();
    let mut idx: usize = 0;
    while idx < authors.len()
        invariant
            idx <= authors.len(),
            parts == authors.deep_view().map_values(|p: PersonView| person_text(p)),
            text@ == joined(parts.take(idx as int), ", "@),
        decreases authors.len() - idx,
    {
        if idx > 0 {
            text.append(", ");
        }
        push_person(&mut text, &authors[idx]);
        proof {
            let next = parts.take(idx + 1);
            assert(next.drop_last() =~= parts.take(idx as int));
            assert(next.last() == person_text(authors@[idx as int]@));
            assert(text@ =~= joined(next, ", "@));
        }
        idx += 1;
    }
    assert(parts.take(authors.len() as int) =~= parts);
    text
}

/// The persons of a reference line, or `Anonymous` where there are none.
pub fn format_authors_opt(authors: Option<&Vec<Person>>) -> (text: String)
    ensures
        text@ == persons_or_anonymous(authors.deep_view()),
{
    match authors {
        Some(list) if list.len() > 0 => format_authors(list.as_slice()),
        _ => "Anonymous".to_owned(),
    }
}

/// The text of an optional field, or `alternative` where it is absent.
pub fn format_chunk_opt(chunks: Option<&String>, alternative: &str) -> (text: String)
    ensures
        text@ == text_or(chunks.deep_view(), alternative@),
{
    match chunks {
        Some(text) => text.clone(),
        None => alternative.to_owned(),
    }
}

/// The given texts, with `sep` between consecutive ones.
pub fn format_chunks(chunks: &[String], sep: &str) -> (text: String)
    ensures
        text@ == joined(chunks.deep_view(), sep@),
{
    let ghost parts = chunks.deep_view();
    let mut text = String::new();
    let mut idx: usize = 0;
    while idx < chunks.len()
        invariant
            idx <= chunks.len(),
            parts == chunks.deep_view(),
            text@ == joined(parts.take(idx as int), sep@),
        decreases chunks.len() - idx,
    {
        if idx > 0 {
            text.append(sep);
        }
        text.append(chunks[idx].as_str());
        proof {
            let next = parts.take(idx + 1);
            assert(next.drop_last() =~= parts.take(idx as int));
            assert(text@ =~= joined(next, sep@));
        }
        idx += 1;
    }
    assert(parts.take(chunks.len() as int) =~= parts);
    text
}

/// The authors of an inline citation, by family name.
pub fn format_authors_citation(authors: Option<&Vec<Person>>) -> (text: String)
    ensures
        text@ == citation_authors_text(authors.deep_view()),
{
    match authors {
        Some(list) if list.len() == 1 => list[0].name.clone(),
        Some(list) if list.len() == 2 => {
            let mut text = list[0].name.clone();
            text.append(" & ");
            text.append(list[1].name.as_str());
            text
        },
        Some(list) if list.len() >= 3 => {
            let mut text = list[0].name.clone();
            text.append(" et al.");
            text
        },
        _ => "Anonymous".to_owned(),
    }
}

/// Appends what every reference starts with: authors, year and title.
pub fn push_reference_head(out: &mut String, item: &Entry)
    ensures
        final(out)@ == old(out)@ + reference_head(item@),
{
    let authors = format_authors_opt(item.authors.as_ref());
    let date = format_date(item.date);
    let title = format_chunk_opt(item.title.as_ref(), "Untitled");
    out.append(authors.as_str());
    out.append(" (");
    out.append(date.as_str());
    out.append("): **");
    out.append(title.as_str());
    out.append("**");
    assert(out@ =~= old(out)@ + reference_head(item@));
}

/// Appends the publisher and the address, each where present.
pub fn push_publisher(out: &mut String, item: &Entry)
    ensures
        final(out)@ == old(out)@ + publisher_text(item@),
{
    if let Some(names) = &item.publisher {
        let text = format_chunks(names.as_slice(), ", ");
        out.append(". *");
        out.append(text.as_str());
        out.append("*");
    }
    if let Some(address) = &item.address {
        out.append(", ");
        out.append(address.as_str());
    }
    assert(out@ =~= old(out)@ + publisher_text(item@));
}

/// The formatter of an entry type.
pub fn get_formatter(tp: &EntryType) -> (formatter: Formatter)
    ensures
        formatter == formatter_of(*tp),
{
    match tp {
        EntryType::Article => Formatter::Article,
        EntryType::Book => Formatter::Book,
        EntryType::InBook => Formatter::InBook,
        EntryType::InCollection | EntryType::InProceedings => Formatter::InCollection,
        _ => Formatter::Article,
    }
}

/// Appends the tags of a reference line.
fn push_reference_tags(out: &mut String, key: &str, index: usize, config: &Config)
    ensures
        final(out)@ == old(out)@ + reference_tags(key@, index as nat, config@),
{
    if config.link_refs {
        let tag = format_anchor(key);
        out.append(tag.as_str());
    }
    if config.citation_style == CitationStyle::Index {
        out.append("[");
        push_nat(out, index as u64);
        out.append("] ");
    }
    if config.render_key {
        out.append("[");
        out.append(key);
        out.append("] ");
    }
    assert(out@ =~= old(out)@ + reference_tags(key@, index as nat, config@));
}

/// The line of `item` in the reference list: its tags, then the entry as
/// the formatter of its type shows it. `index` is the number shown under
/// the index style.
pub fn format_reference(item: &Entry, index: usize, config: &Config) -> (line: String)
    ensures
        line@ == reference_text(item@, index as nat, config@),
{
    let mut line = String::new();
    push_reference_tags(&mut line, item.key.as_str(), index, config);
    let ghost tags = line@;
    match get_formatter(&item.entry_type) {
        Formatter::Article => {
            let formatter = article::ArticleFormatter {  };
            formatter.format(&mut line, item);
        },
        Formatter::Book => {
            let formatter = book::BookFormatter {  };
            formatter.format(&mut line, item);
        },
        Formatter::InBook => {
            let formatter = inbook::InBookFormatter {  };
            formatter.format(&mut line, item);
        },
        Formatter::InCollection => {
            let formatter = incollection::InCollectionFormatter {  };
            formatter.format(&mut line, item);
        },
    }
    assert(line@ == tags + entry_text(item@));
    assert(line@ =~= reference_text(item@, index as nat, config@));
    line
}

/// The label of an inline citation.
fn format_label(reference: &Entry, index: usize, no_author: bool, style: CitationStyle) -> (label:
    String)
    ensures
        label@ == citation_label(reference@, index as nat, no_author, style),
{
    match style {
        CitationStyle::Index => {
            let mut label = String::new();
            push_nat(&mut label, index as u64);
            assert(label@ =~= decimal_nat(index as nat));
            label
        },
        CitationStyle::AuthorYear => {
            let date = format_date(reference.date);
            if no_author {
                date
            } else {
                let mut label = format_authors_citation(reference.authors.as_ref());
                label.append(" ");
                label.append(date.as_str());
                label
            }
        },
    }
}

/// The inline citation of `reference`. `index` is the number shown under
/// the index style; `link_prefix` is the path of the file that holds the
/// references, absent where that is the citing file itself.
pub fn format_citation(
    reference: &Entry,
    index: usize,
    link_prefix: Option<&String>,
    no_author: bool,
    config: &Config,
) -> (citation: String)
    ensures
        citation@ == citation_text(
            reference@,
            index as nat,
            link_prefix.deep_view(),
            no_author,
            config@,
        ),
{
    let label = format_label(reference, index, no_author, config.citation_style);
    if config.link_refs {
        let anchor = key_to_anchor(reference.key.as_str());
        let mut citation = "[".to_owned();
        citation.append(label.as_str());
        citation.append("](");
        if let Some(prefix) = link_prefix {
            citation.append(prefix.as_str());
        }
        citation.append("#");
        citation.append(anchor.as_str());
        citation.append(")");
        assert(citation@ =~= citation_text(
            reference@,
            index as nat,
            link_prefix.deep_view(),
            no_author,
            config@,
        ));
        citation
    } else {
        label
    }
}

} // verus!
