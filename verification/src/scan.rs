//! The marker scanner: finds citation markers in text lines and rewrites
//! them into inline citations.
//!
//! A marker is an optional `-`, then `@`, then a key: the longest run of
//! key characters, which must not be empty. A line is scanned from left to
//! right; markers do not overlap.

use crate::config::{Config, ConfigView};
use crate::entry::{lookup, Bibliography, EntryView};
use crate::format::{citation_text, format_citation};
use crate::registry::{registered, Registry};
use crate::text::{chars_of, string_of};
use vstd::prelude::*;
use vstd::string::*;

verus! {

/// White space: the characters with the Unicode property `White_Space`.
pub open spec fn is_space(c: char) -> bool {
    let n = c as u32;
    ||| 0x09 <= n <= 0x0d
    ||| n == 0x20
    ||| n == 0x85
    ||| n == 0xa0
    ||| n == 0x1680
    ||| 0x2000 <= n <= 0x200a
    ||| n == 0x2028
    ||| n == 0x2029
    ||| n == 0x202f
    ||| n == 0x205f
    ||| n == 0x3000
}

/// The punctuation that ends a key.
pub open spec fn is_key_stop(c: char) -> bool {
    ||| c == '['
    ||| c == ']'
    ||| c == '.'
    ||| c == ','
    ||| c == ';'
    ||| c == '"'
    ||| c == '#'
    ||| c == '\''
    ||| c == '('
    ||| c == ')'
    ||| c == '='
    ||| c == '{'
    ||| c == '}'
    ||| c == '%'
}

/// A character that may stand in a key: any but white space and the
/// punctuation that ends a key.
pub open spec fn is_key_char(c: char) -> bool {
    !is_space(c) && !is_key_stop(c)
}

/// The end of the longest run of key characters that starts at `i`.
pub open spec fn key_end(line: Seq<char>, i: int) -> int
    decreases line.len() - i,
{
    if 0 <= i < line.len() && is_key_char(line[i]) {
        key_end(line, i + 1)
    } else {
        i
    }
}

/// A marker found in a line.
pub struct Marker {
    /// Whether the marker starts with `-`, which hides the authors.
    pub no_author: bool,
    /// Where the key starts.
    pub key_start: int,
    /// Where the key, and with it the marker, ends.
    pub end: int,
}

/// The marker that starts at position `i`, if one does.
pub open spec fn marker_at(line: Seq<char>, i: int) -> Option<Marker> {
    if 0 <= i && i + 1 < line.len() && line[i] == '-' && line[i + 1] == '@' && key_end(line, i + 2)
        > i + 2 {
        Some(Marker { no_author: true, key_start: i + 2, end: key_end(line, i + 2) })
    } else if 0 <= i < line.len() && line[i] == '@' && key_end(line, i + 1) > i + 1 {
        Some(Marker { no_author: false, key_start: i + 1, end: key_end(line, i + 1) })
    } else {
        None
    }
}

/// The longest run of key characters from `i` ends within the line; it
/// holds key characters only, and what follows it is no key character.
pub proof fn lemma_key_end(line: Seq<char>, i: int)
    requires
        0 <= i <= line.len(),
    ensures
        i <= key_end(line, i) <= line.len(),
        forall|j: int| i <= j < key_end(line, i) ==> is_key_char(#[trigger] line[j]),
        key_end(line, i) < line.len() ==> !is_key_char(line[key_end(line, i)]),
    decreases line.len() - i,
{
    if i < line.len() && is_key_char(line[i]) {
        lemma_key_end(line, i + 1);
    }
}

/// A marker lies within the line, and its key is not empty.
pub proof fn lemma_marker_at(line: Seq<char>, i: int)
    ensures
        match marker_at(line, i) {
            Some(m) => 0 <= i < m.key_start < m.end <= line.len(),
            None => true,
        },
{
    if 0 <= i {
        if i + 2 <= line.len() {
            lemma_key_end(line, i + 2);
        }
        if i + 1 <= line.len() {
            lemma_key_end(line, i + 1);
        }
    }
}

/// Text while its citations are rewritten, and when that is done. The
/// text is a line, the lines of a block, the nodes of a document or a list
/// of documents.
pub struct Scan<T> {
    /// The rewritten text.
    pub text: T,
    /// The registered keys.
    pub keys: Seq<Seq<char>>,
    /// The markers whose key the bibliography does not hold.
    pub missing: Seq<Seq<char>>,
}

/// The scan after the marker `marker` with the key `key` was handled. A key
/// of the bibliography is registered and the citation of its entry is
/// written, with the key's index plus one as its number. Any other marker
/// is written as it stands, and noted as missing.
pub open spec fn cite(
    scan: Scan<Seq<char>>,
    marker: Seq<char>,
    key: Seq<char>,
    no_author: bool,
    bib: Seq<EntryView>,
    link_prefix: Option<Seq<char>>,
    config: ConfigView,
) -> Scan<Seq<char>> {
    match lookup(bib, key) {
        Some(entry) => {
            let keys = registered(scan.keys, key);
            let number = (keys.index_of(key) + 1) as nat;
            Scan {
                text: scan.text + citation_text(entry, number, link_prefix, no_author, config),
                keys: keys,
                missing: scan.missing,
            }
        },
        None => Scan {
            text: scan.text + marker,
            keys: scan.keys,
            missing: scan.missing.push(marker),
        },
    }
}

/// The scan of `line` from position `i` on, continuing `scan`.
pub open spec fn scan_from(
    line: Seq<char>,
    i: int,
    bib: Seq<EntryView>,
    link_prefix: Option<Seq<char>>,
    config: ConfigView,
    scan: Scan<Seq<char>>,
) -> Scan<Seq<char>>
    decreases line.len() - i,
    via scan_from_decreases
{
    if i < 0 || i >= line.len() {
        scan
    } else {
        match marker_at(line, i) {
            Some(m) => scan_from(
                line,
                m.end,
                bib,
                link_prefix,
                config,
                cite(
                    scan,
                    line.subrange(i, m.end),
                    line.subrange(m.key_start, m.end),
                    m.no_author,
                    bib,
                    link_prefix,
                    config,
                ),
            ),
            None => scan_from(
                line,
                i + 1,
                bib,
                link_prefix,
                config,
                Scan { text: scan.text.push(line[i]), keys: scan.keys, missing: scan.missing },
            ),
        }
    }
}

#[via_fn]
proof fn scan_from_decreases(
    line: Seq<char>,
    i: int,
    bib: Seq<EntryView>,
    link_prefix: Option<Seq<char>>,
    config: ConfigView,
    scan: Scan<Seq<char>>,
) {
    lemma_marker_at(line, i);
}

/// The scan of a whole line, starting with the registered keys `keys`.
pub open spec fn scan_line(
    line: Seq<char>,
    bib: Seq<EntryView>,
    link_prefix: Option<Seq<char>>,
    config: ConfigView,
    keys: Seq<Seq<char>>,
) -> Scan<Seq<char>> {
    scan_from(
        line,
        0,
        bib,
        link_prefix,
        config,
        Scan { text: Seq::empty(), keys: keys, missing: Seq::empty() },
    )
}

/// Markers of unknown keys are left as they stand: a line in which no
/// marker has a key of the bibliography is scanned to itself, character by
/// character, and registers nothing.
pub proof fn lemma_scan_unknown(
    line: Seq<char>,
    i: int,
    bib: Seq<EntryView>,
    link_prefix: Option<Seq<char>>,
    config: ConfigView,
    scan: Scan<Seq<char>>,
)
    requires
        0 <= i <= line.len(),
        forall|j: int|
            (#[trigger] marker_at(line, j)) matches Some(m) ==> lookup(
                bib,
                line.subrange(m.key_start, m.end),
            ).is_none(),
    ensures
        scan_from(line, i, bib, link_prefix, config, scan).text == scan.text + line.subrange(
            i,
            line.len() as int,
        ),
        scan_from(line, i, bib, link_prefix, config, scan).keys == scan.keys,
    decreases line.len() - i,
{
    if i < line.len() {
        lemma_marker_at(line, i);
        match marker_at(line, i) {
            Some(m) => {
                let marker = line.subrange(i, m.end);
                let key = line.subrange(m.key_start, m.end);
                let next = cite(scan, marker, key, m.no_author, bib, link_prefix, config);
                lemma_scan_unknown(line, m.end, bib, link_prefix, config, next);
                assert(scan.text + marker + line.subrange(m.end, line.len() as int) =~= scan.text
                    + line.subrange(i, line.len() as int));
            },
            None => {
                let next = Scan {
                    text: scan.text.push(line[i]),
                    keys: scan.keys,
                    missing: scan.missing,
                };
                lemma_scan_unknown(line, i + 1, bib, link_prefix, config, next);
                assert(scan.text.push(line[i]) + line.subrange(i + 1, line.len() as int)
                    =~= scan.text + line.subrange(i, line.len() as int));
            },
        }
    } else {
        assert(scan.text + line.subrange(i, line.len() as int) =~= scan.text);
    }
}

/// A line without markers of known keys is left unchanged.
pub proof fn lemma_scan_line_unknown(
    line: Seq<char>,
    bib: Seq<EntryView>,
    link_prefix: Option<Seq<char>>,
    config: ConfigView,
    keys: Seq<Seq<char>>,
)
    requires
        forall|j: int|
            (#[trigger] marker_at(line, j)) matches Some(m) ==> lookup(
                bib,
                line.subrange(m.key_start, m.end),
            ).is_none(),
    ensures
        scan_line(line, bib, link_prefix, config, keys).text == line,
        scan_line(line, bib, link_prefix, config, keys).keys == keys,
{
    let start = Scan { text: Seq::empty(), keys: keys, missing: Seq::empty() };
    lemma_scan_unknown(line, 0, bib, link_prefix, config, start);
    assert(Seq::<char>::empty() + line.subrange(0, line.len() as int) =~= line);
}

fn is_space_char(c: char) -> (r: bool)
    ensures
        r == is_space(c),
{
    let n: u32 = c as u32;
    (0x09 <= n && n <= 0x0d) || n == 0x20 || n == 0x85 || n == 0xa0 || n == 0x1680 || (0x2000 <= n
        && n <= 0x200a) || n == 0x2028 || n == 0x2029 || n == 0x202f || n == 0x205f || n == 0x3000
}

fn is_key_character(c: char) -> (r: bool)
    ensures
        r == is_key_char(c),
{
    !(is_space_char(c) || c == '[' || c == ']' || c == '.' || c == ',' || c == ';' || c == '"' || c
        == '#' || c == '\'' || c == '(' || c == ')' || c == '=' || c == '{' || c == '}' || c == '%')
}

fn find_key_end(line: &Vec<char>, i: usize) -> (end: usize)
    requires
        i <= line.len(),
    ensures
        end == key_end(line@, i as int),
        i <= end <= line.len(),
{
    let mut j: usize = i;
    while j < line.len() && is_key_character(line[j])
        invariant
            i <= j <= line.len(),
            key_end(line@, i as int) == key_end(line@, j as int),
        decreases line.len() - j,
    {
        j += 1;
    }
    j
}

/// The marker that starts at position `i`, if one does: whether it hides
/// the authors, where its key starts and where it ends.
pub fn find_marker(line: &Vec<char>, i: usize) -> (r: Option<(bool, usize, usize)>)
    ensures
        match r {
            Some((no_author, key_start, end)) => marker_at(line@, i as int) == Some(
                Marker { no_author: no_author, key_start: key_start as int, end: end as int },
            ) && i < key_start < end <= line.len(),
            None => marker_at(line@, i as int).is_none(),
        },
{
    if i >= line.len() {
        None
    } else if line[i] == '-' {
        if i + 1 < line.len() && line[i + 1] == '@' {
            let end = find_key_end(line, i + 2);
            if end > i + 2 {
                return Some((true, i + 2, end));
            }
        }
        None
    } else if line[i] == '@' {
        let end = find_key_end(line, i + 1);
        if end > i + 1 {
            Some((false, i + 1, end))
        } else {
            None
        }
    } else {
        None
    }
}

/// Rewrites the markers of one line. Returns the rewritten line and the
/// markers whose key the bibliography does not hold; those markers stand
/// in the rewritten line unchanged.
pub fn render_citations_line(
    line: &str,
    bibliography: &Bibliography,
    config: &Config,
    link_prefix: Option<&String>,
    citations: &mut Registry,
) -> (r: (String, Vec<String>))
    requires
        old(citations).wf(),
    ensures
        final(citations).wf(),
        r.0@ == scan_line(
            line@,
            bibliography@,
            link_prefix.deep_view(),
            config@,
            old(citations)@,
        ).text,
        final(citations)@ == scan_line(
            line@,
            bibliography@,
            link_prefix.deep_view(),
            config@,
            old(citations)@,
        ).keys,
        r.1.deep_view() == scan_line(
            line@,
            bibliography@,
            link_prefix.deep_view(),
            config@,
            old(citations)@,
        ).missing,
{
    let chars = chars_of(line);
    let mut out = String::new();
    let mut missing: Vec<String> = Vec::new();
    let ghost bib = bibliography@;
    let ghost prefix = link_prefix.deep_view();
    let ghost result = scan_line(line@, bib, prefix, config@, old(citations)@);
    assert(missing.deep_view() =~= Seq::<Seq<char>>::empty());
    let mut i: usize = 0;
    while i < chars.len()
        invariant
            i <= chars.len(),
            chars@ == line@,
            citations.wf(),
            bib == bibliography@,
            prefix == link_prefix.deep_view(),
            result == scan_from(
                chars@,
                i as int,
                bib,
                prefix,
                config@,
                Scan { text: out@, keys: citations@, missing: missing.deep_view() },
            ),
        decreases chars.len() - i,
    {
        let ghost scan = Scan { text: out@, keys: citations@, missing: missing.deep_view() };
        match find_marker(&chars, i) {
            Some((no_author, key_start, end)) => {
                let key = string_of(&chars, key_start, end);
                let ghost marker = chars@.subrange(i as int, end as int);
                match bibliography.get(key.as_str()) {
                    Some(reference) => {
                        let index = citations.register(key.as_str());
                        proof {
                            citations.lemma_keys_distinct();
                        }
                        let citation = format_citation(
                            reference,
                            index + 1,
                            link_prefix,
                            no_author,
                            config,
                        );
                        out.append(citation.as_str());
                    },
                    None => {
                        let unchanged = string_of(&chars, i, end);
                        out.append(unchanged.as_str());
                        missing.push(unchanged);
                        assert(missing.deep_view() =~= scan.missing.push(marker));
                    },
                }
                assert(Scan { text: out@, keys: citations@, missing: missing.deep_view() }
                    == cite(scan, marker, key@, no_author, bib, prefix, config@));
                i = end;
            },
            None => {
                out.push(chars[i]);
                i += 1;
            },
        }
    }
    (out, missing)
}

} // verus!
