//! Bibliography entries and the bibliography lookup.
//!
//! An [`Entry`] holds, as plain values, the fields that the formatters read.
//! Its model is [`EntryView`], where every string is a sequence of
//! characters.

use crate::text::str_eq;
use std::ops::Range;
use vstd::prelude::*;

verus! {

/// One author or editor.
#[derive(Clone, Debug, PartialEq, Eq)]
pub struct Person {
    /// The family name.
    pub name: String,
    /// The given name; empty when there is none.
    pub given_name: String,
    /// The particle between given name and family name.
    pub prefix: String,
    /// What follows the family name, such as "Jr.".
    pub suffix: String,
}

/// The model of a [`Person`].
pub struct PersonView {
    pub name: Seq<char>,
    pub given_name: Seq<char>,
    pub prefix: Seq<char>,
    pub suffix: Seq<char>,
}

impl View for Person {
    type V = PersonView;

    open spec fn view(&self) -> PersonView {
        PersonView {
            name: self.name@,
            given_name: self.given_name@,
            prefix: self.prefix@,
            suffix: self.suffix@,
        }
    }
}

impl DeepView for Person {
    type V = PersonView;

    open spec fn deep_view(&self) -> PersonView {
        self@
    }
}

/// The date of an entry, as far as citations show it.
#[derive(Clone, Copy, Debug, PartialEq, Eq, Structural)]
pub enum Date {
    /// An exact date, of which only the year is shown.
    Exact(i32),
    /// A range of dates, or a date with an open end.
    Unknown,
}

/// The category of an entry, which selects the formatter of its reference.
#[derive(Clone, Copy, Debug, PartialEq, Eq, Structural)]
pub enum EntryType {
    Article,
    Book,
    InBook,
    InCollection,
    InProceedings,
    /// Any other category, and entries without one.
    Other,
}

/// A bibliography entry.
#[derive(Clone, Debug, PartialEq, Eq)]
pub struct Entry {
    /// The citation key, by which markers refer to the entry.
    pub key: String,
    pub entry_type: EntryType,
    pub authors: Option<Vec<Person>>,
    pub date: Option<Date>,
    pub title: Option<String>,
    pub journal: Option<String>,
    pub volume: Option<i64>,
    /// The issue number within the volume.
    pub number: Option<String>,
    /// The page ranges; `Some` of an empty list when the field is present
    /// and holds no range.
    pub pages: Option<Vec<Range<u32>>>,
    pub publisher: Option<Vec<String>>,
    pub address: Option<String>,
    /// The editors, one list for each editorial role.
    pub editors: Vec<Vec<Person>>,
    pub book_title: Option<String>,
}

/// The model of an [`Entry`].
pub struct EntryView {
    pub key: Seq<char>,
    pub entry_type: EntryType,
    pub authors: Option<Seq<PersonView>>,
    pub date: Option<Date>,
    pub title: Option<Seq<char>>,
    pub journal: Option<Seq<char>>,
    pub volume: Option<i64>,
    pub number: Option<Seq<char>>,
    pub pages: Option<Seq<Range<u32>>>,
    pub publisher: Option<Seq<Seq<char>>>,
    pub address: Option<Seq<char>>,
    pub editors: Seq<Seq<PersonView>>,
    pub book_title: Option<Seq<char>>,
}

impl View for Entry {
    type V = EntryView;

    open spec fn view(&self) -> EntryView {
        EntryView {
            key: self.key@,
            entry_type: self.entry_type,
            authors: self.authors.deep_view(),
            date: self.date,
            title: self.title.deep_view(),
            journal: self.journal.deep_view(),
            volume: self.volume,
            number: self.number.deep_view(),
            pages: match self.pages {
                Some(ranges) => Some(ranges@),
                None => None,
            },
            publisher: self.publisher.deep_view(),
            address: self.address.deep_view(),
            editors: self.editors.deep_view(),
            book_title: self.book_title.deep_view(),
        }
    }
}

impl DeepView for Entry {
    type V = EntryView;

    open spec fn deep_view(&self) -> EntryView {
        self@
    }
}

impl Entry {
    /// An entry of the given key and category with every other field absent.
    pub fn new(key: String, entry_type: EntryType) -> (e: Entry)
        ensures
            e@ == (EntryView {
                key: key@,
                entry_type: entry_type,
                authors: None,
                date: None,
                title: None,
                journal: None,
                volume: None,
                number: None,
                pages: None,
                publisher: None,
                address: None,
                editors: Seq::empty(),
                book_title: None,
            }),
    {
        let e = Entry {
            key,
            entry_type,
            authors: None,
            date: None,
            title: None,
            journal: None,
            volume: None,
            number: None,
            pages: None,
            publisher: None,
            address: None,
            editors: Vec::new(),
            book_title: None,
        };
        assert(e.editors.deep_view() =~= Seq::<Seq<PersonView>>::empty());
        e
    }
}

/// The first position at or after `from` whose entry has the key `key`.
pub open spec fn position_from(entries: Seq<EntryView>, key: Seq<char>, from: int) -> Option<int>
    decreases entries.len() - from,
{
    if from < 0 || from >= entries.len() {
        None
    } else if entries[from].key == key {
        Some(from)
    } else {
        position_from(entries, key, from + 1)
    }
}

/// The position of the first entry with the key `key`.
pub open spec fn position_of(entries: Seq<EntryView>, key: Seq<char>) -> Option<int> {
    position_from(entries, key, 0)
}

/// The first entry with the key `key`.
pub open spec fn lookup(entries: Seq<EntryView>, key: Seq<char>) -> Option<EntryView> {
    match position_of(entries, key) {
        Some(i) => Some(entries[i]),
        None => None,
    }
}

/// `position_from` finds the least position at or after `from` that holds
/// the key, and finds none exactly when no such position exists.
pub proof fn lemma_position_from(entries: Seq<EntryView>, key: Seq<char>, from: int)
    requires
        0 <= from,
    ensures
        match position_from(entries, key, from) {
            Some(i) => {
                &&& from <= i < entries.len()
                &&& entries[i].key == key
                &&& forall|j: int| from <= j < i ==> entries[j].key != key
            },
            None => forall|j: int| from <= j < entries.len() ==> entries[j].key != key,
        },
    decreases entries.len() - from,
{
    if from < entries.len() && entries[from].key != key {
        lemma_position_from(entries, key, from + 1);
    }
}

/// A lookup finds the first entry that has the key, and fails exactly when
/// no entry has it.
pub proof fn lemma_position_of(entries: Seq<EntryView>, key: Seq<char>)
    ensures
        match position_of(entries, key) {
            Some(i) => {
                &&& 0 <= i < entries.len()
                &&& entries[i].key == key
                &&& forall|j: int| 0 <= j < i ==> entries[j].key != key
            },
            None => forall|j: int| 0 <= j < entries.len() ==> entries[j].key != key,
        },
{
    lemma_position_from(entries, key, 0);
}

/// A parsed bibliography: its entries in the order of the source.
#[derive(Clone, Debug, PartialEq, Eq)]
pub struct Bibliography {
    pub entries: Vec<Entry>,
}

impl View for Bibliography {
    type V = Seq<EntryView>;

    open spec fn view(&self) -> Seq<EntryView> {
        self.entries.deep_view()
    }
}

impl Bibliography {
    /// The bibliography of the given entries.
    pub fn new(entries: Vec<Entry>) -> (bib: Bibliography)
        ensures
            bib.entries == entries,
    {
        Bibliography { entries }
    }

    /// The number of entries.
    pub fn len(&self) -> (n: usize)
        ensures
            n == self@.len(),
    {
        self.entries.len()
    }

    /// The position of the first entry with the key `key`.
    pub fn position(&self, key: &str) -> (r: Option<usize>)
        ensures
            match r {
                Some(i) => position_of(self@, key@) == Some(i as int) && i < self.entries.len(),
                None => position_of(self@, key@).is_none(),
            },
    {
        let mut i: usize = 0;
        while i < self.entries.len()
            invariant
                i <= self.entries.len(),
                position_of(self@, key@) == position_from(self@, key@, i as int),
            decreases self.entries.len() - i,
        {
            if str_eq(self.entries[i].key.as_str(), key) {
                return Some(i);
            }
            i += 1;
        }
        None
    }

    /// The first entry with the key `key`.
    pub fn get(&self, key: &str) -> (r: Option<&Entry>)
        ensures
            r.deep_view() == lookup(self@, key@),
            match r {
                Some(e) => position_of(self@, key@) matches Some(i) && *e
                    == self.entries@[i],
                None => true,
            },
    {
        match self.position(key) {
            Some(i) => Some(&self.entries[i]),
            None => None,
        }
    }
}

} // verus!
