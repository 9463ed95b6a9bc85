//! The order of the reference list under the author-year style: by the
//! list of authors, then by the year as it is shown.
//!
//! Texts are ordered character by character, by code point; a text comes
//! before every text that it is a proper prefix of. Lists are ordered in
//! the same way element by element. An entry without authors comes before
//! every entry with authors.

use crate::entry::{Entry, EntryView, Person, PersonView};
use crate::format::{date_text, format_date};
use crate::text::chars_of;
use vstd::prelude::*;

verus! {

/// How one value stands to another in an order.
#[derive(Clone, Copy, Debug, PartialEq, Eq, Structural)]
pub enum Order {
    Less,
    Equal,
    Greater,
}

/// The first order where it decides, the second where the first finds the
/// values equal.
pub open spec fn refined(first: Order, second: Order) -> Order {
    if first == Order::Equal {
        second
    } else {
        first
    }
}

/// The order of two texts from position `i` on, given that they agree
/// before it.
pub open spec fn text_order_from(a: Seq<char>, b: Seq<char>, i: int) -> Order
    decreases a.len() - i,
{
    if i < 0 {
        Order::Equal
    } else if i >= a.len() {
        if i >= b.len() {
            Order::Equal
        } else {
            Order::Less
        }
    } else if i >= b.len() {
        Order::Greater
    } else if (a[i] as u32) < (b[i] as u32) {
        Order::Less
    } else if (a[i] as u32) > (b[i] as u32) {
        Order::Greater
    } else {
        text_order_from(a, b, i + 1)
    }
}

/// The order of two texts.
pub open spec fn text_order(a: Seq<char>, b: Seq<char>) -> Order {
    text_order_from(a, b, 0)
}

/// The order of two persons: by family name, then given name, then prefix,
/// then suffix.
pub open spec fn person_order(a: PersonView, b: PersonView) -> Order {
    refined(
        text_order(a.name, b.name),
        refined(
            text_order(a.given_name, b.given_name),
            refined(text_order(a.prefix, b.prefix), text_order(a.suffix, b.suffix)),
        ),
    )
}

/// The order of two lists of persons from position `i` on, given that
/// they agree before it.
pub open spec fn persons_order_from(a: Seq<PersonView>, b: Seq<PersonView>, i: int) -> Order
    decreases a.len() - i,
{
    if i < 0 {
        Order::Equal
    } else if i >= a.len() {
        if i >= b.len() {
            Order::Equal
        } else {
            Order::Less
        }
    } else if i >= b.len() {
        Order::Greater
    } else if person_order(a[i], b[i]) != Order::Equal {
        person_order(a[i], b[i])
    } else {
        persons_order_from(a, b, i + 1)
    }
}

/// The order of two author fields: an absent field first.
pub open spec fn authors_order(a: Option<Seq<PersonView>>, b: Option<Seq<PersonView>>) -> Order {
    match (a, b) {
        (None, None) => Order::Equal,
        (None, Some(_)) => Order::Less,
        (Some(_), None) => Order::Greater,
        (Some(x), Some(y)) => persons_order_from(x, y, 0),
    }
}

/// The order of two entries in the reference list: by authors, then by the
/// year as it is shown.
pub open spec fn entry_order(a: EntryView, b: EntryView) -> Order {
    refined(authors_order(a.authors, b.authors), text_order(date_text(a.date), date_text(b.date)))
}

/// `a` does not come after `b` in the reference list.
pub open spec fn entry_le(a: EntryView, b: EntryView) -> bool {
    entry_order(a, b) != Order::Greater
}

/// The order seen from the other side.
pub open spec fn flipped(order: Order) -> Order {
    match order {
        Order::Less => Order::Greater,
        Order::Equal => Order::Equal,
        Order::Greater => Order::Less,
    }
}

/// The order of texts is the same from both sides.
pub proof fn lemma_text_order_flip(a: Seq<char>, b: Seq<char>, i: int)
    ensures
        text_order_from(b, a, i) == flipped(text_order_from(a, b, i)),
    decreases a.len() - i,
{
    if 0 <= i < a.len() && i < b.len() && (a[i] as u32) == (b[i] as u32) {
        lemma_text_order_flip(a, b, i + 1);
    }
}

/// The order of texts is transitive: what holds between `a` and `b` and
/// between `b` and `c` holds between `a` and `c`.
pub proof fn lemma_text_order_transitive(a: Seq<char>, b: Seq<char>, c: Seq<char>, i: int)
    requires
        0 <= i,
    ensures
        text_order_from(a, b, i) == Order::Equal ==> text_order_from(a, c, i) == text_order_from(
            b,
            c,
            i,
        ),
        text_order_from(b, c, i) == Order::Equal ==> text_order_from(a, c, i) == text_order_from(
            a,
            b,
            i,
        ),
        text_order_from(a, b, i) == Order::Less && text_order_from(b, c, i) == Order::Less
            ==> text_order_from(a, c, i) == Order::Less,
    decreases a.len() - i,
{
    if i < a.len() && i < b.len() && i < c.len() && (a[i] as u32) == (b[i] as u32) && (b[i] as u32)
        == (c[i] as u32) {
        lemma_text_order_transitive(a, b, c, i + 1);
    }
}

/// The order of persons is the same from both sides.
pub proof fn lemma_person_order_flip(a: PersonView, b: PersonView)
    ensures
        person_order(b, a) == flipped(person_order(a, b)),
{
    lemma_text_order_flip(a.name, b.name, 0);
    lemma_text_order_flip(a.given_name, b.given_name, 0);
    lemma_text_order_flip(a.prefix, b.prefix, 0);
    lemma_text_order_flip(a.suffix, b.suffix, 0);
}

/// The order of persons is transitive.
pub proof fn lemma_person_order_transitive(a: PersonView, b: PersonView, c: PersonView)
    ensures
        person_order(a, b) == Order::Equal ==> person_order(a, c) == person_order(b, c),
        person_order(b, c) == Order::Equal ==> person_order(a, c) == person_order(a, b),
        person_order(a, b) == Order::Less && person_order(b, c) == Order::Less ==> person_order(
            a,
            c,
        ) == Order::Less,
{
    lemma_text_order_transitive(a.name, b.name, c.name, 0);
    lemma_text_order_transitive(a.given_name, b.given_name, c.given_name, 0);
    lemma_text_order_transitive(a.prefix, b.prefix, c.prefix, 0);
    lemma_text_order_transitive(a.suffix, b.suffix, c.suffix, 0);
}

/// The order of lists of persons is the same from both sides.
pub proof fn lemma_persons_order_flip(a: Seq<PersonView>, b: Seq<PersonView>, i: int)
    ensures
        persons_order_from(b, a, i) == flipped(persons_order_from(a, b, i)),
    decreases a.len() - i,
{
    if 0 <= i < a.len() && i < b.len() {
        lemma_person_order_flip(a[i], b[i]);
        if person_order(a[i], b[i]) == Order::Equal {
            lemma_persons_order_flip(a, b, i + 1);
        }
    }
}

/// The order of lists of persons is transitive.
pub proof fn lemma_persons_order_transitive(
    a: Seq<PersonView>,
    b: Seq<PersonView>,
    c: Seq<PersonView>,
    i: int,
)
    requires
        0 <= i,
    ensures
        persons_order_from(a, b, i) == Order::Equal ==> persons_order_from(a, c, i)
            == persons_order_from(b, c, i),
        persons_order_from(b, c, i) == Order::Equal ==> persons_order_from(a, c, i)
            == persons_order_from(a, b, i),
        persons_order_from(a, b, i) == Order::Less && persons_order_from(b, c, i) == Order::Less
            ==> persons_order_from(a, c, i) == Order::Less,
    decreases a.len() - i,
{
    if i < a.len() && i < b.len() && i < c.len() {
        lemma_person_order_transitive(a[i], b[i], c[i]);
        if person_order(a[i], b[i]) == Order::Equal && person_order(b[i], c[i]) == Order::Equal {
            lemma_persons_order_transitive(a, b, c, i + 1);
        }
    }
}

/// The order of entries is the same from both sides.
pub proof fn lemma_entry_order_flip(a: EntryView, b: EntryView)
    ensures
        entry_order(b, a) == flipped(entry_order(a, b)),
{
    lemma_text_order_flip(date_text(a.date), date_text(b.date), 0);
    match (a.authors, b.authors) {
        (Some(x), Some(y)) => {
            lemma_persons_order_flip(x, y, 0);
        },
        _ => {},
    }
}

/// The order of the reference list is total: of two entries, one does not
/// come after the other.
pub proof fn lemma_entry_le_total(a: EntryView, b: EntryView)
    ensures
        entry_le(a, b) || entry_le(b, a),
{
    lemma_entry_order_flip(a, b);
}

/// The order of the reference list is reflexive.
pub proof fn lemma_entry_le_reflexive(a: EntryView)
    ensures
        entry_le(a, a),
{
    lemma_entry_order_flip(a, a);
}

/// The order of the reference list is transitive.
pub proof fn lemma_entry_le_transitive(a: EntryView, b: EntryView, c: EntryView)
    requires
        entry_le(a, b),
        entry_le(b, c),
    ensures
        entry_le(a, c),
{
    lemma_text_order_transitive(date_text(a.date), date_text(b.date), date_text(c.date), 0);
    match (a.authors, b.authors, c.authors) {
        (Some(x), Some(y), Some(z)) => {
            lemma_persons_order_transitive(x, y, z, 0);
        },
        _ => {},
    }
}

/// The order of two texts.
pub fn order_texts(a: &str, b: &str) -> (order: Order)
    ensures
        order == text_order(a@, b@),
{
    let x = chars_of(a);
    let y = chars_of(b);
    let mut i: usize = 0;
    while i < x.len() && i < y.len()
        invariant
            i <= x.len(),
            i <= y.len(),
            x@ == a@,
            y@ == b@,
            text_order(a@, b@) == text_order_from(x@, y@, i as int),
        decreases x.len() - i,
    {
        let p: u32 = x[i] as u32;
        let q: u32 = y[i] as u32;
        if p < q {
            return Order::Less;
        }
        if p > q {
            return Order::Greater;
        }
        i += 1;
    }
    if i < y.len() {
        Order::Less
    } else if i < x.len() {
        Order::Greater
    } else {
        Order::Equal
    }
}

/// The order of two persons.
pub fn order_persons(a: &Person, b: &Person) -> (order: Order)
    ensures
        order == person_order(a@, b@),
{
    let by_name = order_texts(a.name.as_str(), b.name.as_str());
    if by_name != Order::Equal {
        return by_name;
    }
    let by_given_name = order_texts(a.given_name.as_str(), b.given_name.as_str());
    if by_given_name != Order::Equal {
        return by_given_name;
    }
    let by_prefix = order_texts(a.prefix.as_str(), b.prefix.as_str());
    if by_prefix != Order::Equal {
        return by_prefix;
    }
    order_texts(a.suffix.as_str(), b.suffix.as_str())
}

/// The order of two author fields.
pub fn order_authors(a: Option<&Vec<Person>>, b: Option<&Vec<Person>>) -> (order: Order)
    ensures
        order == authors_order(a.deep_view(), b.deep_view()),
{
    match (a, b) {
        (None, None) => Order::Equal,
        (None, Some(_)) => Order::Less,
        (Some(_), None) => Order::Greater,
        (Some(x), Some(y)) => {
            let mut i: usize = 0;
            while i < x.len() && i < y.len()
                invariant
                    i <= x.len(),
                    i <= y.len(),
                    a.deep_view() == Some(x.deep_view()),
                    b.deep_view() == Some(y.deep_view()),
                    persons_order_from(x.deep_view(), y.deep_view(), 0) == persons_order_from(
                        x.deep_view(),
                        y.deep_view(),
                        i as int,
                    ),
                decreases x.len() - i,
            {
                let order = order_persons(&x[i], &y[i]);
                assert(x.deep_view()[i as int] == x@[i as int]@);
                assert(y.deep_view()[i as int] == y@[i as int]@);
                if order != Order::Equal {
                    return order;
                }
                i += 1;
            }
            if i < y.len() {
                Order::Less
            } else if i < x.len() {
                Order::Greater
            } else {
                Order::Equal
            }
        },
    }
}

/// The order of two entries in the reference list.
pub fn order_entries(a: &Entry, b: &Entry) -> (order: Order)
    ensures
        order == entry_order(a@, b@),
{
    let by_authors = order_authors(a.authors.as_ref(), b.authors.as_ref());
    if by_authors != Order::Equal {
        return by_authors;
    }
    let x = format_date(a.date);
    let y = format_date(b.date);
    order_texts(x.as_str(), y.as_str())
}

} // verus!
