use biblatex::{ChunksExt, DateValue};
use yarner_bib::config::{CitationStyle, Config};
use yarner_bib::entry::{Bibliography, Date, Entry, EntryType, Person};
use yarner_bib::format::{format_citation, format_reference};
use yarner_bib::registry::Registry;
use yarner_bib::scan::render_citations_line;

const TEST_BIB: &str = r#"
@book{Klabnik2018,
    author = {Klabnik, Steve and Nichols, Carol},
    title = {The Rust Programming Language},
    year = {2018},
    isbn = {1593278284},
    publisher = {No Starch Press},
}

@article{Turing1937,
    author = {Turing, Alan Mathison},
    title = {On Computable Numbers},
    journal = {Proceedings of the London Mathematical Society},
    volume = {42},
    number = {1},
    pages = {230--265},
    date = {1937},
}

@incollection{Dijkstra1972,
    author = {Dijkstra, Edsger W.},
    editor = {Dahl, Ole-Johan and Hoare, C. A. R.},
    title = {Notes on Structured Programming},
    booktitle = {Structured Programming},
    publisher = {Academic Press},
    address = {London},
    date = {1970/1972},
}
"#;

fn plain_persons(list: &[biblatex::Person]) -> Vec<Person> {
    list.iter()
        .map(|person| Person {
            name: person.name.clone(),
            given_name: person.given_name.clone(),
            prefix: person.prefix.clone(),
            suffix: person.suffix.clone(),
        })
        .collect()
}

fn plain_entry(item: &biblatex::Entry) -> Entry {
    Entry {
        key: item.key.clone(),
        entry_type: match item.entry_type {
            biblatex::EntryType::Article => EntryType::Article,
            biblatex::EntryType::Book => EntryType::Book,
            biblatex::EntryType::InBook => EntryType::InBook,
            biblatex::EntryType::InCollection => EntryType::InCollection,
            biblatex::EntryType::InProceedings => EntryType::InProceedings,
            _ => EntryType::Other,
        },
        authors: item.author().map(|list| plain_persons(&list)),
        date: item.date().map(|date| match date.value {
            DateValue::At(time) => Date::Exact(time.year),
            _ => Date::Unknown,
        }),
        title: item.title().map(|chunks| chunks.format_verbatim()),
        journal: item.journal().map(|chunks| chunks.format_verbatim()),
        volume: item.volume(),
        number: item.number().map(|chunks| chunks.format_verbatim()),
        pages: item.pages(),
        publisher: item
            .publisher()
            .map(|list| list.iter().map(|chunks| chunks.format_verbatim()).collect()),
        address: item.address().map(|chunks| chunks.format_verbatim()),
        editors: item.editors().iter().map(|(list, _)| plain_persons(list)).collect(),
        book_title: item.book_title().map(|chunks| chunks.format_verbatim()),
    }
}

fn parsed() -> Bibliography {
    let source = biblatex::Bibliography::parse(TEST_BIB).unwrap();
    Bibliography::new(source.iter().map(plain_entry).collect())
}

fn author_year() -> Config {
    Config {
        bib_file: "".to_string(),
        citation_style: CitationStyle::AuthorYear,
        refs_file: None,
        placeholder: "[[_REFS_]]".to_string(),
        render_key: true,
        link_refs: true,
    }
}

#[test]
fn a_parsed_entry_holds_the_fields_of_its_source() {
    let bib = parsed();
    assert_eq!(bib.len(), 3);
    let no_name = String::new();
    let mut expected = Entry::new("Klabnik2018".to_string(), EntryType::Book);
    expected.authors = Some(vec![
        Person {
            name: "Klabnik".to_string(),
            given_name: "Steve".to_string(),
            prefix: no_name.clone(),
            suffix: no_name.clone(),
        },
        Person {
            name: "Nichols".to_string(),
            given_name: "Carol".to_string(),
            prefix: no_name.clone(),
            suffix: no_name,
        },
    ]);
    expected.title = Some("The Rust Programming Language".to_string());
    expected.date = Some(Date::Exact(2018));
    expected.publisher = Some(vec!["No Starch Press".to_string()]);
    assert_eq!(bib.get("Klabnik2018"), Some(&expected));
    assert_eq!(bib.get("Klabnik"), None);
    assert_eq!(bib.position("Turing1937"), Some(1));
}

#[test]
fn citations_of_parsed_entries() {
    let bib = parsed();
    let config = author_year();
    assert_eq!(
        format_citation(bib.get("Klabnik2018").unwrap(), 1, None, false, &config),
        "[Klabnik & Nichols 2018](#cite-ref-Klabnik2018)"
    );
    assert_eq!(
        format_citation(bib.get("Klabnik2018").unwrap(), 1, None, true, &config),
        "[2018](#cite-ref-Klabnik2018)"
    );
    assert_eq!(
        format_citation(bib.get("Dijkstra1972").unwrap(), 1, None, false, &config),
        "[Dijkstra ????](#cite-ref-Dijkstra1972)"
    );
    let mut citations = Registry::new();
    let (line, missing) = render_citations_line(
        "A test citation: @Klabnik2018.",
        &bib,
        &config,
        None,
        &mut citations,
    );
    assert_eq!(line, "A test citation: [Klabnik & Nichols 2018](#cite-ref-Klabnik2018).");
    assert!(missing.is_empty());
    assert_eq!(citations.len(), 1);
}

#[test]
fn references_of_parsed_entries() {
    let bib = parsed();
    let mut config = author_year();
    config.link_refs = false;
    config.render_key = false;
    assert_eq!(
        format_reference(bib.get("Klabnik2018").unwrap(), 1, &config),
        "Klabnik S, Nichols C (2018): **The Rust Programming Language**. *No Starch Press*."
    );
    assert_eq!(
        format_reference(bib.get("Turing1937").unwrap(), 1, &config),
        "Turing AM (1937): **On Computable Numbers**. *Proceedings of the London Mathematical Society* 42:1, 230-265."
    );
    assert_eq!(
        format_reference(bib.get("Dijkstra1972").unwrap(), 1, &config),
        "Dijkstra EW (????): **Notes on Structured Programming**. In: Dahl O, Hoare CAR (eds.): Structured Programming. *Academic Press*, London."
    );
}
