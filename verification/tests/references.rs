use yarner_bib::config::{CitationStyle, Config};
use yarner_bib::document::{Document, Node, TextBlock};
use yarner_bib::entry::{Bibliography, Date, Entry, EntryType, Person};
use yarner_bib::order::{order_authors, order_entries, order_persons, order_texts, Order};
use yarner_bib::references::{insert_references, render_references};
use yarner_bib::registry::Registry;
use yarner_bib::render::render_citations;

fn writer(name: &str, given_name: &str) -> Person {
    Person {
        name: name.to_string(),
        given_name: given_name.to_string(),
        prefix: String::new(),
        suffix: String::new(),
    }
}

fn work(key: &str, authors: Option<Vec<Person>>, date: Option<Date>) -> Entry {
    let mut entry = Entry::new(key.to_string(), EntryType::Book);
    entry.authors = authors;
    entry.date = date;
    entry.title = Some(format!("Title of {}", key));
    entry
}

fn library() -> Bibliography {
    Bibliography::new(vec![
        work("Zimmer2020", Some(vec![writer("Zimmer", "Zoe")]), Some(Date::Exact(2020))),
        work("Adams2010", Some(vec![writer("Adams", "Ann")]), Some(Date::Exact(2010))),
    ])
}

fn style(citation_style: CitationStyle) -> Config {
    Config {
        bib_file: String::new(),
        citation_style,
        refs_file: None,
        placeholder: "[[_REFS_]]".to_string(),
        render_key: false,
        link_refs: false,
    }
}

fn lines(text: &[&str]) -> Vec<String> {
    text.iter().map(|l| l.to_string()).collect()
}

fn cite(keys: &[&str]) -> Registry {
    let mut registry = Registry::new();
    for key in keys {
        registry.register(key);
    }
    registry
}

#[test]
fn author_year_orders_references_by_author() {
    let citations = cite(&["Zimmer2020", "Adams2010"]);
    assert_eq!(
        render_references(&citations, &library(), &style(CitationStyle::AuthorYear)),
        lines(&[
            "Adams A (2010): **Title of Adams2010**.",
            "",
            "Zimmer Z (2020): **Title of Zimmer2020**.",
        ])
    );
}

#[test]
fn index_style_orders_references_by_citation() {
    let citations = cite(&["Zimmer2020", "Adams2010"]);
    assert_eq!(
        render_references(&citations, &library(), &style(CitationStyle::Index)),
        lines(&[
            "[1] Zimmer Z (2020): **Title of Zimmer2020**.",
            "",
            "[2] Adams A (2010): **Title of Adams2010**.",
        ])
    );
}

#[test]
fn references_of_an_empty_registry_are_empty() {
    let citations = Registry::new();
    assert_eq!(
        render_references(&citations, &library(), &style(CitationStyle::Index)),
        Vec::<String>::new()
    );
    assert_eq!(
        render_references(&citations, &library(), &style(CitationStyle::AuthorYear)),
        Vec::<String>::new()
    );
}

#[test]
fn a_single_reference_has_no_separator() {
    let citations = cite(&["Adams2010"]);
    assert_eq!(
        render_references(&citations, &library(), &style(CitationStyle::Index)),
        lines(&["[1] Adams A (2010): **Title of Adams2010**."])
    );
}

#[test]
fn registered_keys_without_entry_are_skipped() {
    let citations = cite(&["Gone", "Zimmer2020", "AlsoGone", "Adams2010"]);
    assert_eq!(
        render_references(&citations, &library(), &style(CitationStyle::Index)),
        lines(&[
            "[2] Zimmer Z (2020): **Title of Zimmer2020**.",
            "",
            "[4] Adams A (2010): **Title of Adams2010**.",
        ])
    );
    assert_eq!(
        render_references(&citations, &library(), &style(CitationStyle::AuthorYear)),
        lines(&[
            "Adams A (2010): **Title of Adams2010**.",
            "",
            "Zimmer Z (2020): **Title of Zimmer2020**.",
        ])
    );
}

#[test]
fn author_year_orders_by_year_and_keeps_ties_in_place() {
    let bibliography = Bibliography::new(vec![
        work("n1", None, Some(Date::Exact(2001))),
        work("b2", Some(vec![writer("Brown", "B"), writer("Adams", "A")]), Some(Date::Exact(1999))),
        work("b1", Some(vec![writer("Brown", "B")]), Some(Date::Exact(2005))),
        work("a2", Some(vec![writer("Adams", "A")]), Some(Date::Exact(2010))),
        work("a1", Some(vec![writer("Adams", "A")]), Some(Date::Exact(1990))),
        work("a3", Some(vec![writer("Adams", "A")]), None),
        work("t1", Some(vec![writer("Adams", "A")]), Some(Date::Exact(1990))),
        work("e", Some(vec![]), Some(Date::Exact(3000))),
        work("u", Some(vec![writer("Adams", "A")]), Some(Date::Unknown)),
    ]);
    let citations = cite(&["u", "e", "t1", "a3", "a1", "a2", "b1", "b2", "n1", "missing"]);
    let mut config = style(CitationStyle::AuthorYear);
    config.render_key = true;
    let rendered = render_references(&citations, &bibliography, &config);
    let keys: Vec<String> = rendered
        .iter()
        .filter(|line| !line.is_empty())
        .map(|line| line[1..line.find(']').unwrap()].to_string())
        .collect();
    assert_eq!(keys, lines(&["n1", "e", "a1", "t1", "a2", "a3", "u", "b1", "b2"]));
    assert_eq!(rendered.len(), 17);
    for (position, line) in rendered.iter().enumerate() {
        assert_eq!(line.is_empty(), position % 2 == 1);
    }
}

#[test]
fn texts_are_ordered_by_code_point() {
    assert_eq!(order_texts("", ""), Order::Equal);
    assert_eq!(order_texts("", "a"), Order::Less);
    assert_eq!(order_texts("a", ""), Order::Greater);
    assert_eq!(order_texts("Adams", "Zimmer"), Order::Less);
    assert_eq!(order_texts("Zimmer", "Adams"), Order::Greater);
    assert_eq!(order_texts("Adams", "Adams"), Order::Equal);
    assert_eq!(order_texts("Adam", "Adams"), Order::Less);
    assert_eq!(order_texts("Z", "a"), Order::Less);
    assert_eq!(order_texts("é", "z"), Order::Greater);
    assert_eq!(order_texts("2010", "????"), Order::Less);
    for (a, b) in [("a", "b"), ("ab", "a"), ("é", "e"), ("\u{10000}", "\u{ffff}"), ("x", "x")] {
        let expected = match a.cmp(b) {
            std::cmp::Ordering::Less => Order::Less,
            std::cmp::Ordering::Equal => Order::Equal,
            std::cmp::Ordering::Greater => Order::Greater,
        };
        assert_eq!(order_texts(a, b), expected);
    }
}

#[test]
fn persons_and_entries_are_ordered_field_by_field() {
    let adams = writer("Adams", "Ann");
    let adams_b = writer("Adams", "Bob");
    let mut adams_jr = writer("Adams", "Ann");
    adams_jr.suffix = "Jr.".to_string();
    let mut van_adams = writer("Adams", "Ann");
    van_adams.prefix = "van".to_string();
    assert_eq!(order_persons(&adams, &adams), Order::Equal);
    assert_eq!(order_persons(&adams, &adams_b), Order::Less);
    assert_eq!(order_persons(&adams_jr, &adams), Order::Greater);
    assert_eq!(order_persons(&van_adams, &adams_jr), Order::Greater);
    assert_eq!(order_persons(&adams_b, &van_adams), Order::Greater);

    let one = vec![adams.clone()];
    let two = vec![adams.clone(), adams_b.clone()];
    assert_eq!(order_authors(None, None), Order::Equal);
    assert_eq!(order_authors(None, Some(&vec![])), Order::Less);
    assert_eq!(order_authors(Some(&one), None), Order::Greater);
    assert_eq!(order_authors(Some(&one), Some(&two)), Order::Less);
    assert_eq!(order_authors(Some(&two), Some(&one)), Order::Greater);
    assert_eq!(order_authors(Some(&two), Some(&two)), Order::Equal);

    let early = work("x", Some(one.clone()), Some(Date::Exact(1990)));
    let late = work("y", Some(one.clone()), Some(Date::Exact(2010)));
    let undated = work("z", Some(one), None);
    assert_eq!(order_entries(&early, &late), Order::Less);
    assert_eq!(order_entries(&late, &early), Order::Greater);
    assert_eq!(order_entries(&late, &undated), Order::Less);
    assert_eq!(order_entries(&early, &early), Order::Equal);
}

#[test]
fn the_placeholder_line_is_replaced_by_the_references() {
    let mut document = Document {
        nodes: vec![
            Node::Other,
            Node::Text(TextBlock { text: lines(&["# Title", "Cite @Zimmer2020 and @Adams2010."]) }),
            Node::Text(TextBlock { text: lines(&["## References", "[[_REFS_]]", "The end."]) }),
            Node::Text(TextBlock { text: lines(&["[[_REFS_]]"]) }),
        ],
    };
    let config = style(CitationStyle::Index);
    let (citations, _) = render_citations(&mut document, &library(), &config);
    let missing = insert_references(&mut document, &citations, &library(), &config);
    assert!(!missing);
    assert_eq!(
        document,
        Document {
            nodes: vec![
                Node::Other,
                Node::Text(TextBlock { text: lines(&["# Title", "Cite 1 and 2."]) }),
                Node::Text(TextBlock {
                    text: lines(&[
                        "## References",
                        "[1] Zimmer Z (2020): **Title of Zimmer2020**.",
                        "",
                        "[2] Adams A (2010): **Title of Adams2010**.",
                        "The end.",
                    ]),
                }),
                Node::Text(TextBlock { text: lines(&["[[_REFS_]]"]) }),
            ],
        }
    );
}

#[test]
fn a_line_that_contains_the_placeholder_is_replaced_whole() {
    let mut document = Document {
        nodes: vec![Node::Text(TextBlock {
            text: lines(&["before", "  see [[_REFS_]] here", "[[_REFS_]]", "after"]),
        })],
    };
    let citations = cite(&["Adams2010"]);
    let missing =
        insert_references(&mut document, &citations, &library(), &style(CitationStyle::AuthorYear));
    assert!(!missing);
    assert_eq!(
        document.nodes,
        vec![Node::Text(TextBlock {
            text: lines(&[
                "before",
                "Adams A (2010): **Title of Adams2010**.",
                "[[_REFS_]]",
                "after",
            ]),
        })]
    );
}

#[test]
fn the_placeholder_line_vanishes_without_citations() {
    let mut document = Document {
        nodes: vec![Node::Text(TextBlock { text: lines(&["a", "[[_REFS_]]", "b"]) })],
    };
    let missing = insert_references(
        &mut document,
        &Registry::new(),
        &library(),
        &style(CitationStyle::Index),
    );
    assert!(!missing);
    assert_eq!(document.nodes, vec![Node::Text(TextBlock { text: lines(&["a", "b"]) })]);
}

#[test]
fn a_document_without_placeholder_stays_as_it_is() {
    let nodes = vec![
        Node::Text(TextBlock { text: lines(&["a", "[[_REFS_]", "b"]) }),
        Node::Other,
    ];
    let mut document = Document { nodes: nodes.clone() };
    let missing = insert_references(
        &mut document,
        &cite(&["Adams2010"]),
        &library(),
        &style(CitationStyle::Index),
    );
    assert!(missing);
    assert_eq!(document.nodes, nodes);

    let missing = insert_references(
        &mut document,
        &Registry::new(),
        &library(),
        &style(CitationStyle::Index),
    );
    assert!(!missing);
    assert_eq!(document.nodes, nodes);
}

#[test]
fn an_empty_placeholder_occurs_in_the_first_line() {
    let mut config = style(CitationStyle::Index);
    config.placeholder = String::new();
    let mut document = Document {
        nodes: vec![
            Node::Text(TextBlock { text: vec![] }),
            Node::Other,
            Node::Text(TextBlock { text: lines(&["first", "second"]) }),
        ],
    };
    let missing = insert_references(&mut document, &cite(&["Adams2010"]), &library(), &config);
    assert!(!missing);
    assert_eq!(
        document.nodes,
        vec![
            Node::Text(TextBlock { text: vec![] }),
            Node::Other,
            Node::Text(TextBlock {
                text: lines(&["[1] Adams A (2010): **Title of Adams2010**.", "second"]),
            }),
        ]
    );
}

#[test]
fn references_link_and_show_keys_as_configured() {
    let mut config = style(CitationStyle::Index);
    config.render_key = true;
    config.link_refs = true;
    assert_eq!(
        render_references(&cite(&["Adams2010"]), &library(), &config),
        lines(&[
            "<a name=\"cite-ref-Adams2010\" id=\"cite-ref-Adams2010\"></a>[1] [Adams2010] Adams A (2010): **Title of Adams2010**.",
        ])
    );
}
