use yarner_bib::config::{CitationStyle, Config};
use yarner_bib::document::{Document, Node, TextBlock};
use yarner_bib::entry::{Bibliography, Date, Entry, EntryType, Person};
use yarner_bib::registry::Registry;
use yarner_bib::render::{
    render_citations, render_citations_all, render_citations_document, render_citations_in_order,
    sort_documents,
};
use yarner_bib::scan::{find_marker, render_citations_line};

fn author(name: &str, given_name: &str) -> Person {
    Person {
        name: name.to_string(),
        given_name: given_name.to_string(),
        prefix: String::new(),
        suffix: String::new(),
    }
}

fn book(key: &str, authors: Vec<Person>, year: i32, title: &str) -> Entry {
    let mut entry = Entry::new(key.to_string(), EntryType::Book);
    entry.authors = Some(authors);
    entry.title = Some(title.to_string());
    entry.date = Some(Date::Exact(year));
    entry
}

fn test_bib() -> Bibliography {
    let mut klabnik = book(
        "Klabnik2018",
        vec![author("Klabnik", "Steve"), author("Nichols", "Carol")],
        2018,
        "The Rust Programming Language",
    );
    klabnik.publisher = Some(vec!["No Starch Press".to_string()]);
    Bibliography::new(vec![klabnik])
}

fn two_keys() -> Bibliography {
    Bibliography::new(vec![
        book("A", vec![author("Adams", "Ann")], 2010, "First"),
        book("B", vec![author("Brown", "Bob")], 2020, "Second"),
    ])
}

fn settings(style: CitationStyle, link_refs: bool) -> Config {
    Config {
        bib_file: String::new(),
        citation_style: style,
        refs_file: None,
        placeholder: "[[_REFS_]]".to_string(),
        render_key: true,
        link_refs,
    }
}

fn text_node(lines: &[&str]) -> Node {
    Node::Text(TextBlock { text: lines.iter().map(|l| l.to_string()).collect() })
}

#[test]
fn render_citations_block() {
    let bib = test_bib();
    let mut citations = Registry::new();

    let mut block = TextBlock {
        text: vec!["A test citation: @Klabnik2018.".to_string()],
    };

    yarner_bib::render::render_citations_block(
        &mut block,
        &bib,
        &settings(CitationStyle::AuthorYear, true),
        None,
        &mut citations,
    );

    assert_eq!(citations.len(), 1);
    assert_eq!(
        &block.text[0],
        "A test citation: [Klabnik & Nichols 2018](#cite-ref-Klabnik2018)."
    )
}

#[test]
fn render_citations_block_no_author() {
    let bib = test_bib();
    let mut citations = Registry::new();

    let mut block = TextBlock {
        text: vec!["A test citation: -@Klabnik2018.".to_string()],
    };

    yarner_bib::render::render_citations_block(
        &mut block,
        &bib,
        &settings(CitationStyle::AuthorYear, true),
        None,
        &mut citations,
    );

    assert_eq!(citations.len(), 1);
    assert_eq!(
        &block.text[0],
        "A test citation: [2018](#cite-ref-Klabnik2018)."
    )
}

#[test]
fn both_markers_of_a_line_are_replaced() {
    let bib = two_keys();
    let mut citations = Registry::new();
    let (line, missing) = render_citations_line(
        "See @A and -@B for details",
        &bib,
        &settings(CitationStyle::AuthorYear, true),
        None,
        &mut citations,
    );
    assert_eq!(
        line,
        "See [Adams 2010](#cite-ref-A) and [2020](#cite-ref-B) for details"
    );
    assert!(!line.contains('@'));
    assert!(missing.is_empty());
    assert_eq!(citations.snapshot(), vec![("A".to_string(), 0), ("B".to_string(), 1)]);
}

#[test]
fn an_unknown_key_is_left_unchanged_and_reported() {
    let bib = two_keys();
    let mut citations = Registry::new();
    let (line, missing) = render_citations_line(
        "See @Missing, -@Gone and @A.",
        &bib,
        &settings(CitationStyle::Index, false),
        None,
        &mut citations,
    );
    assert_eq!(line, "See @Missing, -@Gone and 1.");
    assert_eq!(missing, vec!["@Missing".to_string(), "-@Gone".to_string()]);
    assert_eq!(citations.len(), 1);
    assert_eq!(citations.get("Missing"), None);

    let mut citations = Registry::new();
    let given = "Only @Missing here; nothing else (see -@AlsoMissing).";
    let (line, missing) = render_citations_line(
        given,
        &bib,
        &settings(CitationStyle::AuthorYear, true),
        None,
        &mut citations,
    );
    assert_eq!(line.as_bytes(), given.as_bytes());
    assert_eq!(missing, vec!["@Missing".to_string(), "-@AlsoMissing".to_string()]);
    assert!(citations.is_empty());
}

#[test]
fn index_style_numbers_by_appearance() {
    let bib = two_keys();
    let mut citations = Registry::new();
    let mut block = TextBlock {
        text: vec!["First @B then @A.".to_string(), "Again @A and @B.".to_string()],
    };
    let missing = yarner_bib::render::render_citations_block(
        &mut block,
        &bib,
        &settings(CitationStyle::Index, false),
        None,
        &mut citations,
    );
    assert!(missing.is_empty());
    assert_eq!(block.text, vec!["First 1 then 2.".to_string(), "Again 2 and 1.".to_string()]);
    assert_eq!(citations.snapshot(), vec![("B".to_string(), 0), ("A".to_string(), 1)]);

    let mut citations = Registry::new();
    let (line, _) = render_citations_line(
        "@B @A",
        &bib,
        &settings(CitationStyle::Index, true),
        None,
        &mut citations,
    );
    assert_eq!(line, "[1](#cite-ref-B) [2](#cite-ref-A)");
}

#[test]
fn markers_end_at_punctuation_and_space() {
    let bib = two_keys();
    let plain = settings(CitationStyle::Index, false);
    for (line, expected) in [
        ("@A", "1"),
        ("@A.", "1."),
        ("(@A)", "(1)"),
        ("[@A]", "[1]"),
        ("@A,@B;", "1,2;"),
        ("@A\t@B", "1\t2"),
        ("\"@A\"", "\"1\""),
        ("'@A'", "'1'"),
        ("{@A}", "{1}"),
        ("@A=@B", "1=2"),
        ("@A%", "1%"),
        ("@A#x", "1#x"),
        ("--@A", "-1"),
        ("x-@A", "x1"),
        ("@", "@"),
        ("-@", "-@"),
        ("@ A", "@ A"),
        ("-@.A", "-@.A"),
        ("@@A", "@@A"),
        ("@A@B", "@A@B"),
        ("@A-", "@A-"),
        ("e@A", "e1"),
        ("", ""),
        ("no markers", "no markers"),
        ("@A\u{a0}@B", "1\u{a0}2"),
        ("@A\u{3000}x", "1\u{3000}x"),
        ("@Aé", "@Aé"),
    ] {
        let mut citations = Registry::new();
        let (rewritten, _) = render_citations_line(line, &bib, &plain, None, &mut citations);
        assert_eq!(rewritten, expected, "line {:?}", line);
    }
}

#[test]
fn markers_are_found_at_their_position() {
    let line: Vec<char> = "a -@Key1. @k".chars().collect();
    assert_eq!(find_marker(&line, 0), None);
    assert_eq!(find_marker(&line, 1), None);
    assert_eq!(find_marker(&line, 2), Some((true, 4, 8)));
    assert_eq!(find_marker(&line, 3), Some((false, 4, 8)));
    assert_eq!(find_marker(&line, 4), None);
    assert_eq!(find_marker(&line, 10), Some((false, 11, 12)));
    assert_eq!(find_marker(&line, 11), None);
    let bare: Vec<char> = "-@".chars().collect();
    assert_eq!(find_marker(&bare, 0), None);
    assert_eq!(find_marker(&bare, 1), None);
}

#[test]
fn a_link_prefix_leads_to_the_references() {
    let bib = two_keys();
    let mut citations = Registry::new();
    let prefix = "../refs/output.md".to_string();
    let (line, _) = render_citations_line(
        "@A",
        &bib,
        &settings(CitationStyle::AuthorYear, true),
        Some(&prefix),
        &mut citations,
    );
    assert_eq!(line, "[Adams 2010](../refs/output.md#cite-ref-A)");
}

#[test]
fn a_document_is_scanned_block_by_block() {
    let bib = two_keys();
    let mut document = Document {
        nodes: vec![
            text_node(&["Intro @B.", "More @Missing."]),
            Node::Other,
            text_node(&[]),
            text_node(&["Then @A and @B."]),
        ],
    };
    let (citations, missing) =
        render_citations(&mut document, &bib, &settings(CitationStyle::Index, false));
    assert_eq!(
        document,
        Document {
            nodes: vec![
                text_node(&["Intro 1.", "More @Missing."]),
                Node::Other,
                text_node(&[]),
                text_node(&["Then 2 and 1."]),
            ],
        }
    );
    assert_eq!(missing, vec!["@Missing".to_string()]);
    assert_eq!(citations.snapshot(), vec![("B".to_string(), 0), ("A".to_string(), 1)]);
}

#[test]
fn a_document_continues_a_registry() {
    let bib = two_keys();
    let mut citations = Registry::new();
    citations.register("A");
    let mut document = Document { nodes: vec![text_node(&["@B @A"])] };
    let missing = render_citations_document(
        &mut document,
        &bib,
        &settings(CitationStyle::Index, false),
        None,
        &mut citations,
    );
    assert!(missing.is_empty());
    assert_eq!(document, Document { nodes: vec![text_node(&["2 1"])] });
}

fn three_documents() -> Vec<(String, Document)> {
    vec![
        ("docs/intro.md".to_string(), Document { nodes: vec![text_node(&["Cite @B."])] }),
        ("refs/output.md".to_string(), Document { nodes: vec![text_node(&["Cite @A, @B."])] }),
        ("docs/deep/more.md".to_string(), Document { nodes: vec![text_node(&["Cite @A, @X."])] }),
    ]
}

#[test]
fn all_documents_share_one_registry() {
    let bib = two_keys();
    let mut documents = three_documents();
    let (citations, missing) = render_citations_in_order(
        &mut documents,
        &bib,
        &settings(CitationStyle::Index, true),
        "refs/output.md",
    );
    assert_eq!(
        documents[0].1,
        Document { nodes: vec![text_node(&["Cite [1](../refs/output.md#cite-ref-B)."])] }
    );
    assert_eq!(
        documents[1].1,
        Document { nodes: vec![text_node(&["Cite [2](#cite-ref-A), [1](#cite-ref-B)."])] }
    );
    assert_eq!(
        documents[2].1,
        Document {
            nodes: vec![text_node(&["Cite [2](../../refs/output.md#cite-ref-A), @X."])],
        }
    );
    assert_eq!(documents[0].0, "docs/intro.md");
    assert_eq!(missing, vec!["@X".to_string()]);
    assert_eq!(citations.snapshot(), vec![("B".to_string(), 0), ("A".to_string(), 1)]);
}

#[test]
fn all_documents_are_scanned_in_the_order_of_their_paths() {
    let bib = two_keys();
    let expected = vec![
        (
            "docs/deep/more.md".to_string(),
            Document {
                nodes: vec![text_node(&["Cite [1](../../refs/output.md#cite-ref-A), @X."])],
            },
        ),
        (
            "docs/intro.md".to_string(),
            Document { nodes: vec![text_node(&["Cite [2](../refs/output.md#cite-ref-B)."])] },
        ),
        (
            "refs/output.md".to_string(),
            Document { nodes: vec![text_node(&["Cite [1](#cite-ref-A), [2](#cite-ref-B)."])] },
        ),
    ];
    let mut documents = three_documents();
    let (citations, missing) = render_citations_all(
        &mut documents,
        &bib,
        &settings(CitationStyle::Index, true),
        "refs/output.md",
    );
    assert_eq!(documents, expected);
    assert_eq!(missing, vec!["@X".to_string()]);
    assert_eq!(citations.snapshot(), vec![("A".to_string(), 0), ("B".to_string(), 1)]);

    let mut reversed = three_documents();
    reversed.reverse();
    let (citations, _) = render_citations_all(
        &mut reversed,
        &bib,
        &settings(CitationStyle::Index, true),
        "refs/output.md",
    );
    assert_eq!(reversed, expected);
    assert_eq!(citations.snapshot(), vec![("A".to_string(), 0), ("B".to_string(), 1)]);
}

#[test]
fn documents_are_sorted_by_path() {
    let named = |path: &str, line: &str| (path.to_string(), Document { nodes: vec![text_node(&[line])] });
    let mut documents = vec![
        named("b.md", "1"),
        named("a/z.md", "2"),
        named("b.md", "3"),
        named("a.md", "4"),
        named("", "5"),
        named("B.md", "6"),
        named("a", "7"),
    ];
    sort_documents(&mut documents);
    assert_eq!(
        documents,
        vec![
            named("", "5"),
            named("B.md", "6"),
            named("a", "7"),
            named("a.md", "4"),
            named("a/z.md", "2"),
            named("b.md", "1"),
            named("b.md", "3"),
        ]
    );
    let mut none: Vec<(String, Document)> = vec![];
    sort_documents(&mut none);
    assert!(none.is_empty());
}

#[test]
fn no_documents_give_an_empty_registry() {
    let mut documents: Vec<(String, Document)> = vec![];
    let (citations, missing) = render_citations_all(
        &mut documents,
        &two_keys(),
        &settings(CitationStyle::Index, true),
        "refs.md",
    );
    assert!(citations.is_empty());
    assert!(missing.is_empty());
}
