use yarner_bib::paths::{link_of, relative_link};

#[test]
fn relative_link_between_sibling_directories() {
    assert_eq!(relative_link("refs/output.md", "docs/intro.md"), "../refs/output.md");
}

#[test]
fn relative_link_within_one_directory() {
    assert_eq!(relative_link("docs/refs.md", "docs/intro.md"), "refs.md");
    assert_eq!(relative_link("refs.md", "intro.md"), "refs.md");
}

#[test]
fn relative_link_from_a_deeper_directory() {
    assert_eq!(relative_link("refs.md", "a/b/intro.md"), "../../refs.md");
    assert_eq!(relative_link("a/refs.md", "a/b/intro.md"), "../refs.md");
    assert_eq!(relative_link("a/b/c/refs.md", "a/intro.md"), "b/c/refs.md");
}

#[test]
fn relative_link_without_a_path() {
    assert_eq!(relative_link("refs.md", ""), "invalid path");
    assert_eq!(relative_link("refs.md", "/"), "invalid path");
    assert_eq!(relative_link("refs/output.md", "/docs/intro.md"), "invalid path");
    assert_eq!(relative_link("refs.md", "../intro.md"), "invalid path");
}

#[test]
fn relative_link_to_an_absolute_path() {
    assert_eq!(relative_link("/refs/output.md", "docs/intro.md"), "/refs/output.md");
    assert_eq!(relative_link("/refs/output.md", "/docs/intro.md"), "../refs/output.md");
}

#[test]
fn links_use_forward_slashes() {
    assert_eq!(link_of(Some("..\\refs\\output.md".to_string())), "../refs/output.md");
    assert_eq!(link_of(Some("a/b\\c".to_string())), "a/b/c");
    assert_eq!(link_of(Some(String::new())), "");
    assert_eq!(link_of(None), "invalid path");
}
