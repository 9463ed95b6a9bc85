//! Relative links between documents.
//!
//! Paths are handled as text. What a path's parent is and how one path is
//! reached from another is computed by `std::path` and by `pathdiff`, under
//! the path syntax of the platform that the library is built for; this
//! module gives those two results a name and proves what is made of them.

use crate::text::chars_of;
use std::path::Path;
use vstd::prelude::*;
use vstd::string::*;

verus! {

/// The parent of a path as `std::path::Path::parent` gives it: the path
/// without its last component, and nothing for a path that ends in a root
/// or is empty.
pub uninterp spec fn parent_path(path: Seq<char>) -> Option<Seq<char>>;

/// The relative path that leads from the directory `base` to `path`, as
/// `pathdiff::diff_paths` constructs it, and nothing where it constructs
/// none.
pub uninterp spec fn path_difference(path: Seq<char>, base: Seq<char>) -> Option<Seq<char>>;

/// Calls `std::path::Path::parent`. The result is a function of the path's
/// text alone; it is handed back as text.
#[verifier::external_body]
fn path_parent(path: &str) -> (parent: Option<String>)
    ensures
        parent.deep_view() == parent_path(path@),
{
    Path::new(path).parent().and_then(|p| p.to_str()).map(|s| s.to_owned())
}

/// Calls `pathdiff::diff_paths`, which compares the components of the two
/// paths and touches no file. The result is a function of the two texts
/// alone; it is handed back as text.
#[verifier::external_body]
fn path_diff(path: &str, base: &str) -> (difference: Option<String>)
    ensures
        difference.deep_view() == path_difference(path@, base@),
{
    pathdiff::diff_paths(path, base).and_then(|p| p.to_str().map(|s| s.to_owned()))
}

/// A character of a link: a slash in place of a backslash.
pub open spec fn link_char(c: char) -> char {
    if c == '\\' {
        '/'
    } else {
        c
    }
}

/// The relative path from the directory of the file `from` to `target`.
pub open spec fn relative_path(target: Seq<char>, from: Seq<char>) -> Option<Seq<char>> {
    match parent_path(from) {
        Some(directory) => path_difference(target, directory),
        None => None,
    }
}

/// The link that stands for a relative path: the path with slashes for
/// backslashes, or the words `invalid path` where there is no path.
pub open spec fn link_text(path: Option<Seq<char>>) -> Seq<char> {
    match path {
        Some(p) => p.map_values(|c: char| link_char(c)),
        None => "invalid path"@,
    }
}

/// The link that stands for a relative path.
pub fn link_of(path: Option<String>) -> (link: String)
    ensures
        link@ == link_text(path.deep_view()),
{
    match path {
        Some(p) => {
            let chars = chars_of(p.as_str());
            let mut link = String::new();
            let mut i: usize = 0;
            while i < chars.len()
                invariant
                    i <= chars.len(),
                    chars@ == p@,
                    link@ == chars@.take(i as int).map_values(|c: char| link_char(c)),
                decreases chars.len() - i,
            {
                let c = chars[i];
                if c == '\\' {
                    link.push('/');
                } else {
                    link.push(c);
                }
                assert(link@ =~= chars@.take(i + 1).map_values(|c: char| link_char(c)));
                i += 1;
            }
            assert(chars@.take(chars.len() as int) =~= chars@);
            link
        },
        None => "invalid path".to_owned(),
    }
}

/// The link from the file `root` to the file `abs_link`: the relative path
/// from the directory of `root`, with forward slashes. Where `root` has no
/// directory or no relative path can be constructed, the link reads
/// `invalid path`.
pub fn relative_link(abs_link: &str, root: &str) -> (link: String)
    ensures
        link@ == link_text(relative_path(abs_link@, root@)),
{
    match path_parent(root) {
        Some(directory) => link_of(path_diff(abs_link, directory.as_str())),
        None => link_of(None),
    }
}

/// The prefix of the links from the document at `path` to the references
/// in `refs_file`: none for the file of the references itself.
pub open spec fn link_prefix_of(path: Seq<char>, refs_file: Seq<char>) -> Option<Seq<char>> {
    if path == refs_file {
        None
    } else {
        Some(link_text(relative_path(refs_file, path)))
    }
}

} // verus!
