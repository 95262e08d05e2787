//! Paths, and how they stand in a URL.

use std::path::{Path, PathBuf};
use vstd::prelude::*;

verus! {

/// `std::path::PathBuf`, which is handed through as it is.
#[verifier::external_type_specification]
#[verifier::external_body]
pub struct ExPathBuf(PathBuf);

/// `std::path::Path`, which is handed through as it is.
#[verifier::external_type_specification]
#[verifier::external_body]
pub struct ExPath(Path);

/// A path without its last component, as `std::path::Path::parent` gives it.
pub uninterp spec fn parent_of(path: PathBuf) -> Option<&'static Path>;

/// `std::path::Path::parent`: the path without its last component, or none where it ends in
/// a root or a prefix, or is empty. What a component is depends on the system that the path
/// is one of, and the contract leaves that to it.
#[verifier::external_body]
pub(crate) fn parent(path: &PathBuf) -> (dir: Option<&Path>)
    ensures
        dir == parent_of(*path),
{
    path.parent()
}

/// A path with another one behind it, as `std::path::PathBuf::push` makes it.
pub uninterp spec fn joined(path: PathBuf, more: Seq<char>) -> PathBuf;

/// `std::path::PathBuf::push` extends a path by another one, or puts that one in its place
/// where it is absolute. What makes a path absolute, and what separates its components,
/// depends on the system that the path is one of, and the contract leaves that to it.
#[verifier::external_body]
pub(crate) fn push_path(path: &mut PathBuf, more: &str)
    ensures
        *final(path) == joined(*old(path), more@),
{
    path.push(more)
}

/// The text of a path as it stands in a URL: where the separator is a backslash, a
/// slash in its place.
pub open spec fn url_of(path: Seq<char>, backslash_separates: bool) -> Seq<char> {
    if backslash_separates {
        path.map_values(
            |c: char|
                if c == '\\' {
                    '/'
                } else {
                    c
                },
        )
    } else {
        path
    }
}

/// The text of a path, as `std::path::Path::display` shows it.
pub uninterp spec fn displayed(path: &Path) -> Seq<char>;

/// `std::path::Path::display`, as a text. Where a path is not Unicode, what stands for the
/// rest of it is left to the system that the path is one of.
#[verifier::external_body]
fn display(path: &Path) -> (text: String)
    ensures
        text@ == displayed(path),
{
    path.display().to_string()
}

/// The text of a path as it stands in a URL. `backslash_separates` tells whether a
/// backslash separates the components of a path.
pub fn text_as_url(path: &str, backslash_separates: bool) -> (url: String)
    ensures
        url@ == url_of(path@, backslash_separates),
{
    let mut url = String::new();
    for c in it: path.chars()
        invariant
            it.seq() == path@,
            url@ == url_of(path@.take(it.index() as int), backslash_separates),
    {
        let ghost done = path@.take(it.index() as int);
        if backslash_separates && c == '\\' {
            url.push('/');
        } else {
            url.push(c);
        }
        assert(path@.take(it.index() as int + 1) =~= done.push(c));
        assert(url@ =~= url_of(done.push(c), backslash_separates));
    }
    assert(path@.take(path@.len() as int) =~= path@);
    url
}

/// A path as it stands in a URL. `backslash_separates` tells whether a backslash separates
/// the components of a path on this system.
pub fn path_as_url(path: &Path, backslash_separates: bool) -> (url: String)
    ensures
        url@ == url_of(displayed(path), backslash_separates),
{
    let text = display(path);
    text_as_url(text.as_str(), backslash_separates)
}

/// Where a backslash separates, a URL holds none, and a text without a backslash stays as
/// it is.
pub proof fn law_url_has_no_backslash(path: Seq<char>)
    ensures
        !url_of(path, true).contains('\\'),
        !path.contains('\\') ==> url_of(path, true) == path,
{
    if !path.contains('\\') {
        assert forall|i: int| 0 <= i < path.len() implies #[trigger] path[i] != '\\' by {
            assert(path.contains(path[i]));
        }
        assert(url_of(path, true) =~= path);
    }
}

/// A URL has as many characters as the path's text. Where a backslash separates, each
/// backslash became a slash; every other character is the same, and elsewhere all are.
pub proof fn law_url_characters(path: Seq<char>, backslash_separates: bool)
    ensures
        url_of(path, backslash_separates).len() == path.len(),
        forall|i: int|
            0 <= i < path.len() ==> #[trigger] url_of(path, backslash_separates)[i] == if path[i]
                == '\\' && backslash_separates {
                '/'
            } else {
                path[i]
            },
{
}

} // verus!
