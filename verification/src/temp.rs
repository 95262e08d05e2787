//! Temporary files and directories, and what they are called.

use crate::paths::{joined, push_path};
use std::path::PathBuf;
use uuid::Uuid;
use vstd::prelude::*;

verus! {

/// A digit or one of the letters `a` to `f`.
pub open spec fn hex_char(c: char) -> bool {
    '0' <= c <= '9' || 'a' <= c <= 'f'
}

/// A random UUID with hyphens, in lower case.
pub open spec fn hyphenated_v4(s: Seq<char>) -> bool {
    &&& s.len() == 36
    &&& s[8] == '-'
    &&& s[13] == '-'
    &&& s[18] == '-'
    &&& s[23] == '-'
    &&& forall|i: int|
        0 <= i < 36 && i != 8 && i != 13 && i != 18 && i != 23 ==> hex_char(#[trigger] s[i])
    &&& s[14] == '4'
    &&& s[19] == '8' || s[19] == '9' || s[19] == 'a' || s[19] == 'b'
}

/// `Uuid::new_v4`, formatted by `Uuid::as_hyphenated`: 32 hexadecimal digits in five
/// groups, of which two are fixed in part by the version and the variant. The others are
/// random, so no two calls are said to agree or to differ.
#[verifier::external_body]
fn random_uuid() -> (text: String)
    ensures
        hyphenated_v4(text@),
{
    Uuid::new_v4().as_hyphenated().to_string()
}

/// A new name for a temporary file or directory. It is one component of a path, and
/// neither absolute nor one of the special names.
pub fn temp_name() -> (name: String)
    ensures
        hyphenated_v4(name@),
        !name@.contains('/'),
        !name@.contains('\\'),
        !name@.contains(':'),
        !name@.contains('.'),
{
    let name = random_uuid();
    assert forall|i: int| 0 <= i < 36 implies hex_char(name@[i]) || #[trigger] name@[i] == '-' by {}
    name
}

/// Whether `path` is that of an entry of `dir` with a random name.
pub open spec fn temp_entry(dir: PathBuf, path: PathBuf) -> bool {
    exists|name: Seq<char>| #[trigger] hyphenated_v4(name) && path == joined(dir, name)
}

/// The path of the entry of `dir` with this name.
pub fn named_path(dir: PathBuf, name: &str) -> (path: PathBuf)
    ensures
        path == joined(dir, name@),
{
    let mut path = dir;
    push_path(&mut path, name);
    path
}

/// A new path for an entry of `dir`.
fn temp_path(dir: PathBuf) -> (path: PathBuf)
    ensures
        temp_entry(dir, path),
{
    let name = temp_name();
    named_path(dir, name.as_str())
}

/// A temporary directory.
#[derive(Debug)]
pub struct TempDir {
    path: PathBuf,
}

impl View for TempDir {
    type V = PathBuf;

    closed spec fn view(&self) -> PathBuf {
        self.path
    }
}

impl TempDir {
    /// A temporary directory that is to be made in `parent`.
    pub fn new_in(parent: PathBuf) -> (dir: TempDir)
        ensures
            temp_entry(parent, dir@),
    {
        TempDir { path: temp_path(parent) }
    }

    /// The path of the directory.
    pub fn path(&self) -> (path: &PathBuf)
        ensures
            *path == self@,
    {
        &self.path
    }
}

/// A temporary file.
#[derive(Debug)]
pub struct TempFile {
    path: PathBuf,
}

impl View for TempFile {
    type V = PathBuf;

    closed spec fn view(&self) -> PathBuf {
        self.path
    }
}

impl TempFile {
    /// A temporary file that is to be made in `parent`.
    pub fn new_in(parent: PathBuf) -> (file: TempFile)
        ensures
            temp_entry(parent, file@),
    {
        TempFile { path: temp_path(parent) }
    }

    /// The path of the file.
    pub fn path(&self) -> (path: &PathBuf)
        ensures
            *path == self@,
    {
        &self.path
    }
}

/// A temporary file or directory lies in the directory that it was to be made in, under a
/// name of 36 characters, each of which is a digit, a letter from `a` to `f` or a hyphen.
pub proof fn law_temp_entry(dir: PathBuf, path: PathBuf)
    requires
        temp_entry(dir, path),
    ensures
        exists|name: Seq<char>|
            {
                &&& path == #[trigger] joined(dir, name)
                &&& name.len() == 36
                &&& forall|i: int|
                    0 <= i < 36 ==> '0' <= #[trigger] name[i] <= '9' || 'a' <= name[i] <= 'f'
                        || name[i] == '-'
            },
{
    let name = choose|name: Seq<char>| #[trigger] hyphenated_v4(name) && path == joined(dir, name);
    assert forall|i: int| 0 <= i < 36 implies '0' <= #[trigger] name[i] <= '9' || 'a' <= name[i]
        <= 'f' || name[i] == '-' by {
        assert(hex_char(name[i]) || name[i] == '-');
    }
}

} // verus!
