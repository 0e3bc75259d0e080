//! Places in the file system.
//!
//! The crate never touches the file system and does not join paths, since that
//! differs between platforms. It names a place by a directory and, where it
//! matters, the name of an entry in that directory.

use std::path::PathBuf;
use vstd::prelude::*;

verus! {

/// A file system path of the standard library, carried through as it is.
#[verifier::external_type_specification]
#[verifier::external_body]
pub struct ExPathBuf(std::path::PathBuf);

/// A place in the file system.
#[derive(Debug)]
pub enum Location<'a> {
    /// The given path.
    At(&'a PathBuf),
    /// The entry of that name in the given directory.
    Under(&'a PathBuf, String),
}

impl<'a> Location<'a> {
    /// Whether this is the path `path` itself.
    pub open spec fn is_at(self, path: PathBuf) -> bool {
        self matches Location::At(p) && *p == path
    }

    /// Whether this is the entry `name` of the directory `dir`.
    pub open spec fn is_under(self, dir: PathBuf, name: Seq<char>) -> bool {
        self matches Location::Under(d, n) && *d == dir && n@ == name
    }

    /// Name of the entry, where there is one.
    pub fn entry_name(&self) -> (name: Option<&str>)
        ensures
            match *self {
                Location::At(_) => name is None,
                Location::Under(_, n) => name matches Some(s) && s@ == n@,
            },
    {
        match self {
            Location::At(_) => None,
            Location::Under(_, n) => Some(n.as_str()),
        }
    }
}

/// A place is either a path itself or an entry of a directory, and it says which
/// path, or which directory and name.
pub proof fn lemma_a_place_is_one_place(
    path: PathBuf,
    dir: PathBuf,
    entry: String,
    other: PathBuf,
    name: Seq<char>,
)
    ensures
        Location::At(&path).is_at(other) <==> path == other,
        Location::Under(&dir, entry).is_under(other, name) <==> dir == other && entry@ == name,
        !Location::At(&path).is_under(other, name),
        !Location::Under(&dir, entry).is_at(other),
{
}

} // verus!
