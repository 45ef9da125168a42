//! The dependencies that a requirements file lists, one specifier to a line.

use vstd::prelude::*;
use crate::manifest::{dependency_names, lemma_specifier_names_empty, names_of, specifier_names};
use crate::names::NameSet;
use crate::order::texts;

verus! {

/// The names that a requirements file asks for; `None` if there is no such
/// file.
pub open spec fn required_names(lines: Option<Vec<String>>) -> Option<Set<Seq<char>>> {
    match lines {
        Some(lines) => Some(specifier_names(texts(lines@))),
        None => None,
    }
}

/// A file that is there and lists nothing asks for the empty set, which is
/// not `None`.
pub proof fn lemma_empty_file_is_not_absent(lines: Vec<String>)
    requires
        lines@.len() == 0,
    ensures
        required_names(Some(lines)) == Some(Set::<Seq<char>>::empty()),
        required_names(None) is None,
{
    lemma_specifier_names_empty();
    assert(texts(lines@) =~= Seq::empty());
}

/// Reads the lines of a requirements file, given as `Some` of its lines, or
/// as `None` where the file is not there.
///
/// Each line is taken as a dependency specifier. Lines without a name (blank
/// ones, comments, options) are dropped. A file that was there gives a set,
/// if an empty one; a missing file gives `None`.
pub fn parse_requirements_txt(lines: Option<Vec<String>>) -> (names: Option<NameSet>)
    ensures
        names_of(names) == required_names(lines),
        names is Some <==> lines is Some,
{
    match lines {
        Some(lines) => Some(dependency_names(lines)),
        None => None,
    }
}

} // verus!
