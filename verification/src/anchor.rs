//! Choosing the anchor directory of an autocompletion query.
//!
//! The anchor directory is the directory whose children are enumerated
//! to produce candidates.  It is derived from the typed input alone:
//! an input that names an existing directory and ends in a separator is
//! its own anchor; otherwise the anchor is the input's parent, falling
//! back to the filesystem root when no parent exists.

use vstd::prelude::*;

verus! {

/// The path separator, as a single encoded byte.
pub const SEPARATOR: u8 = 47;

/// Whether the typed input's literal text ends in a path separator.
pub open spec fn ends_with_separator(s: Seq<u8>) -> bool {
    s.len() > 0 && s[s.len() - 1] == SEPARATOR
}

/// The root path, a single separator byte.
pub open spec fn root_path() -> Seq<u8> {
    seq![SEPARATOR]
}

/// The anchor directory of an input: the input itself when it names an
/// existing directory and its text ends in a separator, otherwise its
/// parent, otherwise the root.
pub open spec fn anchor_of(input: Seq<u8>, input_is_dir: bool, parent: Option<Seq<u8>>) -> Seq<u8> {
    if input_is_dir && ends_with_separator(input) {
        input
    } else {
        match parent {
            Some(p) => p,
            None => root_path(),
        }
    }
}

/// Picks the directory to enumerate for the given input.
///
/// `input_is_dir` reports whether the input names an existing
/// directory, and `parent` holds the bytes of the input's parent
/// component, if the input has one; both are facts about the live
/// filesystem and the platform's path syntax that the caller supplies.
pub fn anchor_directory(input: Vec<u8>, input_is_dir: bool, parent: Option<Vec<u8>>) -> (r: Vec<u8>)
    ensures
        r@ == anchor_of(input@, input_is_dir, parent.deep_view()),
{
    if input_is_dir && input.len() > 0 && input[input.len() - 1] == SEPARATOR {
        input
    } else {
        match parent {
            Some(p) => p,
            None => {
                let mut root: Vec<u8> = Vec::new();
                root.push(SEPARATOR);
                proof {
                    assert(root@ =~= root_path());
                }
                root
            },
        }
    }
}

/// An empty input never errors: whatever the filesystem says of it, its
/// anchor degrades to the root directory.
pub proof fn lemma_empty_input_falls_back_to_root(input_is_dir: bool)
    ensures
        anchor_of(Seq::empty(), input_is_dir, None) == root_path(),
{
}

} // verus!
