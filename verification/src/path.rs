//! Directories of tasks and logs, and how a root directory applies to them.

use crate::text::Text;
use vstd::prelude::*;

verus! {

/// A directory as it was configured, with what the platform says of its form.
#[derive(Debug)]
pub struct DirPath {
    /// The path.
    pub text: String,
    /// Whether the platform takes the path as absolute.
    pub absolute: bool,
}

/// The content of a [`DirPath`].
pub struct DirPathView {
    pub text: Text,
    pub absolute: bool,
}

impl View for DirPath {
    type V = DirPathView;

    open spec fn view(&self) -> DirPathView {
        DirPathView { text: self.text@, absolute: self.absolute }
    }
}

/// A directory with the root directory that applies to it, if any: where there is
/// a root, the directory meant is `path` joined to `root`.
#[derive(Debug)]
pub struct Location {
    pub root: Option<String>,
    pub path: String,
}

/// The content of a [`Location`].
pub struct LocationView {
    pub root: Option<Text>,
    pub path: Text,
}

impl View for Location {
    type V = LocationView;

    open spec fn view(&self) -> LocationView {
        LocationView { root: optional_text(self.root), path: self.path@ }
    }
}

/// The text of an optional string.
pub open spec fn optional_text(string: Option<String>) -> Option<Text> {
    match string {
        Some(s) => Some(s@),
        None => None,
    }
}

/// Where a configured directory lies: an absolute one stays as it is, a relative
/// one is taken from the root directory where one is set.
pub open spec fn resolved(path: DirPathView, root: Option<Text>) -> LocationView {
    LocationView {
        root: if path.absolute {
            None
        } else {
            root
        },
        path: path.text,
    }
}

/// Calls `std::path::Path::is_absolute`. Which texts are absolute paths differs
/// from platform to platform, so nothing is claimed of the result.
#[verifier::external_body]
fn is_absolute(text: &str) -> bool {
    std::path::Path::new(text).is_absolute()
}

impl DirPath {
    /// Takes a path as the platform reads it: whether it is absolute is the platform's
    /// answer.
    pub fn new(text: &str) -> (r: DirPath)
        ensures
            r@.text == text@,
    {
        DirPath { text: text.to_owned(), absolute: is_absolute(text) }
    }

    /// Decides where the directory lies, given the root directory.
    pub fn resolve(&self, root: &Option<String>) -> (r: Location)
        ensures
            r@ == resolved(self@, optional_text(*root)),
            r.path@ == self.text@,
            self.absolute ==> r.root is None,
            !self.absolute ==> match *root {
                Some(root) => r.root is Some && r.root->0@ == root@,
                None => r.root is None,
            },
    {
        let root = if self.absolute {
            None
        } else {
            match root {
                Some(root) => Some(root.clone()),
                None => None,
            }
        };
        Location { root, path: self.text.clone() }
    }
}

impl Location {
    /// Copies the location.
    pub fn copy(&self) -> (r: Location)
        ensures
            r@ == self@,
    {
        let root = match &self.root {
            Some(root) => Some(root.clone()),
            None => None,
        };
        Location { root, path: self.path.clone() }
    }
}

} // verus!
