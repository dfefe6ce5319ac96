//! The single checks on a filesystem entry: is it a bundle, is it hidden, is
//! it a symbolic link, is it on the ignore list.

use vstd::prelude::*;
use vstd::string::StrSliceExecFns;
use vstd::utf8::encode_utf8;
use crate::path::{extension, file_stem, path_extension, path_file_stem};
use crate::text::{str_eq, string_views};

verus! {

/// A filesystem entry as the checks see it: its path, and whether its own
/// metadata, not that of what it points to, says it is a symbolic link.
#[derive(Debug)]
pub struct Entry {
    pub path: String,
    pub symlink: bool,
}

impl Entry {
    pub fn new(path: &str, symlink: bool) -> (entry: Entry)
        ensures
            entry.path@ == path@,
            entry.symlink == symlink,
    {
        Entry { path: path.to_owned(), symlink }
    }
}

/// A check on an entry: does the entry meet this check's criterion?
pub trait Checker {
    /// The criterion.
    spec fn accepts(&self, entry: &Entry) -> bool;

    fn is_legit(&self, entry: &Entry) -> (r: bool)
        ensures
            r == self.accepts(entry),
    ;
}

/// Whether `ext` is one of the extensions that mark a bundle.
pub open spec fn is_bundle_extension(ext: Seq<char>) -> bool {
    ext == "app"@ || ext == "prefPane"@
}

/// Whether the path has an extension that marks a bundle.
pub open spec fn is_bundle_path(path: Seq<char>) -> bool {
    match path_extension(path) {
        Some(ext) => is_bundle_extension(ext),
        None => false,
    }
}

/// Whether `stem` begins with a dot.
pub open spec fn is_hidden_stem(stem: Seq<char>) -> bool {
    stem.len() > 0 && stem[0] == '.'
}

/// Whether the path is hidden: it is at most one byte long, or the stem of
/// its final component begins with a dot.
pub open spec fn is_hidden_path(path: Seq<char>) -> bool {
    encode_utf8(path).len() <= 1 || match path_file_stem(path) {
        Some(stem) => is_hidden_stem(stem),
        None => false,
    }
}

/// Checks whether an entry is a bundle, by the extension of its path.
#[derive(Debug)]
pub struct BundleChecker;

impl BundleChecker {
    pub fn new() -> BundleChecker {
        BundleChecker {  }
    }

    /// Whether `ext` is one of the extensions that mark a bundle.
    pub fn marks_bundle(ext: &str) -> (r: bool)
        ensures
            r == is_bundle_extension(ext@),
    {
        str_eq(ext, "app") || str_eq(ext, "prefPane")
    }
}

impl Checker for BundleChecker {
    open spec fn accepts(&self, entry: &Entry) -> bool {
        is_bundle_path(entry.path@)
    }

    fn is_legit(&self, entry: &Entry) -> (r: bool) {
        match extension(entry.path.as_str()) {
            Some(ext) => BundleChecker::marks_bundle(ext),
            None => false,
        }
    }
}

/// Checks whether an entry is hidden, by the dot at the start of its name.
#[derive(Debug)]
pub struct HiddenChecker;

impl HiddenChecker {
    /// Whether `stem` begins with a dot.
    pub fn starts_with_dot(stem: &str) -> (r: bool)
        ensures
            r == is_hidden_stem(stem@),
    {
        stem.unicode_len() > 0 && stem.get_char(0) == '.'
    }
}

impl Checker for HiddenChecker {
    open spec fn accepts(&self, entry: &Entry) -> bool {
        is_hidden_path(entry.path@)
    }

    fn is_legit(&self, entry: &Entry) -> (r: bool) {
        let path = entry.path.as_str();
        path.as_bytes().len() <= 1 || match file_stem(path) {
            Some(stem) => HiddenChecker::starts_with_dot(stem),
            None => false,
        }
    }
}

/// Checks whether an entry is a symbolic link.
#[derive(Debug)]
pub struct SymlinkChecker;

impl Checker for SymlinkChecker {
    open spec fn accepts(&self, entry: &Entry) -> bool {
        entry.symlink
    }

    fn is_legit(&self, entry: &Entry) -> (r: bool) {
        entry.symlink
    }
}

/// Checks whether the path of an entry is one of the paths to ignore. Only
/// the very same path counts, not a path beneath it.
#[derive(Debug)]
pub struct IgnoreChecker {
    paths: Vec<String>,
}

impl IgnoreChecker {
    pub fn new(paths: Vec<String>) -> (checker: IgnoreChecker)
        ensures
            checker.ignored() == string_views(paths@).to_set(),
    {
        IgnoreChecker { paths }
    }

    /// The paths that this check ignores.
    pub closed spec fn ignored(&self) -> Set<Seq<char>> {
        string_views(self.paths@).to_set()
    }

    /// Whether there is no path to ignore.
    pub fn is_empty(&self) -> (r: bool)
        ensures
            r == (self.ignored() == Set::<Seq<char>>::empty()),
    {
        proof {
            if self.paths@.len() == 0 {
                assert(self.ignored() =~= Set::<Seq<char>>::empty());
            } else {
                assert(string_views(self.paths@)[0] == self.paths@[0]@);
                assert(self.ignored().contains(self.paths@[0]@));
            }
        }
        self.paths.len() == 0
    }

    /// Whether `path` is one of the paths to ignore.
    pub fn contains(&self, path: &str) -> (r: bool)
        ensures
            r == self.ignored().contains(path@),
    {
        let mut i: usize = 0;
        while i < self.paths.len()
            invariant
                i <= self.paths@.len(),
                forall|j: int| 0 <= j < i ==> self.paths@[j]@ != path@,
            decreases self.paths@.len() - i,
        {
            if str_eq(self.paths[i].as_str(), path) {
                assert(string_views(self.paths@)[i as int] == path@);
                return true;
            }
            i += 1;
        }
        false
    }
}

impl Checker for IgnoreChecker {
    open spec fn accepts(&self, entry: &Entry) -> bool {
        self.ignored().contains(entry.path@)
    }

    fn is_legit(&self, entry: &Entry) -> (r: bool) {
        self.contains(entry.path.as_str())
    }
}

/// A check whose positive answer puts an entry out of the search.
#[derive(Debug)]
pub enum Terminal {
    Hidden(HiddenChecker),
    Symlink(SymlinkChecker),
    Ignore(IgnoreChecker),
}

impl Terminal {
    /// Whether this check puts `entry` out of the search.
    pub open spec fn stops(&self, entry: &Entry) -> bool {
        match self {
            Terminal::Hidden(checker) => checker.accepts(entry),
            Terminal::Symlink(checker) => checker.accepts(entry),
            Terminal::Ignore(checker) => checker.accepts(entry),
        }
    }

    pub fn is_legit(&self, entry: &Entry) -> (r: bool)
        ensures
            r == self.stops(entry),
    {
        match self {
            Terminal::Hidden(checker) => checker.is_legit(entry),
            Terminal::Symlink(checker) => checker.is_legit(entry),
            Terminal::Ignore(checker) => checker.is_legit(entry),
        }
    }
}

} // verus!
