//! The chain of checks that decides what the search does with an entry.

use vstd::prelude::*;
use crate::checkers::{
    is_bundle_path, is_hidden_path, BundleChecker, Entry, HiddenChecker, IgnoreChecker,
    SymlinkChecker, Terminal,
};
use crate::path::{lemma_stem_keeps_first, path_file_name};
use crate::text::string_views;

verus! {

/// What the search does with an entry.
#[derive(Clone, Copy, Debug, PartialEq, Eq, Structural)]
pub enum Outcome {
    /// Hidden, a symbolic link, or ignored: neither collected nor entered.
    UnwantedPath,
    /// A bundle: collected, and never entered.
    BundlePath,
    /// Anything else: entered, if it is a directory.
    NormalPath,
}

/// The outcome for the entry at `path` when the paths in `ignored` are to be
/// ignored.
///
/// The terminal checks come first: a hidden entry, a symbolic link and an
/// ignored path are unwanted even where the path names a bundle.
pub open spec fn classify(path: Seq<char>, symlink: bool, ignored: Set<Seq<char>>) -> Outcome {
    if is_hidden_path(path) || symlink || ignored.contains(path) {
        Outcome::UnwantedPath
    } else if is_bundle_path(path) {
        Outcome::BundlePath
    } else {
        Outcome::NormalPath
    }
}

/// The chain: the terminal checks in the order in which they are consulted,
/// then the bundle check. The ignore check is in the chain only where there
/// is a path to ignore.
pub struct Checker {
    terminals: Vec<Terminal>,
    bundle: BundleChecker,
}

impl Checker {
    #[verifier::type_invariant]
    spec fn well_formed(&self) -> bool {
        &&& 2 <= self.terminals@.len() <= 3
        &&& self.terminals@[0] is Hidden
        &&& self.terminals@[1] is Symlink
        &&& self.terminals@.len() == 3 ==> self.terminals@[2] is Ignore
    }

    /// The paths that this chain ignores.
    pub closed spec fn ignored(&self) -> Set<Seq<char>> {
        if self.terminals@.len() == 3 {
            match self.terminals@[2] {
                Terminal::Ignore(checker) => checker.ignored(),
                _ => Set::empty(),
            }
        } else {
            Set::empty()
        }
    }

    /// A chain that ignores exactly `ignored_paths`.
    pub fn new(ignored_paths: Vec<String>) -> (checker: Checker)
        ensures
            checker.ignored() == string_views(ignored_paths@).to_set(),
    {
        let ignore = IgnoreChecker::new(ignored_paths);
        let mut terminals: Vec<Terminal> = Vec::new();
        terminals.push(Terminal::Hidden(HiddenChecker {  }));
        terminals.push(Terminal::Symlink(SymlinkChecker {  }));
        if !ignore.is_empty() {
            terminals.push(Terminal::Ignore(ignore));
        }
        Checker { terminals, bundle: BundleChecker::new() }
    }

    /// Classifies `entry`: the terminal checks are consulted in order, and
    /// the first that answers yes makes the entry unwanted.
    pub fn check(&self, entry: &Entry) -> (outcome: Outcome)
        ensures
            outcome == classify(entry.path@, entry.symlink, self.ignored()),
    {
        proof {
            use_type_invariant(self);
        }
        let mut i: usize = 0;
        while i < self.terminals.len()
            invariant
                self.well_formed(),
                i <= self.terminals@.len(),
                forall|j: int| 0 <= j < i ==> !(#[trigger] self.terminals@[j]).stops(entry),
            decreases self.terminals@.len() - i,
        {
            if self.terminals[i].is_legit(entry) {
                return Outcome::UnwantedPath;
            }
            i += 1;
        }
        proof {
            assert(!self.terminals@[0].stops(entry));
            assert(!self.terminals@[1].stops(entry));
            if self.terminals@.len() == 3 {
                assert(!self.terminals@[2].stops(entry));
            }
        }
        if self.is_bundle(entry.path.as_str()) {
            Outcome::BundlePath
        } else {
            Outcome::NormalPath
        }
    }

    /// Whether `path` has an extension that marks a bundle.
    pub fn is_bundle(&self, path: &str) -> (r: bool)
        ensures
            r == is_bundle_path(path@),
    {
        crate::checkers::Checker::is_legit(&self.bundle, &Entry::new(path, false))
    }

    /// Whether `path` is hidden.
    pub fn is_hidden(&self, path: &str) -> (r: bool)
        ensures
            r == is_hidden_path(path@),
    {
        proof {
            use_type_invariant(self);
        }
        self.terminals[0].is_legit(&Entry::new(path, false))
    }

    /// Whether `entry` is a symbolic link.
    pub fn is_symlink(&self, entry: &Entry) -> (r: bool)
        ensures
            r == entry.symlink,
    {
        proof {
            use_type_invariant(self);
        }
        self.terminals[1].is_legit(entry)
    }

    /// Whether `path` is one of the ignored paths.
    pub fn is_ignored_path(&self, path: &str) -> (r: bool)
        ensures
            r == self.ignored().contains(path@),
    {
        proof {
            use_type_invariant(self);
        }
        if self.terminals.len() == 3 {
            self.terminals[2].is_legit(&Entry::new(path, false))
        } else {
            false
        }
    }
}

/// An entry whose name begins with a dot is unwanted, whether or not its
/// path names a bundle, and whatever is ignored.
pub proof fn lemma_dot_name_is_unwanted(path: Seq<char>, symlink: bool, ignored: Set<Seq<char>>)
    requires
        path_file_name(path) matches Some(name) && name.len() > 0 && name[0] == '.',
    ensures
        classify(path, symlink, ignored) == Outcome::UnwantedPath,
{
    lemma_stem_keeps_first(path_file_name(path)->0);
}

/// An entry with a bundle extension that is not hidden, not a symbolic link
/// and not ignored is a bundle.
pub proof fn lemma_plain_bundle_is_bundle(path: Seq<char>, symlink: bool, ignored: Set<Seq<char>>)
    requires
        is_bundle_path(path),
        !is_hidden_path(path),
        !symlink,
        !ignored.contains(path),
    ensures
        classify(path, symlink, ignored) == Outcome::BundlePath,
{
}

/// Ignoring is by the exact path: to ignore another path as well does not
/// change the outcome for this one.
pub proof fn lemma_ignore_is_exact(
    path: Seq<char>,
    symlink: bool,
    ignored: Set<Seq<char>>,
    other: Seq<char>,
)
    requires
        other != path,
    ensures
        classify(path, symlink, ignored.insert(other)) == classify(path, symlink, ignored),
{
}

} // verus!
