//! The settings of a search: where to look, what to ignore, and which names
//! to show in place of raw identifiers.

use vstd::prelude::*;
use crate::names::NameOverrideTable;

verus! {

/// Whether `path` may start in the home directory: it is `~`, or begins with
/// `~/`, or with `~\\`, which stands for the home directory where the
/// backslash parts the components of a path.
pub open spec fn is_home_relative(path: Seq<char>) -> bool {
    path.len() > 0 && path[0] == '~' && (path.len() == 1 || path[1] == '/' || path[1] == '\\')
}

/// Whether `expanded` can be what `path` expands to. A path that may start
/// in the home directory keeps all that follows its tilde, behind whatever
/// stands for the home directory; where that is not known, or not meant, it
/// is the tilde itself. Any other path is left as it is.
pub open spec fn is_tilde_expansion(path: Seq<char>, expanded: Seq<char>) -> bool {
    if is_home_relative(path) {
        path.skip(1).is_suffix_of(expanded)
    } else {
        expanded == path
    }
}

/// Whether `expanded` holds an expansion of each path of `paths`, in order.
pub open spec fn are_tilde_expansions(paths: Seq<String>, expanded: Seq<String>) -> bool {
    &&& expanded.len() == paths.len()
    &&& forall|i: int|
        0 <= i < paths.len() ==> is_tilde_expansion(paths[i]@, #[trigger] expanded[i]@)
}

/// Calls `shellexpand::tilde`. Trusted: a leading `~` that stands alone or
/// before a separator is replaced by the home directory of the user, where
/// one is known, and nothing else is changed. What the home directory is
/// depends on the environment, so the contract says only what holds of
/// every outcome.
#[verifier::external_body]
fn tilde(path: &str) -> (expanded: String)
    ensures
        is_tilde_expansion(path@, expanded@),
{
    shellexpand::tilde(path).to_string()
}

/// `path` with a leading `~` replaced by the home directory of the user.
pub fn expand_tilde(path: &str) -> (expanded: String)
    ensures
        is_tilde_expansion(path@, expanded@),
{
    tilde(path)
}

/// The paths of `paths`, each expanded.
fn expand_all(paths: &Vec<String>) -> (expanded: Vec<String>)
    ensures
        are_tilde_expansions(paths@, expanded@),
{
    let mut expanded: Vec<String> = Vec::new();
    let mut i: usize = 0;
    while i < paths.len()
        invariant
            i <= paths@.len(),
            expanded@.len() == i,
            forall|j: int| 0 <= j < i ==> is_tilde_expansion(paths@[j]@, #[trigger] expanded@[j]@),
        decreases paths@.len() - i,
    {
        expanded.push(expand_tilde(paths[i].as_str()));
        i += 1;
    }
    expanded
}

/// The settings of a search.
pub struct Configs {
    paths: Vec<String>,
    cached_paths: Vec<String>,
    preferred_names: NameOverrideTable,
    ignored_paths: Vec<String>,
}

impl Configs {
    /// The roots that are walked anew for every query.
    pub closed spec fn paths(&self) -> Seq<String> {
        self.paths@
    }

    /// The roots whose results may be kept in the cache.
    pub closed spec fn cached_paths(&self) -> Seq<String> {
        self.cached_paths@
    }

    /// The paths that no walk enters or collects.
    pub closed spec fn ignored_paths(&self) -> Seq<String> {
        self.ignored_paths@
    }

    /// The names to show for preference panes.
    pub closed spec fn pref_names(&self) -> Map<Seq<char>, Seq<char>> {
        self.preferred_names@
    }

    /// Settings made of these parts. A leading `~` in a root or in an
    /// ignored path is expanded to the home directory. Settings that do not
    /// part the roots in two have no cached roots.
    pub fn from(
        paths: Vec<String>,
        cached_paths: Vec<String>,
        preferred_names: NameOverrideTable,
        ignored_paths: Vec<String>,
    ) -> (configs: Configs)
        ensures
            are_tilde_expansions(paths@, configs.paths()),
            are_tilde_expansions(cached_paths@, configs.cached_paths()),
            are_tilde_expansions(ignored_paths@, configs.ignored_paths()),
            configs.pref_names() == preferred_names@,
    {
        Configs {
            paths: expand_all(&paths),
            cached_paths: expand_all(&cached_paths),
            preferred_names,
            ignored_paths: expand_all(&ignored_paths),
        }
    }

    /// The paths to ignore.
    pub fn get_ignore_paths(&self) -> (paths: &Vec<String>)
        ensures
            paths@ == self.ignored_paths(),
    {
        &self.ignored_paths
    }

    /// The roots that are walked anew for every query.
    pub fn get_paths(&self) -> (paths: &Vec<String>)
        ensures
            paths@ == self.paths(),
    {
        &self.paths
    }

    /// The roots whose results may be kept in the cache.
    pub fn get_cached_paths(&self) -> (paths: &Vec<String>)
        ensures
            paths@ == self.cached_paths(),
    {
        &self.cached_paths
    }

    /// The names to show for preference panes.
    pub fn get_pref_names(&self) -> (names: &NameOverrideTable)
        ensures
            names@ == self.pref_names(),
    {
        &self.preferred_names
    }
}

} // verus!
