//! The parts of a path. Paths are held as text; taking one apart into its
//! components is left to the path types of `std` and `async_std`, which go
//! by the rules of the platform that the library is built for.

use vstd::prelude::*;

verus! {

/// The final component of a path, if it has one: the name of the file or
/// directory that the path leads to. The root, the empty path and a path
/// that ends in `..` have none. Where `/` parts the components, a slash at
/// the end of a path does not count, nor does a component that is a single
/// dot.
pub uninterp spec fn path_file_name(path: Seq<char>) -> Option<Seq<char>>;

/// The position of the last dot in `name`, or -1 if it has none.
pub open spec fn final_dot(name: Seq<char>) -> int
    decreases name.len(),
{
    if name.len() == 0 {
        -1
    } else if name.last() == '.' {
        name.len() - 1
    } else {
        final_dot(name.drop_last())
    }
}

/// The extension of a file name: what follows its last dot. A name without
/// a dot has none, and neither has a name whose only dot is its first
/// character.
pub open spec fn extension_of(name: Seq<char>) -> Option<Seq<char>> {
    if final_dot(name) <= 0 {
        None
    } else {
        Some(name.skip(final_dot(name) + 1))
    }
}

/// The stem of a file name: what stands before its last dot, or the whole
/// name where it has no extension.
pub open spec fn stem_of(name: Seq<char>) -> Seq<char> {
    if final_dot(name) <= 0 {
        name
    } else {
        name.take(final_dot(name))
    }
}

/// The extension of the final component of a path.
pub open spec fn path_extension(path: Seq<char>) -> Option<Seq<char>> {
    match path_file_name(path) {
        Some(name) => extension_of(name),
        None => None,
    }
}

/// The stem of the final component of a path.
pub open spec fn path_file_stem(path: Seq<char>) -> Option<Seq<char>> {
    match path_file_name(path) {
        Some(name) => Some(stem_of(name)),
        None => None,
    }
}

/// What an optional string slice holds.
pub open spec fn option_view(text: Option<&str>) -> Option<Seq<char>> {
    match text {
        Some(s) => Some(s@),
        None => None,
    }
}

/// Calls `std::path::Path::extension`. Trusted, as documented there: a path
/// without a final component has no extension; nor has one whose final
/// component holds no dot, or none but its first character; any other has
/// what follows the last dot of its final component.
#[verifier::external_body]
pub(crate) fn extension<'a>(path: &'a str) -> (ext: Option<&'a str>)
    ensures
        option_view(ext) == match path_file_name(path@) {
            Some(name) => extension_of(name),
            None => None,
        },
{
    std::path::Path::new(path).extension().and_then(|ext| ext.to_str())
}

/// Calls `async_std::path::Path::file_stem`, which hands the work to the
/// path type of `std`. Trusted, as documented there: a path without a final
/// component has no stem; any other has its final component up to its last
/// dot, or all of it where no dot follows its first character.
#[verifier::external_body]
pub(crate) fn file_stem<'a>(path: &'a str) -> (stem: Option<&'a str>)
    ensures
        option_view(stem) == match path_file_name(path@) {
            Some(name) => Some(stem_of(name)),
            None => None,
        },
{
    async_std::path::Path::new(path).file_stem().and_then(|stem| stem.to_str())
}

/// The stem of a name begins as the name does.
pub proof fn lemma_stem_keeps_first(name: Seq<char>)
    requires
        name.len() > 0,
    ensures
        stem_of(name).len() > 0,
        stem_of(name)[0] == name[0],
        stem_of(name).is_prefix_of(name),
{
    lemma_final_dot_in_range(name);
}

/// The last dot of a name, where it has one, is a dot of the name, and no
/// dot follows it.
pub proof fn lemma_final_dot_in_range(name: Seq<char>)
    ensures
        -1 <= final_dot(name) < name.len(),
        final_dot(name) >= 0 ==> name[final_dot(name)] == '.',
        forall|i: int| final_dot(name) < i < name.len() ==> name[i] != '.',
    decreases name.len(),
{
    if name.len() > 0 && name.last() != '.' {
        let shorter = name.drop_last();
        lemma_final_dot_in_range(shorter);
        assert forall|i: int| final_dot(name) < i < name.len() implies name[i] != '.' by {
            if i < shorter.len() {
                assert(name[i] == shorter[i]);
            }
        }
    }
}

/// A name is its stem where it has no extension, and else its stem, a dot,
/// and its extension.
pub proof fn lemma_name_is_stem_and_extension(name: Seq<char>)
    ensures
        match extension_of(name) {
            Some(ext) => name == stem_of(name) + seq!['.'] + ext,
            None => name == stem_of(name),
        },
{
    lemma_final_dot_in_range(name);
    if final_dot(name) > 0 {
        assert(name =~= stem_of(name) + seq!['.'] + name.skip(final_dot(name) + 1));
    }
}

} // verus!
