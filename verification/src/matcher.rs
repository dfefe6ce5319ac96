//! Matching a query against a name: as a prefix of the whole name, or as
//! prefixes of its words taken one after the other.

use vstd::prelude::*;
use crate::text::{
    chars_of, eq_ignore_ascii_case, eq_ignoring_ascii_case, starts_with, str_to_lowercase,
    to_lowercase, views,
};
use crate::tokenizer::{clean_tokens_of, tokenize_and_clean};

verus! {

/// Whether the first `k` characters of `query` and of `component` are the
/// same, ASCII case aside.
pub open spec fn agree(query: Seq<char>, component: Seq<char>, k: int) -> bool {
    &&& 0 <= k <= query.len()
    &&& k <= component.len()
    &&& forall|j: int| 0 <= j < k ==> eq_ignoring_ascii_case(#[trigger] query[j], component[j])
}

/// Whether `query` can be used up by taking, from each component in turn, a
/// prefix of at least one character.
///
/// An empty query is used up, whatever components are left. A query that
/// is not empty needs a first component: some prefix of the query, one
/// character or longer, must agree with the start of that component, and
/// the rest of the query must be used up by the components after it.
pub open spec fn consume(query: Seq<char>, components: Seq<Seq<char>>) -> bool
    decreases components.len(),
{
    if query.len() == 0 {
        true
    } else if components.len() == 0 {
        false
    } else {
        exists|k: int|
            1 <= k && #[trigger] agree(query, components[0], k) && consume(
                query.skip(k),
                components.skip(1),
            )
    }
}

/// Whether the lowercase form of `target` begins with `query`.
pub open spec fn prefix_matches(query: Seq<char>, target: Seq<char>) -> bool {
    query.is_prefix_of(str_to_lowercase(target))
}

/// Whether `query` is used up by the words of `target`, stop words left out.
pub open spec fn initials_match(query: Seq<char>, target: Seq<char>) -> bool {
    consume(query, clean_tokens_of(target))
}

/// Whether `query` matches `target` in either way.
pub open spec fn query_matches(query: Seq<char>, target: Seq<char>) -> bool {
    prefix_matches(query, target) || initials_match(query, target)
}

/// The character sequences held by a list of character vectors.
pub open spec fn layers(components: Seq<Vec<char>>) -> Seq<Seq<char>> {
    Seq::new(components.len(), |i: int| components[i]@)
}

/// Tries the prefixes of the component at `first` from the shortest up, as
/// long as they agree with the query from `at` on, and stops at the first
/// whose rest the later components use up.
fn consume_from(query: &Vec<char>, at: usize, components: &Vec<Vec<char>>, first: usize) -> (r:
    bool)
    requires
        at <= query@.len(),
        first <= components@.len(),
    ensures
        r == consume(query@.skip(at as int), layers(components@).skip(first as int)),
    decreases components@.len() - first,
{
    let ghost rest = query@.skip(at as int);
    let ghost left = layers(components@).skip(first as int);
    if at == query.len() {
        return true;
    }
    if first == components.len() {
        return false;
    }
    let component = &components[first];
    assert(left[0] == component@);
    let mut k: usize = 0;
    while at + k < query.len() && k < component.len() && eq_ignore_ascii_case(
        query[at + k],
        component[k],
    )
        invariant
            at + k <= query@.len() <= usize::MAX,
            first < components@.len() <= usize::MAX,
            rest == query@.skip(at as int),
            left == layers(components@).skip(first as int),
            left[0] == component@,
            agree(rest, component@, k as int),
            forall|m: int|
                1 <= m <= k && #[trigger] agree(rest, component@, m) ==> !consume(
                    rest.skip(m),
                    left.skip(1),
                ),
        decreases query@.len() - at - k,
    {
        assert(rest[k as int] == query@[at + k]);
        assert(agree(rest, component@, k + 1));
        assert(rest.skip(k + 1) =~= query@.skip(at + k + 1));
        assert(left.skip(1) =~= layers(components@).skip(first + 1));
        if consume_from(query, at + k + 1, components, first + 1) {
            return true;
        }
        k += 1;
    }
    proof {
        assert forall|m: int| 1 <= m && #[trigger] agree(rest, component@, m) implies !consume(
            rest.skip(m),
            left.skip(1),
        ) by {
            if m > k {
                assert(eq_ignoring_ascii_case(rest[k as int], component@[k as int]));
                assert(rest[k as int] == query@[at + k]);
            }
        }
    }
    false
}

/// Whether `query` can be used up by prefixes of the components of `target`,
/// one component after the other: `am` by `Activity Monitor`, and `actmo`
/// too. Letters match whatever their ASCII case. Components that are left
/// when the query is used up do not count against the match.
pub fn match_components_prefix(query: &str, target: &[&str]) -> (r: bool)
    ensures
        r == consume(query@, views(target@)),
{
    let chars = chars_of(query);
    let mut components: Vec<Vec<char>> = Vec::new();
    let mut i: usize = 0;
    while i < target.len()
        invariant
            i <= target@.len(),
            components@.len() == i,
            forall|j: int| 0 <= j < i ==> components@[j]@ == target@[j]@,
        decreases target@.len() - i,
    {
        components.push(chars_of(target[i]));
        i += 1;
    }
    assert(layers(components@) =~= views(target@));
    assert(chars@.skip(0) =~= query@);
    assert(layers(components@).skip(0) =~= views(target@));
    consume_from(&chars, 0, &components, 0)
}

/// Whether `target`, in lower case, begins with `query`.
pub fn prefix_match(query: &str, target: &str) -> (r: bool)
    ensures
        r == prefix_matches(query@, target@),
{
    let lowered = to_lowercase(target);
    starts_with(&chars_of(lowered.as_str()), &chars_of(query))
}

/// Whether `query` is made of prefixes of the words of `target`, in order.
pub fn initial_match(query: &str, target: &str) -> (r: bool)
    ensures
        r == initials_match(query@, target@),
{
    let components = tokenize_and_clean(target);
    match_components_prefix(query, components.as_slice())
}

/// Whether `query`, which the caller has put in lower case, matches
/// `target`: as a prefix of the whole name, or word by word.
pub fn match_query(query: &str, target: &str) -> (r: bool)
    ensures
        r == query_matches(query@, target@),
{
    prefix_match(query, target) || initial_match(query, target)
}

/// Components that follow a match do not undo it: a query that some
/// components use up is used up by those components and any after them.
pub proof fn lemma_trailing_components_are_ignored(
    query: Seq<char>,
    components: Seq<Seq<char>>,
    extra: Seq<Seq<char>>,
)
    requires
        consume(query, components),
    ensures
        consume(query, components + extra),
    decreases components.len(),
{
    if query.len() > 0 {
        let k = choose|k: int|
            1 <= k && #[trigger] agree(query, components[0], k) && consume(
                query.skip(k),
                components.skip(1),
            );
        lemma_trailing_components_are_ignored(query.skip(k), components.skip(1), extra);
        let longer = components + extra;
        assert(longer[0] == components[0]);
        assert(longer.skip(1) =~= components.skip(1) + extra);
        assert(agree(query, longer[0], k));
    }
}

/// Each component gives at least one character: a query that is used up is
/// no shorter than the number of components it took, and so a query that
/// is longer than all the components together is never used up.
pub proof fn lemma_query_fits_components(query: Seq<char>, components: Seq<Seq<char>>)
    requires
        consume(query, components),
    ensures
        query.len() <= total_len(components),
    decreases components.len(),
{
    if query.len() > 0 {
        let k = choose|k: int|
            1 <= k && #[trigger] agree(query, components[0], k) && consume(
                query.skip(k),
                components.skip(1),
            );
        lemma_query_fits_components(query.skip(k), components.skip(1));
    } else {
        lemma_total_len_is_natural(components);
    }
}

/// The number of characters in all the components together.
pub open spec fn total_len(components: Seq<Seq<char>>) -> int
    decreases components.len(),
{
    if components.len() == 0 {
        0
    } else {
        components[0].len() + total_len(components.skip(1))
    }
}

proof fn lemma_total_len_is_natural(components: Seq<Seq<char>>)
    ensures
        total_len(components) >= 0,
    decreases components.len(),
{
    if components.len() > 0 {
        lemma_total_len_is_natural(components.skip(1));
    }
}

} // verus!
