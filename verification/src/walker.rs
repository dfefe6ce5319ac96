//! Walking a search root for bundles. The walk is a worklist of entries; the
//! caller reads each directory that the walker asks for and hands back what
//! it holds.

use vstd::prelude::*;
use crate::checker::{classify, Checker, Outcome};
use crate::checkers::Entry;
use crate::text::string_views;

verus! {

/// Where a walk stands once the entries at the end of its worklist have been
/// dealt with.
pub struct Settled {
    /// The directory to read next, if the walk is not over.
    pub directory: Option<Seq<char>>,
    /// The entries still to be looked at.
    pub pending: Seq<Entry>,
    /// The bundles found so far.
    pub found: Seq<Seq<char>>,
}

/// Takes entries off the end of `pending` until one is to be entered, or
/// none is left. An unwanted entry is dropped, and nothing beneath it is ever
/// seen. A bundle is added to `found` and not entered.
pub open spec fn settle(pending: Seq<Entry>, found: Seq<Seq<char>>, ignored: Set<Seq<char>>) -> Settled
    decreases pending.len(),
{
    if pending.len() == 0 {
        Settled { directory: None, pending, found }
    } else {
        let entry = pending.last();
        match classify(entry.path@, entry.symlink, ignored) {
            Outcome::UnwantedPath => settle(pending.drop_last(), found, ignored),
            Outcome::BundlePath => settle(pending.drop_last(), found.push(entry.path@), ignored),
            Outcome::NormalPath => Settled {
                directory: Some(entry.path@),
                pending: pending.drop_last(),
                found,
            },
        }
    }
}

/// Whether every path in `found` is that of a bundle which is neither hidden
/// nor ignored.
pub open spec fn all_bundles(found: Seq<Seq<char>>, ignored: Set<Seq<char>>) -> bool {
    forall|i: int|
        0 <= i < found.len() ==> classify(#[trigger] found[i], false, ignored)
            == Outcome::BundlePath
}

/// Settling keeps the worklist a part of what it was, collects bundles only,
/// and asks only for directories that are to be entered.
pub proof fn lemma_settle(pending: Seq<Entry>, found: Seq<Seq<char>>, ignored: Set<Seq<char>>)
    requires
        all_bundles(found, ignored),
    ensures
        all_bundles(settle(pending, found, ignored).found, ignored),
        found.is_prefix_of(settle(pending, found, ignored).found),
        settle(pending, found, ignored).pending.is_prefix_of(pending),
        match settle(pending, found, ignored).directory {
            Some(directory) => classify(directory, false, ignored) == Outcome::NormalPath,
            None => settle(pending, found, ignored).pending.len() == 0,
        },
    decreases pending.len(),
{
    if pending.len() > 0 {
        let entry = pending.last();
        let rest = pending.drop_last();
        match classify(entry.path@, entry.symlink, ignored) {
            Outcome::UnwantedPath => {
                lemma_settle(rest, found, ignored);
            },
            Outcome::BundlePath => {
                lemma_settle(rest, found.push(entry.path@), ignored);
            },
            Outcome::NormalPath => {},
        }
    }
}

/// A walk in progress.
pub struct Walker<'a> {
    checker: &'a Checker,
    pending: Vec<Entry>,
    found: Vec<String>,
}

impl<'a> Walker<'a> {
    /// The entries still to be looked at; the next one is the last.
    pub closed spec fn pending(&self) -> Seq<Entry> {
        self.pending@
    }

    /// The bundles found so far.
    pub closed spec fn found(&self) -> Seq<Seq<char>> {
        string_views(self.found@)
    }

    /// The paths that the walk ignores.
    pub closed spec fn ignored(&self) -> Set<Seq<char>> {
        self.checker.ignored()
    }

    /// A walk that starts at `root`.
    pub fn new(checker: &'a Checker, root: Entry) -> (walker: Walker<'a>)
        ensures
            walker.pending() == seq![root],
            walker.found() == Seq::<Seq<char>>::empty(),
            walker.ignored() == checker.ignored(),
    {
        let mut pending: Vec<Entry> = Vec::new();
        pending.push(root);
        let walker = Walker { checker, pending, found: Vec::new() };
        walker
    }

    /// Deals with the entries at the end of the worklist and returns the
    /// next directory to read, or `None` when the walk is over.
    pub fn next_directory(&mut self) -> (directory: Option<String>)
        ensures
            final(self).ignored() == old(self).ignored(),
            final(self).pending() == settle(
                old(self).pending(),
                old(self).found(),
                old(self).ignored(),
            ).pending,
            final(self).found() == settle(
                old(self).pending(),
                old(self).found(),
                old(self).ignored(),
            ).found,
            match directory {
                Some(path) => settle(
                    old(self).pending(),
                    old(self).found(),
                    old(self).ignored(),
                ).directory == Some(path@),
                None => settle(
                    old(self).pending(),
                    old(self).found(),
                    old(self).ignored(),
                ).directory is None,
            },
    {
        let ghost goal = settle(self.pending(), self.found(), self.ignored());
        loop
            invariant
                self.ignored() == old(self).ignored(),
                goal == settle(old(self).pending(), old(self).found(), old(self).ignored()),
                settle(self.pending(), self.found(), self.ignored()) == goal,
            decreases self.pending().len(),
        {
            let ghost before = self.found();
            match self.pending.pop() {
                None => {
                    return None;
                },
                Some(entry) => {
                    match self.checker.check(&entry) {
                        Outcome::UnwantedPath => {},
                        Outcome::BundlePath => {
                            let ghost path = entry.path@;
                            self.found.push(entry.path);
                            assert(self.found() =~= before.push(path));
                        },
                        Outcome::NormalPath => {
                            return Some(entry.path);
                        },
                    }
                },
            }
        }
    }

    /// Adds what a directory holds to the worklist, so that its entries are
    /// looked at in the order in which they are given. A directory that
    /// could not be read is fed as holding nothing.
    pub fn feed(&mut self, children: Vec<Entry>)
        ensures
            final(self).ignored() == old(self).ignored(),
            final(self).found() == old(self).found(),
            final(self).pending() == old(self).pending() + children@.reverse(),
    {
        let mut children = children;
        let ghost all = children@;
        loop
            invariant
                self.ignored() == old(self).ignored(),
                self.found() == old(self).found(),
                children@.len() <= all.len(),
                children@ == all.take(children@.len() as int),
                self.pending() == old(self).pending() + all.reverse().take(
                    all.len() - children@.len(),
                ),
            ensures
                children@.len() == 0,
            decreases children@.len(),
        {
            match children.pop() {
                Some(child) => {
                    self.pending.push(child);
                },
                None => {
                    break;
                },
            }
        }
    }

    /// Whether nothing is left to look at.
    pub fn is_done(&self) -> (done: bool)
        ensures
            done == (self.pending().len() == 0),
    {
        self.pending.len() == 0
    }

    /// Ends the walk and gives the bundles found, in the order in which they
    /// were found.
    pub fn into_found(self) -> (found: Vec<String>)
        ensures
            string_views(found@) == self.found(),
    {
        self.found
    }
}

/// Whether `chain` is a way down a tree: each of its entries but the last is
/// one that the walk enters, and lists the entry after it.
pub open spec fn is_descent(
    chain: Seq<Entry>,
    listing: spec_fn(Seq<char>) -> Seq<Entry>,
    ignored: Set<Seq<char>>,
) -> bool {
    &&& chain.len() > 0
    &&& forall|i: int|
        0 <= i < chain.len() - 1 ==> {
            &&& classify((#[trigger] chain[i]).path@, chain[i].symlink, ignored)
                == Outcome::NormalPath
            &&& listing(chain[i].path@).contains(chain[i + 1])
        }
}

/// Whether the bundle at `bundle` can be reached from `entry`: there is a way
/// down from `entry` that ends at an entry with that path which is a bundle.
/// Nothing is reached through an unwanted entry, nor through a bundle.
pub open spec fn reaches(
    entry: Entry,
    bundle: Seq<char>,
    listing: spec_fn(Seq<char>) -> Seq<Entry>,
    ignored: Set<Seq<char>>,
) -> bool {
    exists|chain: Seq<Entry>|
        {
            &&& #[trigger] is_descent(chain, listing, ignored)
            &&& chain[0] == entry
            &&& chain.last().path@ == bundle
            &&& classify(bundle, chain.last().symlink, ignored) == Outcome::BundlePath
        }
}

/// Whether the bundle at `bundle` can be reached from one of `pending`.
pub open spec fn awaits(
    pending: Seq<Entry>,
    bundle: Seq<char>,
    listing: spec_fn(Seq<char>) -> Seq<Entry>,
    ignored: Set<Seq<char>>,
) -> bool {
    exists|i: int|
        0 <= i < pending.len() && reaches(#[trigger] pending[i], bundle, listing, ignored)
}

/// The bundles that a walk in this state ends with: those it has found, and
/// those that can be reached from the entries it has yet to look at.
pub open spec fn outstanding(
    pending: Seq<Entry>,
    found: Seq<Seq<char>>,
    listing: spec_fn(Seq<char>) -> Seq<Entry>,
    ignored: Set<Seq<char>>,
) -> Set<Seq<char>> {
    Set::new(|bundle: Seq<char>| found.contains(bundle) || awaits(pending, bundle, listing, ignored))
}

/// What a walk finds when each directory it asks for is read, and holds what
/// `listing` says. `None` where the walk has not ended after `fuel`
/// directories.
pub open spec fn walk_result(
    pending: Seq<Entry>,
    found: Seq<Seq<char>>,
    listing: spec_fn(Seq<char>) -> Seq<Entry>,
    ignored: Set<Seq<char>>,
    fuel: nat,
) -> Option<Seq<Seq<char>>>
    decreases fuel,
{
    let settled = settle(pending, found, ignored);
    match settled.directory {
        None => Some(settled.found),
        Some(directory) => if fuel == 0 {
            None
        } else {
            walk_result(
                settled.pending + listing(directory).reverse(),
                settled.found,
                listing,
                ignored,
                (fuel - 1) as nat,
            )
        },
    }
}

proof fn lemma_reaches_unwanted(
    entry: Entry,
    bundle: Seq<char>,
    listing: spec_fn(Seq<char>) -> Seq<Entry>,
    ignored: Set<Seq<char>>,
)
    requires
        classify(entry.path@, entry.symlink, ignored) == Outcome::UnwantedPath,
    ensures
        !reaches(entry, bundle, listing, ignored),
{
    if reaches(entry, bundle, listing, ignored) {
        let chain = choose|chain: Seq<Entry>|
            {
                &&& #[trigger] is_descent(chain, listing, ignored)
                &&& chain[0] == entry
                &&& chain.last().path@ == bundle
                &&& classify(bundle, chain.last().symlink, ignored) == Outcome::BundlePath
            };
        assert(chain.len() == 1);
    }
}

proof fn lemma_reaches_bundle(
    entry: Entry,
    bundle: Seq<char>,
    listing: spec_fn(Seq<char>) -> Seq<Entry>,
    ignored: Set<Seq<char>>,
)
    requires
        classify(entry.path@, entry.symlink, ignored) == Outcome::BundlePath,
    ensures
        reaches(entry, bundle, listing, ignored) <==> bundle == entry.path@,
{
    if reaches(entry, bundle, listing, ignored) {
        let chain = choose|chain: Seq<Entry>|
            {
                &&& #[trigger] is_descent(chain, listing, ignored)
                &&& chain[0] == entry
                &&& chain.last().path@ == bundle
                &&& classify(bundle, chain.last().symlink, ignored) == Outcome::BundlePath
            };
        assert(chain.len() == 1);
    }
    if bundle == entry.path@ {
        assert(is_descent(seq![entry], listing, ignored));
    }
}

proof fn lemma_reaches_normal(
    entry: Entry,
    bundle: Seq<char>,
    listing: spec_fn(Seq<char>) -> Seq<Entry>,
    ignored: Set<Seq<char>>,
)
    requires
        classify(entry.path@, entry.symlink, ignored) == Outcome::NormalPath,
    ensures
        reaches(entry, bundle, listing, ignored) <==> awaits(
            listing(entry.path@),
            bundle,
            listing,
            ignored,
        ),
{
    let children = listing(entry.path@);
    if reaches(entry, bundle, listing, ignored) {
        let chain = choose|chain: Seq<Entry>|
            {
                &&& #[trigger] is_descent(chain, listing, ignored)
                &&& chain[0] == entry
                &&& chain.last().path@ == bundle
                &&& classify(bundle, chain.last().symlink, ignored) == Outcome::BundlePath
            };
        let rest = chain.skip(1);
        assert(is_descent(rest, listing, ignored));
        assert(children.contains(rest[0]));
    }
    if awaits(children, bundle, listing, ignored) {
        let j = choose|j: int|
            0 <= j < children.len() && reaches(#[trigger] children[j], bundle, listing, ignored);
        let rest = choose|chain: Seq<Entry>|
            {
                &&& #[trigger] is_descent(chain, listing, ignored)
                &&& chain[0] == children[j]
                &&& chain.last().path@ == bundle
                &&& classify(bundle, chain.last().symlink, ignored) == Outcome::BundlePath
            };
        assert(is_descent(seq![entry] + rest, listing, ignored));
    }
}

/// One round of a walk, in which the entries at the end of the worklist are
/// dealt with and the directory asked for is read, loses no bundle and
/// gains none.
pub proof fn lemma_round_keeps_outstanding(
    pending: Seq<Entry>,
    found: Seq<Seq<char>>,
    listing: spec_fn(Seq<char>) -> Seq<Entry>,
    ignored: Set<Seq<char>>,
)
    ensures
        match settle(pending, found, ignored).directory {
            Some(directory) => outstanding(
                settle(pending, found, ignored).pending + listing(directory).reverse(),
                settle(pending, found, ignored).found,
                listing,
                ignored,
            ) == outstanding(pending, found, listing, ignored),
            None => settle(pending, found, ignored).found.to_set() == outstanding(
                pending,
                found,
                listing,
                ignored,
            ),
        },
    decreases pending.len(),
{
    if pending.len() > 0 {
        let entry = pending.last();
        let rest = pending.drop_last();
        match classify(entry.path@, entry.symlink, ignored) {
            Outcome::UnwantedPath => {
                lemma_round_keeps_outstanding(rest, found, listing, ignored);
                assert forall|bundle: Seq<char>|
                    awaits(rest, bundle, listing, ignored) <==> awaits(
                        pending,
                        bundle,
                        listing,
                        ignored,
                    ) by {
                    lemma_reaches_unwanted(entry, bundle, listing, ignored);
                    lemma_awaits_last(pending, bundle, listing, ignored);
                }
            },
            Outcome::BundlePath => {
                let more = found.push(entry.path@);
                lemma_round_keeps_outstanding(rest, more, listing, ignored);
                assert forall|bundle: Seq<char>|
                    (more.contains(bundle) || awaits(rest, bundle, listing, ignored)) <==> (
                    found.contains(bundle) || awaits(pending, bundle, listing, ignored)) by {
                    lemma_reaches_bundle(entry, bundle, listing, ignored);
                    lemma_awaits_last(pending, bundle, listing, ignored);
                    if found.contains(bundle) {
                        let k = choose|k: int| 0 <= k < found.len() && found[k] == bundle;
                        assert(more[k] == bundle);
                    }
                    if bundle == entry.path@ {
                        assert(more[found.len() as int] == bundle);
                    }
                }
            },
            Outcome::NormalPath => {
                let children = listing(entry.path@);
                let next = rest + children.reverse();
                assert forall|bundle: Seq<char>|
                    awaits(next, bundle, listing, ignored) <==> awaits(
                        pending,
                        bundle,
                        listing,
                        ignored,
                    ) by {
                    lemma_reaches_normal(entry, bundle, listing, ignored);
                    lemma_awaits_last(pending, bundle, listing, ignored);
                    lemma_awaits_either(rest, children.reverse(), bundle, listing, ignored);
                    lemma_awaits_reverse(children, bundle, listing, ignored);
                }
            },
        }
    }
}

proof fn lemma_awaits_last(
    pending: Seq<Entry>,
    bundle: Seq<char>,
    listing: spec_fn(Seq<char>) -> Seq<Entry>,
    ignored: Set<Seq<char>>,
)
    requires
        pending.len() > 0,
    ensures
        awaits(pending, bundle, listing, ignored) <==> awaits(
            pending.drop_last(),
            bundle,
            listing,
            ignored,
        ) || reaches(pending.last(), bundle, listing, ignored),
{
    let rest = pending.drop_last();
    if awaits(pending, bundle, listing, ignored) {
        let i = choose|i: int|
            0 <= i < pending.len() && reaches(#[trigger] pending[i], bundle, listing, ignored);
        if i < rest.len() {
            assert(rest[i] == pending[i]);
        }
    }
}

proof fn lemma_awaits_either(
    first: Seq<Entry>,
    second: Seq<Entry>,
    bundle: Seq<char>,
    listing: spec_fn(Seq<char>) -> Seq<Entry>,
    ignored: Set<Seq<char>>,
)
    ensures
        awaits(first + second, bundle, listing, ignored) <==> awaits(
            first,
            bundle,
            listing,
            ignored,
        ) || awaits(second, bundle, listing, ignored),
{
    let both = first + second;
    if awaits(first, bundle, listing, ignored) {
        let i = choose|i: int|
            0 <= i < first.len() && reaches(#[trigger] first[i], bundle, listing, ignored);
        assert(both[i] == first[i]);
    }
    if awaits(second, bundle, listing, ignored) {
        let i = choose|i: int|
            0 <= i < second.len() && reaches(#[trigger] second[i], bundle, listing, ignored);
        assert(both[first.len() + i] == second[i]);
    }
}

proof fn lemma_awaits_reverse(
    entries: Seq<Entry>,
    bundle: Seq<char>,
    listing: spec_fn(Seq<char>) -> Seq<Entry>,
    ignored: Set<Seq<char>>,
)
    ensures
        awaits(entries.reverse(), bundle, listing, ignored) <==> awaits(
            entries,
            bundle,
            listing,
            ignored,
        ),
{
    let turned = entries.reverse();
    if awaits(entries, bundle, listing, ignored) {
        let i = choose|i: int|
            0 <= i < entries.len() && reaches(#[trigger] entries[i], bundle, listing, ignored);
        assert(turned[entries.len() - 1 - i] == entries[i]);
    }
}

/// A walk that ends has found the bundles that were outstanding when it
/// began, all of them and no others.
pub proof fn lemma_walk_finds_outstanding(
    pending: Seq<Entry>,
    found: Seq<Seq<char>>,
    listing: spec_fn(Seq<char>) -> Seq<Entry>,
    ignored: Set<Seq<char>>,
    fuel: nat,
)
    requires
        walk_result(pending, found, listing, ignored, fuel) is Some,
    ensures
        walk_result(pending, found, listing, ignored, fuel)->0.to_set() == outstanding(
            pending,
            found,
            listing,
            ignored,
        ),
    decreases fuel,
{
    let settled = settle(pending, found, ignored);
    lemma_round_keeps_outstanding(pending, found, listing, ignored);
    match settled.directory {
        None => {},
        Some(directory) => {
            lemma_walk_finds_outstanding(
                settled.pending + listing(directory).reverse(),
                settled.found,
                listing,
                ignored,
                (fuel - 1) as nat,
            );
        },
    }
}

/// A walk from `root` that ends has found exactly the bundles that can be
/// reached from `root`: nothing beneath an entry that is hidden, a symbolic
/// link or ignored, and nothing inside a bundle.
pub proof fn lemma_walk_finds_reachable(
    root: Entry,
    listing: spec_fn(Seq<char>) -> Seq<Entry>,
    ignored: Set<Seq<char>>,
    fuel: nat,
)
    requires
        walk_result(seq![root], Seq::empty(), listing, ignored, fuel) is Some,
    ensures
        forall|bundle: Seq<char>|
            walk_result(seq![root], Seq::empty(), listing, ignored, fuel)->0.contains(bundle)
                <==> reaches(root, bundle, listing, ignored),
{
    let start = seq![root];
    let none = Seq::<Seq<char>>::empty();
    let result = walk_result(start, none, listing, ignored, fuel)->0;
    lemma_walk_finds_outstanding(start, none, listing, ignored, fuel);
    assert forall|bundle: Seq<char>|
        result.contains(bundle) <==> reaches(root, bundle, listing, ignored) by {
        assert(result.to_set().contains(bundle) == outstanding(
            start,
            none,
            listing,
            ignored,
        ).contains(bundle));
    }
}

} // verus!
