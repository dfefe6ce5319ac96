//! The table of display names that stand in for raw identifiers.

use vstd::prelude::*;
use crate::text::str_eq;

verus! {

/// The keys of a list of entries, as text.
pub open spec fn keys_of(entries: Seq<(String, String)>) -> Seq<Seq<char>> {
    Seq::new(entries.len(), |i: int| entries[i].0@)
}

/// Maps raw identifiers to the names to show for them. Each identifier has
/// at most one name.
pub struct NameOverrideTable {
    entries: Vec<(String, String)>,
}

impl View for NameOverrideTable {
    type V = Map<Seq<char>, Seq<char>>;

    closed spec fn view(&self) -> Map<Seq<char>, Seq<char>> {
        Map::new(
            |key: Seq<char>| keys_of(self.entries@).contains(key),
            |key: Seq<char>| self.entries@[keys_of(self.entries@).index_of(key)].1@,
        )
    }
}

impl NameOverrideTable {
    #[verifier::type_invariant]
    spec fn well_formed(&self) -> bool {
        keys_of(self.entries@).no_duplicates()
    }

    /// A table without names.
    pub fn new() -> (table: NameOverrideTable)
        ensures
            table@ == Map::<Seq<char>, Seq<char>>::empty(),
    {
        let table = NameOverrideTable { entries: Vec::new() };
        assert(table@ =~= Map::<Seq<char>, Seq<char>>::empty());
        table
    }

    /// The position of `key` among the entries.
    fn position(&self, key: &str) -> (at: Option<usize>)
        ensures
            match at {
                Some(i) => i < self.entries@.len() && self.entries@[i as int].0@ == key@,
                None => !keys_of(self.entries@).contains(key@),
            },
    {
        let mut i: usize = 0;
        while i < self.entries.len()
            invariant
                i <= self.entries@.len(),
                forall|j: int| 0 <= j < i ==> self.entries@[j].0@ != key@,
            decreases self.entries@.len() - i,
        {
            if str_eq(self.entries[i].0.as_str(), key) {
                return Some(i);
            }
            i += 1;
        }
        None
    }

    /// The name to show for `key`, if the table has one.
    pub fn get(&self, key: &str) -> (name: Option<&String>)
        ensures
            match name {
                Some(value) => self@.contains_key(key@) && self@[key@] == value@,
                None => !self@.contains_key(key@),
            },
    {
        proof {
            use_type_invariant(self);
        }
        match self.position(key) {
            Some(i) => {
                proof {
                    let keys = keys_of(self.entries@);
                    assert(keys[i as int] == key@);
                    let found = keys.index_of(key@);
                    assert(keys[found] == key@);
                }
                Some(&self.entries[i].1)
            },
            None => None,
        }
    }

    /// Gives `key` the name `value`, in place of any name it had.
    pub fn insert(&mut self, key: String, value: String)
        ensures
            final(self)@ == old(self)@.insert(key@, value@),
    {
        proof {
            use_type_invariant(&*self);
        }
        let ghost before = self.entries@;
        let ghost keys = keys_of(before);
        let ghost goal = self@.insert(key@, value@);
        let at = self.position(key.as_str());
        let mut entries: Vec<(String, String)> = Vec::new();
        assert(keys_of(entries@) =~= Seq::<Seq<char>>::empty());
        core::mem::swap(&mut self.entries, &mut entries);
        match at {
            Some(i) => {
                entries.set(i, (key, value));
                proof {
                    assert(keys_of(entries@) =~= keys);
                    assert(keys[i as int] == key@);
                }
            },
            None => {
                entries.push((key, value));
                proof {
                    assert(keys_of(entries@) =~= keys.push(key@));
                }
            },
        }
        let ghost after = entries@;
        let ghost longer = keys_of(after);
        assert(longer.no_duplicates());
        core::mem::swap(&mut self.entries, &mut entries);
        proof {
            assert(self.entries@ == after);
            assert forall|k: Seq<char>| longer.contains(k) <==> goal.contains_key(k) by {
                if longer.contains(k) {
                    let found = longer.index_of(k);
                    assert(longer[found] == k);
                    if found < keys.len() {
                        assert(keys[found] == k);
                    }
                }
                if keys.contains(k) {
                    let was = keys.index_of(k);
                    assert(keys[was] == k);
                    assert(longer[was] == k);
                }
                if k == key@ {
                    match at {
                        Some(i) => {
                            assert(longer[i as int] == k);
                        },
                        None => {
                            assert(longer[before.len() as int] == k);
                        },
                    }
                }
            }
            assert forall|k: Seq<char>| longer.contains(k) implies #[trigger] self@[k]
                == goal[k] by {
                let found = longer.index_of(k);
                assert(longer[found] == k);
                if k == key@ {
                    match at {
                        Some(i) => {
                            assert(longer[i as int] == k);
                        },
                        None => {
                            assert(longer[before.len() as int] == k);
                        },
                    }
                } else {
                    assert(keys[found] == k);
                    let was = keys.index_of(k);
                    assert(keys[was] == k);
                    assert(longer[was] == k);
                }
            }
            assert(self@ =~= goal);
        }
    }

    /// The number of identifiers that have a name.
    pub fn len(&self) -> (n: usize)
        ensures
            self@.dom().finite(),
            n == self@.len(),
    {
        proof {
            use_type_invariant(self);
            let keys = keys_of(self.entries@);
            keys.unique_seq_to_set();
            vstd::seq_lib::seq_to_set_is_finite(keys);
            assert(self@.dom() =~= keys.to_set());
        }
        self.entries.len()
    }
}

} // verus!
