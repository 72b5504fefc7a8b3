//! A map from user names to amounts that keeps the order in which its
//! names were first entered.

use crate::books::{opening, settle};
use crate::split::{named, names_of, narrow, representable, Name};
use crate::user::{Amount, UserName};
use vstd::prelude::*;

verus! {

/// The map that a list of pairs with distinct names stands for.
pub open spec fn as_map(entries: Seq<(Name, Amount)>) -> Map<Name, int> {
    Map::new(
        |u: Name| names_of(entries).contains(u),
        |u: Name| entries[names_of(entries).index_of(u)].1 as int,
    )
}

/// In a list with distinct names, each entry is what the map holds for its
/// name.
pub proof fn lemma_as_map_entry(entries: Seq<(Name, Amount)>, i: int)
    requires
        names_of(entries).no_duplicates(),
        0 <= i < entries.len(),
    ensures
        as_map(entries).contains_key(entries[i].0),
        as_map(entries)[entries[i].0] == entries[i].1,
{
    assert(names_of(entries)[i] == entries[i].0);
}

/// Amounts by user name. No name occurs twice; names stay in the order in
/// which they were first inserted.
#[derive(Debug)]
pub struct UserAmountMap {
    entries: Vec<(UserName, Amount)>,
}

impl View for UserAmountMap {
    type V = Map<Name, int>;

    open spec fn view(&self) -> Map<Name, int> {
        as_map(self.listing())
    }
}

impl UserAmountMap {
    #[verifier::type_invariant]
    spec fn distinct_names(&self) -> bool {
        names_of(named(self.entries@)).no_duplicates()
    }

    /// The entries in order, each name taken as its characters.
    pub closed spec fn listing(&self) -> Seq<(Name, Amount)> {
        named(self.entries@)
    }

    /// The empty map.
    pub fn new() -> (map: UserAmountMap)
        ensures
            map@ == Map::<Name, int>::empty(),
            map.listing() == Seq::<(Name, Amount)>::empty(),
    {
        UserAmountMap { entries: Vec::new() }
    }

    /// The number of names.
    pub fn len(&self) -> (count: usize)
        ensures
            count == self.listing().len(),
            count == self@.dom().len(),
            self@.dom().finite(),
    {
        proof {
            use_type_invariant(self);
            let names = names_of(self.listing());
            names.unique_seq_to_set();
        }
        self.entries.len()
    }

    /// Where `name` stands in the list, if it occurs.
    fn position(&self, name: &String) -> (at: Option<usize>)
        ensures
            match at {
                Some(i) => i < self.listing().len() && self.listing()[i as int].0 == name@,
                None => !names_of(self.listing()).contains(name@),
            },
    {
        let mut i: usize = 0;
        while i < self.entries.len()
            invariant
                i <= self.entries.len(),
                forall|j: int| 0 <= j < i ==> self.listing()[j].0 != name@,
            decreases self.entries.len() - i,
        {
            if self.entries[i].0 == *name {
                return Some(i);
            }
            i += 1;
        }
        None
    }

    /// The amount held for `name`, if any.
    pub fn get(&self, name: &str) -> (amount: Option<Amount>)
        ensures
            match amount {
                Some(a) => self@.contains_key(name@) && self@[name@] == a,
                None => !self@.contains_key(name@),
            },
    {
        let key = name.to_owned();
        match self.position(&key) {
            Some(i) => {
                proof {
                    use_type_invariant(self);
                    lemma_as_map_entry(self.listing(), i as int);
                }
                Some(self.entries[i].1)
            },
            None => None,
        }
    }

    /// Whether an amount is held for `name`.
    pub fn contains_key(&self, name: &str) -> (found: bool)
        ensures
            found == self@.contains_key(name@),
    {
        self.get(name).is_some()
    }

    /// Sets the amount held for `name`. A new name goes to the end of the
    /// list; a known name keeps its place.
    pub fn insert(&mut self, name: UserName, amount: Amount)
        ensures
            final(self)@ == old(self)@.insert(name@, amount as int),
            final(self).listing() == listing_with(old(self).listing(), name@, amount),
    {
        proof {
            use_type_invariant(&*self);
        }
        let at = self.position(&name);
        let ghost before = self.listing();
        let ghost key = name@;
        let mut entries: Vec<(UserName, Amount)> = Vec::new();
        core::mem::swap(&mut self.entries, &mut entries);
        match at {
            Some(i) => {
                entries.set(i, (name, amount));
                proof {
                    let names = names_of(before);
                    assert(names[i as int] == key);
                    assert(named(entries@) =~= before.update(i as int, (key, amount)));
                    lemma_as_map_update(before, i as int, amount);
                }
            },
            None => {
                entries.push((name, amount));
                proof {
                    assert(named(entries@) =~= before.push((key, amount)));
                    lemma_as_map_push(before, key, amount);
                }
            },
        }
        self.entries = entries;
    }

    /// The entries as they are stored, in order.
    pub fn entries(&self) -> (entries: &Vec<(UserName, Amount)>)
        ensures
            named(entries@) == self.listing(),
            names_of(self.listing()).no_duplicates(),
    {
        proof {
            use_type_invariant(self);
        }
        &self.entries
    }

    /// A map with the same names in the same order, every amount zero.
    pub fn zeroed(&self) -> (zeros: UserAmountMap)
        ensures
            zeros@ == opening(self@.dom()).balances,
            names_of(zeros.listing()) == names_of(self.listing()),
    {
        proof {
            use_type_invariant(self);
        }
        let mut entries: Vec<(UserName, Amount)> = Vec::new();
        let mut i: usize = 0;
        while i < self.entries.len()
            invariant
                i <= self.entries.len(),
                entries.len() == i,
                forall|k: int|
                    0 <= k < i ==> (#[trigger] entries[k]).0@ == self.entries[k].0@ && entries[k].1
                        == 0,
            decreases self.entries.len() - i,
        {
            entries.push((self.entries[i].0.clone(), 0));
            i += 1;
        }
        proof {
            let new = named(entries@);
            let old = self.listing();
            assert(names_of(new) =~= names_of(old));
        }
        UserAmountMap { entries }
    }

    /// These amounts after each has taken the change that `changes` holds
    /// for its name, or `None` where one of them would not be
    /// representable. Names that only `changes` holds are passed over.
    pub fn settled(&self, changes: &UserAmountMap) -> (after: Option<UserAmountMap>)
        ensures
            match after {
                Some(sums) => {
                    &&& sums@ == settle(self@, changes@)
                    &&& names_of(sums.listing()) == names_of(self.listing())
                    &&& forall|u: Name|
                        self@.contains_key(u) && changes@.contains_key(u) ==> representable(
                            #[trigger] sums@[u],
                        )
                },
                None => exists|u: Name|
                    self@.contains_key(u) && changes@.contains_key(u) && !representable(
                        #[trigger] settle(self@, changes@)[u],
                    ),
            },
    {
        proof {
            use_type_invariant(self);
        }
        let ghost old = self.listing();
        let mut entries: Vec<(UserName, Amount)> = Vec::new();
        let mut i: usize = 0;
        while i < self.entries.len()
            invariant
                i <= self.entries.len(),
                entries.len() == i,
                old == self.listing(),
                names_of(old).no_duplicates(),
                forall|k: int|
                    0 <= k < i ==> (#[trigger] entries[k]).0@ == old[k].0 && entries[k].1
                        == settle(self@, changes@)[old[k].0] && (changes@.contains_key(old[k].0)
                        ==> representable(entries[k].1 as int)),
            decreases self.entries.len() - i,
        {
            let name = &self.entries[i].0;
            let held: Amount = self.entries[i].1;
            proof {
                lemma_as_map_entry(old, i as int);
            }
            let sum: Amount = match changes.get(name.as_str()) {
                Some(change) => {
                    match narrow(held as i128 + change as i128) {
                        Some(sum) => sum,
                        None => {
                            assert(!representable(settle(self@, changes@)[old[i as int].0]));
                            return None;
                        },
                    }
                },
                None => held,
            };
            entries.push((name.clone(), sum));
            i += 1;
        }
        proof {
            let new = named(entries@);
            assert(names_of(new) =~= names_of(old));
        }
        Some(UserAmountMap { entries })
    }
}

impl Clone for UserAmountMap {
    /// A copy with the same entries in the same order.
    fn clone(&self) -> (copy: UserAmountMap)
        ensures
            copy@ == self@,
            copy.listing() == self.listing(),
    {
        proof {
            use_type_invariant(self);
        }
        let mut entries: Vec<(UserName, Amount)> = Vec::new();
        let mut i: usize = 0;
        while i < self.entries.len()
            invariant
                i <= self.entries.len(),
                entries.len() == i,
                forall|k: int|
                    0 <= k < i ==> (#[trigger] entries[k]).0@ == self.entries[k].0@ && entries[k].1
                        == self.entries[k].1,
            decreases self.entries.len() - i,
        {
            entries.push((self.entries[i].0.clone(), self.entries[i].1));
            i += 1;
        }
        assert(named(entries@) =~= self.listing());
        UserAmountMap { entries }
    }
}

/// A list after `name` was set to `amount`: replaced in place where the
/// name occurs, added at the end where it does not.
pub open spec fn listing_with(entries: Seq<(Name, Amount)>, name: Name, amount: Amount) -> Seq<
    (Name, Amount),
> {
    if names_of(entries).contains(name) {
        entries.update(names_of(entries).index_of(name), (name, amount))
    } else {
        entries.push((name, amount))
    }
}

/// Replacing the amount of an entry sets the map at that entry's name.
pub proof fn lemma_as_map_update(entries: Seq<(Name, Amount)>, i: int, amount: Amount)
    requires
        names_of(entries).no_duplicates(),
        0 <= i < entries.len(),
    ensures
        names_of(entries.update(i, (entries[i].0, amount))) == names_of(entries),
        as_map(entries.update(i, (entries[i].0, amount))) == as_map(entries).insert(
            entries[i].0,
            amount as int,
        ),
{
    assert(names_of(entries)[i] == entries[i].0);
}

/// Adding an entry under a new name inserts it into the map.
pub proof fn lemma_as_map_push(entries: Seq<(Name, Amount)>, name: Name, amount: Amount)
    requires
        names_of(entries).no_duplicates(),
        !names_of(entries).contains(name),
    ensures
        names_of(entries.push((name, amount))) == names_of(entries).push(name),
        names_of(entries.push((name, amount))).no_duplicates(),
        as_map(entries.push((name, amount))) == as_map(entries).insert(name, amount as int),
{
    let after = entries.push((name, amount));
    let names = names_of(entries);
    assert forall|u: Name| as_map(entries).insert(name, amount as int).contains_key(u) implies
        #[trigger] as_map(after).contains_key(u) by {
        if u != name {
            let at = names.index_of(u);
            assert(names_of(after)[at] == u);
        } else {
            assert(names_of(after)[entries.len() as int] == name);
        }
    }
}

} // verus!
