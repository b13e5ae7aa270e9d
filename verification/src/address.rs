//! Addresses and the table that files one record per address.

use vstd::prelude::*;

verus! {

broadcast use vstd::array::group_array_axioms;

/// An account or a contract on the ledger, named by its 56-character strkey.
///
/// Two addresses are the same exactly when their strkeys are.
#[derive(Clone, Copy, Debug)]
pub struct Address {
    pub strkey: [u8; 56],
}

impl PartialEq for Address {
    fn eq(&self, other: &Self) -> (same: bool) {
        let mut i: usize = 0;
        while i < 56
            invariant
                i <= 56,
                forall|j: int| 0 <= j < i ==> self.strkey[j] == other.strkey[j],
            decreases 56 - i,
        {
            if self.strkey[i] != other.strkey[i] {
                return false;
            }
            i += 1;
        }
        assert(self.strkey =~= other.strkey);
        true
    }
}

impl vstd::std_specs::cmp::PartialEqSpecImpl for Address {
    open spec fn obeys_eq_spec() -> bool {
        true
    }

    open spec fn eq_spec(&self, other: &Self) -> bool {
        *self == *other
    }
}

impl Eq for Address {

}

/// Whether `who` is among `list`.
pub fn lists(list: &Vec<Address>, who: &Address) -> (found: bool)
    ensures
        found == list@.contains(*who),
{
    let mut i: usize = 0;
    while i < list.len()
        invariant
            i <= list.len(),
            forall|j: int| 0 <= j < i ==> list@[j] != *who,
        decreases list.len() - i,
    {
        if list[i] == *who {
            return true;
        }
        i += 1;
    }
    false
}

/// A table with at most one record per address.
#[verifier::reject_recursive_types(V)]
pub struct AddressMap<V> {
    entries: Vec<(Address, V)>,
}

/// The records of a list of entries, by address.
spec fn records<V>(entries: Seq<(Address, V)>) -> Map<Address, V> {
    Map::new(
        |a: Address| exists|i: int| 0 <= i < entries.len() && (#[trigger] entries[i]).0 == a,
        |a: Address|
            entries[choose|i: int| 0 <= i < entries.len() && (#[trigger] entries[i]).0 == a].1,
    )
}

impl<V> View for AddressMap<V> {
    type V = Map<Address, V>;

    closed spec fn view(&self) -> Map<Address, V> {
        records(self.entries@)
    }
}

impl<V> AddressMap<V> {
    /// No address is filed twice.
    pub closed spec fn wf(self) -> bool {
        forall|i: int, j: int|
            0 <= i < j < self.entries@.len() ==> self.entries@[i].0 != self.entries@[j].0
    }

    /// An empty table.
    pub fn new() -> (table: Self)
        ensures
            table.wf(),
            table@ == Map::<Address, V>::empty(),
    {
        let table = AddressMap { entries: Vec::new() };
        assert(table@ =~= Map::<Address, V>::empty());
        table
    }

    /// The place of `key` among the entries.
    fn find(&self, key: &Address) -> (place: Option<usize>)
        ensures
            match place {
                Some(i) => i < self.entries@.len() && self.entries@[i as int].0 == *key,
                None => !self@.contains_key(*key),
            },
    {
        let mut i: usize = 0;
        while i < self.entries.len()
            invariant
                i <= self.entries.len(),
                forall|j: int| 0 <= j < i ==> (#[trigger] self.entries@[j]).0 != *key,
            decreases self.entries.len() - i,
        {
            if self.entries[i].0 == *key {
                return Some(i);
            }
            i += 1;
        }
        None
    }

    proof fn lemma_entry(self, i: int)
        requires
            self.wf(),
            0 <= i < self.entries@.len(),
        ensures
            self@.contains_key(self.entries@[i].0),
            self@[self.entries@[i].0] == self.entries@[i].1,
    {
        let a = self.entries@[i].0;
        let k = choose|k: int|
            0 <= k < self.entries@.len() && (#[trigger] self.entries@[k]).0 == a;
        assert(self.entries@[k].0 == a);
    }

    /// The record filed under `key`, if there is one.
    pub fn get(&self, key: &Address) -> (record: Option<&V>)
        requires
            self.wf(),
        ensures
            match record {
                Some(v) => self@.contains_key(*key) && *v == self@[*key],
                None => !self@.contains_key(*key),
            },
    {
        match self.find(key) {
            Some(i) => {
                proof {
                    self.lemma_entry(i as int);
                }
                Some(&self.entries[i].1)
            },
            None => None,
        }
    }

    /// Files `record` under `key`, in place of what stood there.
    pub fn set(&mut self, key: Address, record: V)
        requires
            old(self).wf(),
        ensures
            final(self).wf(),
            final(self)@ == old(self)@.insert(key, record),
    {
        let ghost before = *self;
        match self.find(&key) {
            Some(i) => {
                self.entries.set(i, (key, record));
                proof {
                    self.lemma_insert(before, key, record, i as int);
                }
            },
            None => {
                self.entries.push((key, record));
                proof {
                    assert forall|j: int| 0 <= j < before.entries@.len() implies (
                    #[trigger] before.entries@[j]).0 != key by {
                        before.lemma_entry(j);
                    }
                    self.lemma_insert(before, key, record, before.entries@.len() as int);
                }
            },
        }
    }

    proof fn lemma_insert(self, before: Self, key: Address, record: V, at: int)
        requires
            before.wf(),
            0 <= at < self.entries@.len(),
            before.entries@.len() <= self.entries@.len() <= before.entries@.len() + 1,
            at < before.entries@.len() ==> self.entries@.len() == before.entries@.len()
                && before.entries@[at].0 == key,
            at == before.entries@.len() || self.entries@.len() == before.entries@.len(),
            self.entries@[at] == (key, record),
            forall|j: int|
                0 <= j < before.entries@.len() && j != at ==> (#[trigger] self.entries@[j])
                    == before.entries@[j],
            forall|j: int|
                0 <= j < before.entries@.len() && j != at ==> (#[trigger] before.entries@[j]).0
                    != key,
        ensures
            self.wf(),
            self@ == before@.insert(key, record),
    {
        assert(self.wf()) by {
            assert forall|i: int, j: int| 0 <= i < j < self.entries@.len() implies self.entries@[i].0
                != self.entries@[j].0 by {
                if i != at {
                    assert(self.entries@[i] == before.entries@[i]);
                }
                if j != at {
                    assert(self.entries@[j] == before.entries@[j]);
                }
            }
        }
        self.lemma_entry(at);
        let after = before@.insert(key, record);
        assert forall|a: Address| self@.contains_key(a) == after.contains_key(a) by {
            if self@.contains_key(a) && a != key {
                let i = choose|i: int|
                    0 <= i < self.entries@.len() && (#[trigger] self.entries@[i]).0 == a;
                assert(self.entries@[i] == before.entries@[i]);
                before.lemma_entry(i);
            }
            if before@.contains_key(a) && a != key {
                let i = choose|i: int|
                    0 <= i < before.entries@.len() && (#[trigger] before.entries@[i]).0 == a;
                assert(self.entries@[i] == before.entries@[i]);
                self.lemma_entry(i);
            }
        }
        assert forall|a: Address| self@.contains_key(a) implies self@[a] == after[a] by {
            if a != key {
                let i = choose|i: int|
                    0 <= i < self.entries@.len() && (#[trigger] self.entries@[i]).0 == a;
                assert(self.entries@[i] == before.entries@[i]);
                before.lemma_entry(i);
                self.lemma_entry(i);
            }
        }
        assert(self@ =~= after);
    }
}

} // verus!
