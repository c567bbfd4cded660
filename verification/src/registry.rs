//! A table of named items: the items in the order they were added, found
//! again by name through an index map.

use vstd::prelude::*;

use crate::index_map::{index_map_contains_key, index_map_entries, index_map_get, index_map_insert, index_map_new, ByteIndexMap};

verus! {

/// Named items in the order they were added; each name occurs once.
pub struct Registry<T> {
    index: ByteIndexMap,
    items: Vec<T>,
    names: Ghost<Seq<Seq<u8>>>,
}

impl<T> Registry<T> {
    /// The names of the items, in the order they were added.
    pub closed spec fn names(&self) -> Seq<Seq<u8>> {
        self.names@
    }

    /// The items, in the order they were added.
    pub closed spec fn items(&self) -> Seq<T> {
        self.items@
    }

    /// Each name with its item.
    pub closed spec fn map(&self) -> Map<Seq<u8>, T> {
        Map::new(
            |k: Seq<u8>| index_map_entries(self.index).dom().contains(k),
            |k: Seq<u8>| self.items@[index_map_entries(self.index)[k] as int],
        )
    }

    pub closed spec fn wf(&self) -> bool {
        &&& self.names@.len() == self.items@.len()
        &&& self.names@.no_duplicates()
        &&& forall|k: Seq<u8>| #[trigger]
            index_map_entries(self.index).dom().contains(k) <==> self.names@.contains(k)
        &&& forall|i: int|
            0 <= i < self.names@.len() ==> #[trigger] index_map_entries(self.index)[self.names@[i]]
                == i
    }

    /// The facts about a well-formed registry that its users need.
    pub proof fn lemma_wf(&self)
        requires
            self.wf(),
        ensures
            self.names().len() == self.items().len(),
            self.names().no_duplicates(),
            forall|k: Seq<u8>| #[trigger] self.map().dom().contains(k) <==> self.names().contains(k),
            forall|i: int|
                0 <= i < self.names().len() ==> #[trigger] self.map()[self.names()[i]]
                    == self.items()[i],
            self.map().dom().finite(),
            self.map().len() == self.items().len(),
    {
        assert forall|i: int| 0 <= i < self.names().len() implies #[trigger] self.map()[self.names()[i]]
            == self.items()[i] by {
            assert(self.names@.contains(self.names@[i]));
        }
        assert(self.map().dom() =~= self.names@.to_set());
        vstd::seq_lib::seq_to_set_is_finite(self.names@);
        self.names@.unique_seq_to_set();
    }

    pub fn new() -> (r: Self)
        ensures
            r.wf(),
            r.names() == Seq::<Seq<u8>>::empty(),
            r.items() == Seq::<T>::empty(),
            r.map() == Map::<Seq<u8>, T>::empty(),
    {
        let r = Registry { index: index_map_new(), items: Vec::new(), names: Ghost(Seq::empty()) };
        assert(r.map() =~= Map::<Seq<u8>, T>::empty());
        r
    }

    /// Returns whether an item is stored under `name`.
    pub fn contains(&self, name: &Vec<u8>) -> (r: bool)
        ensures
            r == self.map().dom().contains(name@),
    {
        index_map_contains_key(&self.index, name)
    }

    /// Returns the item stored under `name`, where there is one.
    pub fn get(&self, name: &Vec<u8>) -> (r: Option<&T>)
        requires
            self.wf(),
        ensures
            r is Some <==> self.map().dom().contains(name@),
            r matches Some(t) ==> *t == self.map()[name@],
    {
        match index_map_get(&self.index, name) {
            Some(i) => {
                proof {
                    assert(self.names@.contains(name@));
                    let j = choose|j: int| 0 <= j < self.names@.len() && self.names@[j] == name@;
                    assert(index_map_entries(self.index)[self.names@[j]] == j);
                }
                Some(&self.items[i])
            },
            None => None,
        }
    }

    /// Returns the number of items.
    pub fn len(&self) -> (r: usize)
        ensures
            r == self.items().len(),
    {
        self.items.len()
    }

    /// Returns the items, in the order they were added.
    pub fn as_vec(&self) -> (r: &Vec<T>)
        ensures
            r@ == self.items(),
    {
        &self.items
    }

    /// Stores `item` under `name`. Where an item is already stored under
    /// `name`, it is replaced in its place and `true` is returned; else the
    /// item is added last and `false` is returned.
    pub fn insert(&mut self, name: Vec<u8>, item: T) -> (r: bool)
        requires
            old(self).wf(),
        ensures
            final(self).wf(),
            r == old(self).map().dom().contains(name@),
            final(self).map() == old(self).map().insert(name@, item),
            !r ==> final(self).names() == old(self).names().push(name@),
            !r ==> final(self).items() == old(self).items().push(item),
            r ==> final(self).names() == old(self).names(),
    {
        let ghost old_map = self.map();
        let ghost key = name@;
        let len = self.items.len();
        match index_map_get(&self.index, &name) {
            Some(i) => {
                proof {
                    assert(self.names@.contains(key));
                    let j = choose|j: int| 0 <= j < self.names@.len() && self.names@[j] == key;
                    assert(index_map_entries(self.index)[self.names@[j]] == j);
                }
                self.items.set(i, item);
                let ghost fin = self.map();
                assert forall|i2: int|
                    0 <= i2 < self.names@.len() implies #[trigger] index_map_entries(self.index)[self.names@[i2]]
                        == i2 by {}
                assert(fin =~= old_map.insert(key, item)) by {
                    assert forall|k: Seq<u8>| #[trigger] fin.dom().contains(k) implies fin[k] == old_map.insert(key, item)[k] by {
                        if k != key {
                            assert(self.names@.contains(k));
                            let j = choose|j: int| 0 <= j < self.names@.len() && self.names@[j] == k;
                            assert(index_map_entries(self.index)[self.names@[j]] == j);
                            assert(j != i);
                        }
                    }
                }
                true
            },
            None => {
                proof {
                    assert(!self.names@.contains(key));
                }
                let ghost old_names = self.names@;
                let ghost old_entries = index_map_entries(self.index);
                let _ = index_map_insert(&mut self.index, name, len);
                self.items.push(item);
                self.names = Ghost(self.names@.push(key));
                proof {
                    let entries = index_map_entries(self.index);
                    assert forall|k: Seq<u8>| #[trigger] entries.dom().contains(k) <==> self.names@.contains(k) by {
                        if k == key {
                            assert(self.names@[len as int] == key);
                        } else if old_names.contains(k) {
                            let j = choose|j: int| 0 <= j < old_names.len() && old_names[j] == k;
                            assert(self.names@[j] == k);
                        } else if self.names@.contains(k) {
                            let j = choose|j: int| 0 <= j < self.names@.len() && self.names@[j] == k;
                            assert(j < old_names.len());
                            assert(old_names.contains(k));
                        }
                    }
                    assert forall|i2: int| 0 <= i2 < self.names@.len() implies #[trigger] entries[self.names@[i2]] == i2 by {
                        if i2 < old_names.len() {
                            assert(old_names[i2] != key);
                        }
                    }
                    assert(self.names@.no_duplicates()) by {
                        assert forall|a: int, b: int| 0 <= a < self.names@.len() && 0 <= b < self.names@.len() && a != b
                            implies self.names@[a] != self.names@[b] by {
                            if a < old_names.len() && b < old_names.len() {
                            } else if a < old_names.len() {
                                assert(old_names.contains(old_names[a]));
                            } else {
                                assert(old_names.contains(old_names[b]));
                            }
                        }
                    }
                    let fin = self.map();
                    assert(fin =~= old_map.insert(key, item)) by {
                        assert forall|k: Seq<u8>| #[trigger] fin.dom().contains(k) implies fin[k] == old_map.insert(key, item)[k] by {
                            if k != key {
                                assert(old_entries.dom().contains(k));
                                assert(old_names.contains(k));
                                let j = choose|j: int| 0 <= j < old_names.len() && old_names[j] == k;
                                assert(old_entries[old_names[j]] == j);
                            }
                        }
                    }
                }
                false
            },
        }
    }
}

} // verus!
