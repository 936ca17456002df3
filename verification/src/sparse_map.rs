use vstd::prelude::*;

verus! {

/// One entry of the indirection table: either unused, or the position of the
/// key's item in the packed storage. An absent entry reads as out of bounds.
#[derive(Clone, Copy)]
pub enum SlotIndex {
    Free,
    Used(usize),
    OutOfBounds,
}

impl SlotIndex {
    /// The packed position of an entry known to be in use; being in use is a
    /// precondition rather than a run-time panic.
    pub fn unwrap(self) -> (r: usize)
        requires
            self is Used,
        ensures
            r == self->0,
    {
        match self {
            SlotIndex::Used(index) => index,
            _ => vstd::pervasive::unreached(),
        }
    }
}

/// A map from small integer keys to values, with packed value storage and an
/// indirection vector indexed by key. Lookups are a double index, insertion
/// and removal keep the values packed by moving the last item.
pub struct SparseMap<T> {
    /// The stored items, packed.
    items: Vec<T>,
    /// The key of each stored item, parallel to `items`.
    keys: Vec<usize>,
    /// The indirection layer: indexed by key, giving the packed position.
    indices: Vec<SlotIndex>,
}

impl<T> View for SparseMap<T> {
    type V = Map<int, T>;

    closed spec fn view(&self) -> Map<int, T> {
        Map::new(
            |k: int| 0 <= k < self.indices@.len() && self.indices@[k] is Used,
            |k: int| self.items@[self.indices@[k]->0 as int],
        )
    }
}

impl<T> SparseMap<T> {
    /// The packed keys, in storage order.
    pub closed spec fn packed_keys(&self) -> Seq<usize> {
        self.keys@
    }

    pub closed spec fn wf(&self) -> bool {
        &&& self.items@.len() == self.keys@.len()
        &&& forall|j: int|
            0 <= j < self.keys@.len() ==> (#[trigger] self.keys@[j] as int)
                < self.indices@.len() && self.indices@[self.keys@[j] as int] == SlotIndex::Used(
                j as usize,
            )
        &&& forall|k: int|
            0 <= k < self.indices@.len() && (#[trigger] self.indices@[k]) is Used ==> (
            self.indices@[k]->0 as int) < self.keys@.len() && (self.keys@[self.indices@[k]->0 as int]
                as int) == k
    }

    pub fn new() -> (r: Self)
        ensures
            r.wf(),
            r@ == Map::<int, T>::empty(),
    {
        Self::with_capacity(0)
    }

    /// `capacity` only pre-reserves storage; the map starts empty.
    pub fn with_capacity(capacity: usize) -> (r: Self)
        ensures
            r.wf(),
            r@ == Map::<int, T>::empty(),
    {
        let r = SparseMap {
            items: Vec::with_capacity(capacity),
            keys: Vec::with_capacity(capacity),
            indices: Vec::new(),
        };
        proof {
            assert(r@ =~= Map::<int, T>::empty());
        }
        r
    }

    pub fn len(&self) -> (r: usize)
        requires
            self.wf(),
        ensures
            r == self@.dom().len(),
            r == self.packed_keys().len(),
    {
        proof {
            self.lemma_cardinality();
        }
        self.items.len()
    }

    pub fn is_empty(&self) -> (r: bool)
        requires
            self.wf(),
        ensures
            r == (self@.dom() == Set::<int>::empty()),
    {
        proof {
            self.lemma_cardinality();
            if self.items@.len() == 0 {
                assert(self@.dom() =~= Set::<int>::empty());
            } else {
                assert(self@.dom().contains(self.keys@[0] as int));
            }
        }
        self.items.is_empty()
    }

    /// The set of present keys is exactly the set of packed keys, so the
    /// packed storage length is the map's finite cardinality.
    pub proof fn lemma_cardinality(&self)
        requires
            self.wf(),
        ensures
            self@.dom().len() == self.packed_keys().len(),
            self@.dom().finite(),
    {
        assert(self.keys@.len() <= usize::MAX) by {
            assert(self.keys@.len() == vstd::std_specs::vec::spec_vec_len(&self.keys));
        }
        let kseq = self.keys@.map_values(|k: usize| k as int);
        assert forall|a: int, b: int|
            0 <= a < kseq.len() && 0 <= b < kseq.len() && a != b implies kseq[a] != kseq[b] by {
            if self.keys@[a] == self.keys@[b] {
                assert(self.indices@[self.keys@[a] as int] == SlotIndex::Used(a as usize));
                assert(self.indices@[self.keys@[b] as int] == SlotIndex::Used(b as usize));
            }
        }
        kseq.unique_seq_to_set();
        vstd::seq_lib::seq_to_set_is_finite(kseq);
        assert forall|k: int| self@.dom().contains(k) implies kseq.to_set().contains(k) by {
            let j = self.indices@[k]->0 as int;
            assert(kseq[j] == k);
        }
        assert forall|k: int| kseq.to_set().contains(k) implies self@.dom().contains(k) by {
            let j = choose|j: int| 0 <= j < kseq.len() && kseq[j] == k;
            assert(self.indices@[self.keys@[j] as int] == SlotIndex::Used(j as usize));
        }
        assert(self@.dom() =~= kseq.to_set());
    }

    /// Resolves `key` through the indirection layer, treating keys beyond
    /// the table as out of bounds.
    fn get_index(&self, key: usize) -> (r: SlotIndex)
        ensures
            r == (if key < self.indices@.len() {
                self.indices@[key as int]
            } else {
                SlotIndex::OutOfBounds
            }),
    {
        if key >= self.indices.len() {
            SlotIndex::OutOfBounds
        } else {
            self.indices[key]
        }
    }

    pub fn get(&self, key: usize) -> (r: Option<&T>)
        requires
            self.wf(),
        ensures
            self@.dom().contains(key as int) ==> (r matches Some(p) && *p == self@[key as int]),
            !self@.dom().contains(key as int) ==> r is None,
    {
        match self.get_index(key) {
            SlotIndex::Used(index) => Some(&self.items[index]),
            _ => None,
        }
    }

    pub fn get_mut(&mut self, key: usize) -> (r: Option<&mut T>)
        requires
            old(self).wf(),
        ensures
            final(self).wf(),
            final(self).packed_keys() == old(self).packed_keys(),
            old(self)@.dom().contains(key as int) ==> (r matches Some(p) && *p == old(self)@[key
                as int] && final(self)@ =~= old(self)@.insert(key as int, *final(p))),
            !old(self)@.dom().contains(key as int) ==> r is None && final(self)@ == old(self)@,
    {
        match self.get_index(key) {
            SlotIndex::Used(index) => {
                let r = Some(&mut self.items[index]);
                r
            },
            _ => None,
        }
    }

    /// Inserts `item` under `key`, overwriting any previous value; the
    /// indirection table grows as needed to reach `key`. A fresh key is
    /// appended to the packed keys, so the length grows by one exactly then.
    pub fn insert(&mut self, key: usize, item: T)
        requires
            old(self).wf(),
        ensures
            final(self).wf(),
            final(self)@ =~= old(self)@.insert(key as int, item),
            old(self)@.dom().contains(key as int) ==> final(self).packed_keys() == old(
                self,
            ).packed_keys(),
            !old(self)@.dom().contains(key as int) ==> final(self).packed_keys() == old(
                self,
            ).packed_keys().push(key),
    {
        match self.get_index(key) {
            SlotIndex::Used(index) => {
                self.items[index] = item;
                proof {
                    assert(self@ =~= old(self)@.insert(key as int, item));
                }
            },
            SlotIndex::Free => {
                self.indices[key] = SlotIndex::Used(self.items.len());
                self.items.push(item);
                self.keys.push(key);
                proof {
                    assert(self@ =~= old(self)@.insert(key as int, item));
                }
            },
            SlotIndex::OutOfBounds => {
                while self.indices.len() <= key
                    invariant
                        self.items == old(self).items,
                        self.keys == old(self).keys,
                        old(self).indices@.len() <= self.indices@.len(),
                        forall|k: int|
                            0 <= k < self.indices@.len() ==> #[trigger] self.indices@[k] == (if k
                                < old(self).indices@.len() {
                                old(self).indices@[k]
                            } else {
                                SlotIndex::Free
                            }),
                    decreases key - self.indices@.len() + 1,
                {
                    self.indices.push(SlotIndex::Free);
                }
                self.indices[key] = SlotIndex::Used(self.items.len());
                self.items.push(item);
                self.keys.push(key);
                proof {
                    assert(self@ =~= old(self)@.insert(key as int, item));
                }
            },
        }
    }

    /// Removes `key`'s item, filling its packed slot with the last item, so
    /// the packed storage shrinks by one exactly when the key was present.
    pub fn remove(&mut self, key: usize) -> (r: Option<T>)
        requires
            old(self).wf(),
        ensures
            final(self).wf(),
            old(self)@.dom().contains(key as int) ==> (r matches Some(v) && v == old(self)@[key
                as int] && final(self)@ =~= old(self)@.remove(key as int)
                && final(self).packed_keys().len() == old(self).packed_keys().len() - 1),
            !old(self)@.dom().contains(key as int) ==> r is None && final(self)@ == old(self)@
                && final(self).packed_keys() == old(self).packed_keys(),
    {
        match self.get_index(key) {
            SlotIndex::Used(index) => {
                let item = self.items.swap_remove(index);
                self.keys.swap_remove(index);
                self.indices[key] = SlotIndex::Free;
                if index < self.keys.len() {
                    let moved_key = self.keys[index];
                    self.indices[moved_key] = SlotIndex::Used(index);
                }
                proof {
                    assert(self@ =~= old(self)@.remove(key as int));
                }
                Some(item)
            },
            _ => None,
        }
    }

    pub fn contains_key(&self, key: usize) -> (r: bool)
        requires
            self.wf(),
        ensures
            r == self@.dom().contains(key as int),
    {
        match self.get_index(key) {
            SlotIndex::Used(_) => true,
            _ => false,
        }
    }

    /// The stored items, packed, parallel to `keys()`.
    pub fn values(&self) -> (r: &[T])
        requires
            self.wf(),
        ensures
            r@.len() == self.packed_keys().len(),
            forall|j: int|
                0 <= j < r@.len() ==> #[trigger] r@[j] == self@[self.packed_keys()[j] as int],
    {
        proof {
            assert(self.keys@.len() <= usize::MAX) by {
                assert(self.keys@.len() == vstd::std_specs::vec::spec_vec_len(&self.keys));
            }
            assert forall|j: int|
                0 <= j < self.items@.len() implies self.items@[j] == self@[self.keys@[j] as int] by {
                assert(self.indices@[self.keys@[j] as int] == SlotIndex::Used(j as usize));
            }
        }
        self.items.as_slice()
    }

    /// Mutable access to the stored items, packed, parallel to `keys()`.
    /// Writing through the slice cannot change its length, so the map stays
    /// well-formed with each key mapped to its updated item.
    pub fn values_mut(&mut self) -> (r: &mut [T])
        requires
            old(self).wf(),
        ensures
            r@.len() == old(self).packed_keys().len(),
            forall|j: int|
                0 <= j < r@.len() ==> #[trigger] r@[j] == old(self)@[old(self).packed_keys()[j]
                    as int],
            final(self).packed_keys() == old(self).packed_keys(),
            final(r)@.len() == r@.len() ==> final(self).wf()
                && final(self)@.dom() =~= old(self)@.dom()
                && (forall|j: int|
                    0 <= j < r@.len()
                        ==> final(self)@[old(self).packed_keys()[j] as int] == final(r)@[j]),
    {
        proof {
            assert(self.keys@.len() <= usize::MAX) by {
                assert(self.keys@.len() == vstd::std_specs::vec::spec_vec_len(&self.keys));
            }
            assert forall|j: int|
                0 <= j < self.items@.len() implies self.items@[j] == self@[self.keys@[j] as int] by {
                assert(self.indices@[self.keys@[j] as int] == SlotIndex::Used(j as usize));
            }
        }
        self.items.as_mut_slice()
    }

    /// The keys of the stored items, packed, parallel to `values()`. Each
    /// appears once and is present in the map.
    pub fn keys(&self) -> (r: &[usize])
        requires
            self.wf(),
        ensures
            r@ == self.packed_keys(),
            r@.no_duplicates(),
            forall|j: int| 0 <= j < r@.len() ==> self@.dom().contains(#[trigger] r@[j] as int),
    {
        proof {
            assert(self.keys@.len() <= usize::MAX) by {
                assert(self.keys@.len() == vstd::std_specs::vec::spec_vec_len(&self.keys));
            }
            assert forall|a: int, b: int|
                0 <= a < self.keys@.len() && 0 <= b < self.keys@.len() && a
                    != b implies self.keys@[a] != self.keys@[b] by {
                if self.keys@[a] == self.keys@[b] {
                    assert(self.indices@[self.keys@[a] as int] == SlotIndex::Used(a as usize));
                    assert(self.indices@[self.keys@[b] as int] == SlotIndex::Used(b as usize));
                }
            }
        }
        self.keys.as_slice()
    }

    pub fn clear(&mut self)
        ensures
            final(self).wf(),
            final(self)@ == Map::<int, T>::empty(),
    {
        self.items.clear();
        self.keys.clear();
        self.indices.clear();
        proof {
            assert(self@ =~= Map::<int, T>::empty());
        }
    }
}

} // verus!
