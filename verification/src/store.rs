use vstd::prelude::*;

verus! {

/// Number of low bits of a key that address the slot; the remaining high
/// bits carry the slot's generation at the time the key was handed out.
pub const INDEX_BITS: u32 = 22;

/// A handle into a `Store<T>`: a packed pair of slot index (low bits) and
/// generation (high bits). Both parts are truncated to their fields when a
/// key is built.
#[derive(PartialEq, Eq, Debug)]
pub struct StoreKey<T> {
    key: u32,
    _marker: core::marker::PhantomData<T>,
}

impl<T> Clone for StoreKey<T> {
    fn clone(&self) -> (r: Self)
        ensures
            r == *self,
    {
        StoreKey { key: self.key, _marker: core::marker::PhantomData }
    }
}

impl<T> Copy for StoreKey<T> {

}

impl<T> StoreKey<T> {
    /// The raw packed value.
    pub closed spec fn key_val(&self) -> u32 {
        self.key
    }

    /// The slot index carried by the key: the low `INDEX_BITS` bits.
    pub open spec fn index_val(&self) -> int {
        (self.key_val() % 0x40_0000) as int
    }

    /// The generation carried by the key: the high bits.
    pub open spec fn generation_val(&self) -> int {
        (self.key_val() / 0x40_0000) as int
    }

    /// Packs `index` and `generation`, truncating each to its field.
    pub fn new(index: u32, generation: u32) -> (r: Self)
        ensures
            r.key_val() == (generation % 0x400) * 0x40_0000 + index % 0x40_0000,
            r.index_val() == index % 0x40_0000,
            r.generation_val() == generation % 0x400,
    {
        let key = (generation << INDEX_BITS) | (index & 0x3F_FFFF);
        proof {
            let g = generation;
            let i = index;
            assert(((g << 22u32) | (i & 0x3F_FFFF)) == (g % 0x400) * 0x40_0000 + i % 0x40_0000
                && ((g << 22u32) | (i & 0x3F_FFFF)) % 0x40_0000 == i % 0x40_0000 && ((g << 22u32)
                | (i & 0x3F_FFFF)) / 0x40_0000 == g % 0x400) by (bit_vector);
        }
        StoreKey { key, _marker: core::marker::PhantomData }
    }

    /// Adopts an arbitrary packed value as a key.
    pub fn from_key(key: u32) -> (r: Self)
        ensures
            r.key_val() == key,
    {
        StoreKey { key, _marker: core::marker::PhantomData }
    }

    /// The raw packed value.
    pub fn id(&self) -> (r: u32)
        ensures
            r == self.key_val(),
    {
        self.key
    }

    /// The slot index part.
    pub fn index(&self) -> (r: u32)
        ensures
            r == self.index_val(),
    {
        let k = self.key;
        proof {
            assert(k & 0x3F_FFFF == k % 0x40_0000) by (bit_vector);
        }
        k & 0x3F_FFFF
    }

    /// The generation part.
    pub fn generation(&self) -> (r: u32)
        ensures
            r == self.generation_val(),
    {
        let k = self.key;
        proof {
            assert(k >> 22u32 == k / 0x40_0000) by (bit_vector);
        }
        self.key >> INDEX_BITS
    }
}

/// A generational arena: slots are addressed by the index part of a key and
/// guarded by a generation counter that is bumped on removal, so that stale
/// keys miss. Removed slots keep their last value until reused, and `len`
/// counts slots whether live or retired.
pub struct Store<T> {
    /// One entry per slot ever allocated.
    items: Vec<T>,
    /// The current generation of each slot.
    generations: Vec<u32>,
    /// Slots available for reuse, oldest first.
    free_indices: std::collections::VecDeque<usize>,
}

impl<T> Store<T> {
    pub closed spec fn items_seq(&self) -> Seq<T> {
        self.items@
    }

    pub closed spec fn generations_seq(&self) -> Seq<u32> {
        self.generations@
    }

    pub closed spec fn free_seq(&self) -> Seq<usize> {
        self.free_indices@
    }

    pub closed spec fn wf(&self) -> bool {
        &&& self.generations@.len() == self.items@.len()
        &&& forall|j: int|
            0 <= j < self.free_indices@.len() ==> (#[trigger] self.free_indices@[j] as int)
                < self.items@.len()
    }

    /// What well-formedness guarantees: one generation per slot, and every
    /// free-list entry addresses an allocated slot.
    pub proof fn lemma_wf_shape(&self)
        requires
            self.wf(),
        ensures
            self.generations_seq().len() == self.items_seq().len(),
            forall|j: int|
                0 <= j < self.free_seq().len() ==> (#[trigger] self.free_seq()[j] as int)
                    < self.items_seq().len(),
    {
    }

    /// Whether `key` currently addresses its slot: the slot's generation
    /// still equals the key's.
    pub open spec fn key_matches(&self, key: StoreKey<T>) -> bool {
        self.generations_seq()[key.index_val()] == key.generation_val()
    }

    pub fn new() -> (r: Self)
        ensures
            r.wf(),
            r.items_seq() == Seq::<T>::empty(),
            r.generations_seq() == Seq::<u32>::empty(),
            r.free_seq() == Seq::<usize>::empty(),
    {
        Self::with_capacity(0)
    }

    /// `capacity` only pre-reserves storage; the store starts empty.
    pub fn with_capacity(capacity: usize) -> (r: Self)
        ensures
            r.wf(),
            r.items_seq() == Seq::<T>::empty(),
            r.generations_seq() == Seq::<u32>::empty(),
            r.free_seq() == Seq::<usize>::empty(),
    {
        Store {
            items: Vec::with_capacity(capacity),
            generations: Vec::with_capacity(capacity),
            free_indices: std::collections::VecDeque::with_capacity(capacity),
        }
    }

    /// Looks up the item addressed by `key`, or `None` when the key is
    /// stale. The key's index part must address an allocated slot.
    pub fn get(&self, key: StoreKey<T>) -> (r: Option<&T>)
        requires
            self.wf(),
            key.index_val() < self.items_seq().len(),
        ensures
            self.key_matches(key) ==> (r matches Some(p) && *p
                == self.items_seq()[key.index_val()]),
            !self.key_matches(key) ==> r is None,
    {
        let index = key.index() as usize;
        if self.generations[index] == key.generation() {
            Some(&self.items[index])
        } else {
            None
        }
    }

    pub fn get_mut(&mut self, key: StoreKey<T>) -> (r: Option<&mut T>)
        requires
            old(self).wf(),
            key.index_val() < old(self).items_seq().len(),
        ensures
            final(self).wf(),
            final(self).generations_seq() == old(self).generations_seq(),
            final(self).free_seq() == old(self).free_seq(),
            old(self).key_matches(key) ==> (r matches Some(p) && *p == old(self).items_seq()[key.index_val()]
                && final(self).items_seq() =~= old(self).items_seq().update(
                key.index_val(),
                *final(p),
            )),
            !old(self).key_matches(key) ==> r is None && final(self).items_seq() == old(
                self,
            ).items_seq(),
    {
        let index = key.index() as usize;
        if self.generations[index] == key.generation() {
            Some(&mut self.items[index])
        } else {
            None
        }
    }

    /// Stores `item` in a reused slot if one is free, else in a new slot,
    /// and returns the key that addresses it.
    pub fn push(&mut self, item: T) -> (r: StoreKey<T>)
        requires
            old(self).wf(),
        ensures
            final(self).wf(),
            old(self).free_seq().len() > 0 ==> ({
                let idx = old(self).free_seq()[0] as int;
                &&& final(self).items_seq() == old(self).items_seq().update(idx, item)
                &&& final(self).generations_seq() == old(self).generations_seq()
                &&& final(self).free_seq() == old(self).free_seq().drop_first()
                &&& r.index_val() == idx % 0x40_0000
                &&& r.generation_val() == old(self).generations_seq()[idx] % 0x400
            }),
            old(self).free_seq().len() == 0 ==> ({
                let idx = old(self).items_seq().len() as int;
                &&& final(self).items_seq() == old(self).items_seq().push(item)
                &&& final(self).generations_seq() == old(self).generations_seq().push(0)
                &&& final(self).free_seq() == old(self).free_seq()
                &&& r.index_val() == idx % 0x40_0000
                &&& r.generation_val() == 0
            }),
    {
        let index = match self.free_indices.pop_front() {
            Some(index) => {
                self.items[index] = item;
                index
            },
            None => {
                self.generations.push(0);
                self.items.push(item);
                self.items.len() - 1
            },
        };
        let generation = self.generations[index];
        proof {
            let i = index as u64;
            assert((i as u32) % 0x40_0000 == i % 0x40_0000) by (bit_vector);
        }
        StoreKey::new(index as u32, generation)
    }

    /// Overwrites the item addressed by `key`; a stale key changes nothing.
    pub fn set(&mut self, key: StoreKey<T>, item: T)
        requires
            old(self).wf(),
            key.index_val() < old(self).items_seq().len(),
        ensures
            final(self).wf(),
            final(self).generations_seq() == old(self).generations_seq(),
            final(self).free_seq() == old(self).free_seq(),
            old(self).key_matches(key) ==> final(self).items_seq() == old(
                self,
            ).items_seq().update(key.index_val(), item),
            !old(self).key_matches(key) ==> final(self).items_seq() == old(self).items_seq(),
    {
        let index = key.index() as usize;
        if self.generations[index] == key.generation() {
            self.items[index] = item;
        }
    }

    /// Retires the slot addressed by `key`: its generation is bumped, so the
    /// key goes stale, and the slot joins the free list. A stale key changes
    /// nothing.
    pub fn remove(&mut self, key: StoreKey<T>)
        requires
            old(self).wf(),
            key.index_val() < old(self).items_seq().len(),
        ensures
            final(self).wf(),
            final(self).items_seq() == old(self).items_seq(),
            old(self).key_matches(key) ==> ({
                &&& final(self).generations_seq() == old(self).generations_seq().update(
                    key.index_val(),
                    (old(self).generations_seq()[key.index_val()] + 1) as u32,
                )
                &&& final(self).free_seq() == old(self).free_seq().push(
                    key.index_val() as usize,
                )
            }),
            !old(self).key_matches(key) ==> final(self).generations_seq() == old(
                self,
            ).generations_seq() && final(self).free_seq() == old(self).free_seq(),
    {
        let index = key.index() as usize;
        if self.generations[index] == key.generation() {
            proof {
                let g = self.generations@[index as int];
                let k = key.key_val();
                assert(k / 0x40_0000 < 0x400) by (bit_vector);
            }
            let bumped = self.generations[index] + 1;
            self.generations[index] = bumped;
            self.free_indices.push_back(index);
        }
    }

    /// Whether `key` still addresses its slot. The key's index part must
    /// address an allocated slot.
    pub fn contains_key(&self, key: StoreKey<T>) -> (r: bool)
        requires
            self.wf(),
            key.index_val() < self.items_seq().len(),
        ensures
            r == self.key_matches(key),
    {
        let index = key.index() as usize;
        self.generations[index] == key.generation()
    }

    /// Borrowing cursor over the stored items, slot by slot; retired slots
    /// still show their last value.
    pub fn values(&self) -> (r: StoreValuesIter<'_, T>)
        ensures
            r.iter_wf(),
            r.remaining() == self.items_seq(),
    {
        StoreValuesIter { store: self, pos: 0 }
    }

    /// Mutable access to the stored items, slot by slot. Writing through the
    /// slice cannot change its length, so the store stays well-formed.
    pub fn values_mut(&mut self) -> (r: &mut [T])
        requires
            old(self).wf(),
        ensures
            r@ == old(self).items_seq(),
            final(self).items_seq() == final(r)@,
            final(self).generations_seq() == old(self).generations_seq(),
            final(self).free_seq() == old(self).free_seq(),
            final(r)@.len() == old(self).items_seq().len() ==> final(self).wf(),
    {
        self.items.as_mut_slice()
    }

    /// Borrowing cursor over `(key, item)` pairs, slot by slot, each key
    /// carrying the slot's current generation.
    pub fn iter(&self) -> (r: StoreIter<'_, T>)
        requires
            self.wf(),
        ensures
            r.iter_wf(),
            r.store_of() == *self,
            r.position() == 0,
    {
        StoreIter { store: self, pos: 0 }
    }

    /// Number of slots ever allocated, live or retired.
    pub fn len(&self) -> (r: usize)
        ensures
            r == self.items_seq().len(),
    {
        self.items.len()
    }

    pub fn is_empty(&self) -> (r: bool)
        ensures
            r == (self.items_seq().len() == 0),
    {
        self.items.is_empty()
    }

    /// Discards every slot, key and free-list entry.
    pub fn clear(&mut self)
        ensures
            final(self).wf(),
            final(self).items_seq() == Seq::<T>::empty(),
            final(self).generations_seq() == Seq::<u32>::empty(),
            final(self).free_seq() == Seq::<usize>::empty(),
    {
        self.items.clear();
        self.generations.clear();
        self.free_indices.clear();
    }
}

/// Borrowing cursor over a store's items.
pub struct StoreValuesIter<'a, T> {
    store: &'a Store<T>,
    pos: usize,
}

impl<'a, T> StoreValuesIter<'a, T> {
    pub closed spec fn iter_wf(&self) -> bool {
        self.pos <= self.store.items_seq().len()
    }

    /// The items the cursor has not yet yielded, in slot order.
    pub closed spec fn remaining(&self) -> Seq<T> {
        self.store.items_seq().subrange(
            self.pos as int,
            self.store.items_seq().len() as int,
        )
    }

    pub fn next(&mut self) -> (r: Option<&'a T>)
        requires
            old(self).iter_wf(),
        ensures
            final(self).iter_wf(),
            old(self).remaining().len() == 0 ==> r is None && final(self).remaining() == old(
                self,
            ).remaining(),
            old(self).remaining().len() > 0 ==> (r matches Some(p) && *p == old(
                self,
            ).remaining()[0] && final(self).remaining() == old(self).remaining().drop_first()),
    {
        if self.pos >= self.store.items.len() {
            return None;
        }
        let r = &self.store.items[self.pos];
        self.pos = self.pos + 1;
        proof {
            assert(final(self).remaining() =~= old(self).remaining().drop_first());
        }
        Some(r)
    }
}

/// Borrowing cursor over a store's `(key, item)` pairs.
pub struct StoreIter<'a, T> {
    store: &'a Store<T>,
    pos: usize,
}

impl<'a, T> StoreIter<'a, T> {
    pub closed spec fn iter_wf(&self) -> bool {
        self.pos <= self.store.items_seq().len() && self.store.wf()
    }

    pub closed spec fn store_of(&self) -> Store<T> {
        *self.store
    }

    pub closed spec fn position(&self) -> int {
        self.pos as int
    }

    pub fn next(&mut self) -> (r: Option<(StoreKey<T>, &'a T)>)
        requires
            old(self).iter_wf(),
        ensures
            final(self).iter_wf(),
            final(self).store_of() == old(self).store_of(),
            old(self).position() >= old(self).store_of().items_seq().len() ==> r is None
                && final(self).position() == old(self).position(),
            old(self).position() < old(self).store_of().items_seq().len() ==> (r matches Some(pair)
                && final(self).position() == old(self).position() + 1
                && *pair.1 == old(self).store_of().items_seq()[old(self).position()]
                && pair.0.index_val() == old(self).position() % 0x40_0000
                && pair.0.generation_val()
                    == old(self).store_of().generations_seq()[old(self).position()] % 0x400),
    {
        if self.pos >= self.store.items.len() {
            return None;
        }
        let item = &self.store.items[self.pos];
        let generation = self.store.generations[self.pos];
        proof {
            let i = self.pos as u64;
            assert((i as u32) % 0x40_0000 == i % 0x40_0000) by (bit_vector);
        }
        let key = StoreKey::new(self.pos as u32, generation);
        self.pos = self.pos + 1;
        Some((key, item))
    }
}

} // verus!
