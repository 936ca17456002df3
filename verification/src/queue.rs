use vstd::prelude::*;

verus! {

/// Whether `n` is a positive power of two.
pub open spec fn power_of_two(n: int) -> bool
    decreases n,
{
    if n <= 0 {
        false
    } else if n == 1 {
        true
    } else {
        n % 2 == 0 && power_of_two(n / 2)
    }
}

/// A fixed-capacity FIFO ring queue whose capacity must be a power of two,
/// so that wrapping a position is a single mask of its low bits. The slot
/// map is the same `(head + p) mod N` as in `ArrayQueue`, written without
/// `%`.
pub struct Queue<T, const N: usize> {
    data: Vec<Option<T>>,
    /// Physical slot of the item to be removed next.
    head: usize,
    /// Number of stored items.
    count: usize,
}

impl<T, const N: usize> View for Queue<T, N> {
    type V = Seq<T>;

    closed spec fn view(&self) -> Seq<T> {
        Seq::new(self.count as nat, |i: int| self.data@[self.slot_of(i)]->0)
    }
}

impl<T, const N: usize> Queue<T, N> {
    /// Physical slot holding the `i`-th element from the front.
    closed spec fn slot_of(&self, i: int) -> int {
        if self.head + i < N {
            self.head + i
        } else {
            self.head + i - N
        }
    }

    /// Whether physical slot `s` holds one of the `count` live elements.
    closed spec fn occupied(&self, s: int) -> bool {
        if self.head + self.count <= N {
            self.head <= s < self.head + self.count
        } else {
            self.head <= s < N || 0 <= s < self.head + self.count - N
        }
    }

    pub closed spec fn wf(&self) -> bool {
        &&& self.data@.len() == N
        &&& self.count <= N
        &&& self.head < N
        &&& power_of_two(N as int)
        &&& forall|s: int| self.occupied(s) ==> #[trigger] self.data@[s] is Some
    }

    /// The capacity must be a power of two; any other size is a construction
    /// error, excluded here by contract.
    pub fn new() -> (r: Self)
        requires
            power_of_two(N as int),
        ensures
            r.wf(),
            r@ == Seq::<T>::empty(),
    {
        let mut data: Vec<Option<T>> = Vec::new();
        let mut i: usize = 0;
        while i < N
            invariant
                i <= N,
                data@.len() == i,
            decreases N - i,
        {
            data.push(None);
            i = i + 1;
        }
        let r = Queue { data, head: 0, count: 0 };
        proof {
            assert(r@ =~= Seq::<T>::empty());
        }
        r
    }

    pub fn len(&self) -> (r: usize)
        requires
            self.wf(),
        ensures
            r == self@.len(),
            r <= N,
    {
        self.count
    }

    pub fn is_empty(&self) -> (r: bool)
        ensures
            r == (self@.len() == 0),
    {
        self.count == 0
    }

    /// Removes every element; each one is destructed as its slot is vacated.
    pub fn clear(&mut self)
        requires
            old(self).wf(),
        ensures
            final(self).wf(),
            final(self)@ == Seq::<T>::empty(),
    {
        let mut i: usize = 0;
        while i < self.data.len()
            invariant
                self.data@.len() == N,
            decreases self.data@.len() - i,
        {
            self.data[i] = None;
            i = i + 1;
        }
        self.head = 0;
        self.count = 0;
        proof {
            assert(self@ =~= Seq::<T>::empty());
        }
    }

    /// Exec mirror of `slot_of`.
    fn slot_index(&self, i: usize) -> (r: usize)
        requires
            self.wf(),
            i <= self.count,
            i < N || self.count < N,
        ensures
            r == self.slot_of(i as int),
            r < N,
    {
        let gap = N - self.head;
        if i < gap {
            self.head + i
        } else {
            i - gap
        }
    }

    pub fn get(&self, index: usize) -> (r: Option<&T>)
        requires
            self.wf(),
        ensures
            index < self@.len() ==> (r matches Some(p) && *p == self@[index as int]),
            index >= self@.len() ==> r is None,
    {
        if index >= self.count {
            return None;
        }
        let slot = self.slot_index(index);
        proof {
            assert(self.occupied(slot as int));
            assert(self.data@[slot as int] is Some);
        }
        self.data[slot].as_ref()
    }

    /// Access by index with the bound as a precondition rather than a
    /// run-time check.
    pub fn get_unchecked(&self, index: usize) -> (r: &T)
        requires
            self.wf(),
            index < self@.len(),
        ensures
            *r == self@[index as int],
    {
        let slot = self.slot_index(index);
        proof {
            assert(self.occupied(slot as int));
            assert(self.data@[slot as int] is Some);
        }
        match self.data[slot].as_ref() {
            Some(p) => p,
            None => vstd::pervasive::unreached(),
        }
    }

    pub fn get_mut(&mut self, index: usize) -> (r: Option<&mut T>)
        requires
            old(self).wf(),
        ensures
            final(self).wf(),
            index < old(self)@.len() ==> (r matches Some(p) && *p == old(self)@[index as int]
                && final(self)@ =~= old(self)@.update(index as int, *final(p))),
            index >= old(self)@.len() ==> r is None && final(self)@ == old(self)@,
    {
        if index >= self.count {
            return None;
        }
        let slot = self.slot_index(index);
        proof {
            assert(self.occupied(slot as int));
        }
        self.data[slot].as_mut()
    }

    pub fn get_unchecked_mut(&mut self, index: usize) -> (r: &mut T)
        requires
            old(self).wf(),
            index < old(self)@.len(),
        ensures
            final(self).wf(),
            *r == old(self)@[index as int],
            final(self)@ =~= old(self)@.update(index as int, *final(r)),
    {
        let slot = self.slot_index(index);
        proof {
            assert(self.occupied(slot as int));
        }
        let opt = self.data[slot].as_mut();
        match opt {
            Some(p) => p,
            None => vstd::pervasive::unreached(),
        }
    }

    /// A borrowing cursor over the elements, front to back — the contents in
    /// removal order.
    pub fn iter(&self) -> (r: QueueIter<'_, T, N>)
        requires
            self.wf(),
        ensures
            r.iter_wf(),
            r.remaining() == self@,
    {
        QueueIter { queue: self, pos: 0 }
    }

    /// Appends `value` at the back; the queue must not be full.
    pub fn push_back(&mut self, value: T)
        requires
            old(self).wf(),
            old(self)@.len() < N,
        ensures
            final(self).wf(),
            final(self)@ == old(self)@.push(value),
    {
        let slot = self.slot_index(self.count);
        self.data[slot] = Some(value);
        self.count = self.count + 1;
        proof {
            assert(self@ =~= old(self)@.push(value));
        }
    }

    /// Removes and returns the front element, or `None` when empty.
    pub fn pop_front(&mut self) -> (r: Option<T>)
        requires
            old(self).wf(),
        ensures
            final(self).wf(),
            old(self)@.len() == 0 ==> r is None && final(self)@ == old(self)@,
            old(self)@.len() > 0 ==> (r matches Some(v) && v == old(self)@[0] && final(self)@ == old(
                self,
            )@.drop_first()),
    {
        if self.count == 0 {
            return None;
        }
        let slot = self.head;
        proof {
            assert(self.occupied(slot as int));
            assert(self.data@[slot as int] is Some);
        }
        let taken = (&mut self.data[slot]).take();
        self.head = if self.head + 1 == N {
            0
        } else {
            self.head + 1
        };
        self.count = self.count - 1;
        proof {
            assert(self@ =~= old(self)@.drop_first());
        }
        Some(taken.unwrap())
    }
}

/// Borrowing cursor over a `Queue`, yielding the elements front to back.
pub struct QueueIter<'a, T, const N: usize> {
    queue: &'a Queue<T, N>,
    pos: usize,
}

impl<'a, T, const N: usize> QueueIter<'a, T, N> {
    pub closed spec fn iter_wf(&self) -> bool {
        self.queue.wf() && self.pos <= self.queue@.len()
    }

    /// The elements the cursor has not yet yielded, in removal order.
    pub closed spec fn remaining(&self) -> Seq<T> {
        self.queue@.subrange(self.pos as int, self.queue@.len() as int)
    }

    pub fn next(&mut self) -> (r: Option<&'a T>)
        requires
            old(self).iter_wf(),
        ensures
            final(self).iter_wf(),
            old(self).remaining().len() == 0 ==> r is None && final(self).remaining() == old(
                self,
            ).remaining(),
            old(self).remaining().len() > 0 ==> (r matches Some(p) && *p == old(
                self,
            ).remaining()[0] && final(self).remaining() == old(self).remaining().drop_first()),
    {
        if self.pos >= self.queue.len() {
            return None;
        }
        let r = self.queue.get_unchecked(self.pos);
        self.pos = self.pos + 1;
        proof {
            assert(final(self).remaining() =~= old(self).remaining().drop_first());
        }
        Some(r)
    }
}

} // verus!
