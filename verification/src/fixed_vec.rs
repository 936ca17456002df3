use vstd::prelude::*;

verus! {

/// A vector with a fixed capacity `N`. Elements live in a heap buffer that
/// never holds more than `N` of them; pushing past the capacity is ruled out
/// by contract rather than by a run-time panic.
pub struct FixedVec<T, const N: usize> {
    data: Vec<T>,
}

impl<T, const N: usize> View for FixedVec<T, N> {
    type V = Seq<T>;

    closed spec fn view(&self) -> Seq<T> {
        self.data@
    }
}

/// Borrowing cursor over a `FixedVec`, yielding the elements front to back.
pub struct FixedVecIter<'a, T, const N: usize> {
    vec: &'a FixedVec<T, N>,
    pos: usize,
}

impl<T, const N: usize> FixedVec<T, N> {
    /// The stored elements never exceed the capacity.
    pub closed spec fn wf(&self) -> bool {
        self.data@.len() <= N
    }

    pub fn new() -> (r: Self)
        ensures
            r.wf(),
            r@ == Seq::<T>::empty(),
    {
        FixedVec { data: Vec::new() }
    }

    pub fn clear(&mut self)
        ensures
            final(self).wf(),
            final(self)@ == Seq::<T>::empty(),
    {
        self.data.clear();
    }

    pub fn len(&self) -> (r: usize)
        ensures
            r == self@.len(),
    {
        self.data.len()
    }

    pub fn is_empty(&self) -> (r: bool)
        ensures
            r == (self@.len() == 0),
    {
        self.data.is_empty()
    }

    /// Appends `value` at the back; the capacity must not be exhausted.
    pub fn push(&mut self, value: T)
        requires
            old(self).wf(),
            old(self)@.len() < N,
        ensures
            final(self).wf(),
            final(self)@ == old(self)@.push(value),
    {
        self.data.push(value);
    }

    /// Removes and returns the last element, or `None` when empty.
    pub fn pop(&mut self) -> (r: Option<T>)
        requires
            old(self).wf(),
        ensures
            final(self).wf(),
            old(self)@.len() == 0 ==> r is None && final(self)@ == old(self)@,
            old(self)@.len() > 0 ==> r == Some(old(self)@.last()) && final(self)@ == old(
                self,
            )@.drop_last(),
    {
        self.data.pop()
    }

    /// Removes the element at `index` by swapping the last element into its
    /// place, or returns `None` when `index` is out of bounds.
    pub fn swap_remove(&mut self, index: usize) -> (r: Option<T>)
        requires
            old(self).wf(),
        ensures
            final(self).wf(),
            index >= old(self)@.len() ==> r is None && final(self)@ == old(self)@,
            index < old(self)@.len() ==> r == Some(old(self)@[index as int]) && final(self)@ == old(
                self,
            )@.update(index as int, old(self)@.last()).drop_last(),
    {
        if index >= self.data.len() {
            return None;
        }
        Some(self.data.swap_remove(index))
    }

    pub fn iter(&self) -> (r: FixedVecIter<'_, T, N>)
        ensures
            r.iter_wf(),
            r.remaining() == self@,
    {
        FixedVecIter { vec: self, pos: 0 }
    }

    pub fn get(&self, index: usize) -> (r: Option<&T>)
        ensures
            index < self@.len() ==> (r matches Some(p) && *p == self@[index as int]),
            index >= self@.len() ==> r is None,
    {
        if index >= self.data.len() {
            return None;
        }
        Some(&self.data[index])
    }

    /// Direct access to the element at `index`; the bound is a precondition
    /// rather than a run-time check.
    pub fn get_unchecked(&self, index: usize) -> (r: &T)
        requires
            index < self@.len(),
        ensures
            *r == self@[index as int],
    {
        &self.data[index]
    }

    pub fn get_mut(&mut self, index: usize) -> (r: Option<&mut T>)
        requires
            old(self).wf(),
        ensures
            index < old(self)@.len() ==> (r matches Some(p) && *p == old(self)@[index as int]
                && final(self)@ == old(self)@.update(index as int, *final(p)) && final(self).wf()),
            index >= old(self)@.len() ==> r is None && final(self)@ == old(self)@
                && final(self).wf(),
    {
        if index >= self.data.len() {
            return None;
        }
        Some(&mut self.data[index])
    }

    pub fn get_unchecked_mut(&mut self, index: usize) -> (r: &mut T)
        requires
            old(self).wf(),
            index < old(self)@.len(),
        ensures
            final(self).wf(),
            *r == old(self)@[index as int],
            final(self)@ == old(self)@.update(index as int, *final(r)),
    {
        &mut self.data[index]
    }

    pub fn last(&self) -> (r: Option<&T>)
        ensures
            self@.len() > 0 ==> (r matches Some(p) && *p == self@.last()),
            self@.len() == 0 ==> r is None,
    {
        if self.data.len() == 0 {
            return None;
        }
        Some(&self.data[self.data.len() - 1])
    }

    pub fn last_unchecked(&self) -> (r: &T)
        requires
            self@.len() > 0,
        ensures
            *r == self@.last(),
    {
        &self.data[self.data.len() - 1]
    }

    pub fn last_mut(&mut self) -> (r: Option<&mut T>)
        requires
            old(self).wf(),
        ensures
            final(self).wf(),
            old(self)@.len() > 0 ==> (r matches Some(p) && *p == old(self)@.last() && final(self)@
                == old(self)@.update(old(self)@.len() - 1, *final(p))),
            old(self)@.len() == 0 ==> r is None && final(self)@ == old(self)@,
    {
        if self.data.len() == 0 {
            return None;
        }
        let last_index = self.data.len() - 1;
        Some(&mut self.data[last_index])
    }

    pub fn last_unchecked_mut(&mut self) -> (r: &mut T)
        requires
            old(self).wf(),
            old(self)@.len() > 0,
        ensures
            final(self).wf(),
            *r == old(self)@.last(),
            final(self)@ == old(self)@.update(old(self)@.len() - 1, *final(r)),
    {
        let last_index = self.data.len() - 1;
        &mut self.data[last_index]
    }

    pub fn as_slice(&self) -> (r: &[T])
        ensures
            r@ == self@,
    {
        self.data.as_slice()
    }

    /// Mutable access to the elements. Writing through the slice cannot
    /// change its length, so the vector stays within its capacity.
    pub fn as_mut_slice(&mut self) -> (r: &mut [T])
        requires
            old(self).wf(),
        ensures
            r@ == old(self)@,
            final(r)@ == final(self)@,
            final(r)@.len() == old(self)@.len() ==> final(self).wf(),
    {
        self.data.as_mut_slice()
    }
}

impl<'a, T, const N: usize> FixedVecIter<'a, T, N> {
    /// The cursor never points past the end of the borrowed vector.
    pub closed spec fn iter_wf(&self) -> bool {
        self.pos <= self.vec@.len()
    }

    /// The elements the cursor has not yet yielded, in order.
    pub closed spec fn remaining(&self) -> Seq<T> {
        self.vec@.subrange(self.pos as int, self.vec@.len() as int)
    }

    pub fn next(&mut self) -> (r: Option<&'a T>)
        requires
            old(self).iter_wf(),
        ensures
            final(self).iter_wf(),
            old(self).remaining().len() == 0 ==> r is None && final(self).remaining() == old(
                self,
            ).remaining(),
            old(self).remaining().len() > 0 ==> (r matches Some(p) && *p == old(
                self,
            ).remaining()[0] && final(self).remaining() == old(self).remaining().drop_first()),
    {
        if self.pos >= self.vec.data.len() {
            return None;
        }
        let r = &self.vec.data[self.pos];
        self.pos = self.pos + 1;
        proof {
            assert(final(self).remaining() =~= old(self).remaining().drop_first());
        }
        Some(r)
    }
}

} // verus!
