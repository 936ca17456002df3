use std::sync::Arc;
use vstd::prelude::*;
use vstd::rwlock::{RwLock, RwLockPredicate};

verus! {

/// The shared core of the channel: a fixed-capacity ring addressed by two
/// monotonically increasing counters. `tail` is the next logical position to
/// write and `head` the next to read; the element at logical position `p`
/// lives in physical slot `p mod N`. Each side also keeps a cache of the
/// other side's counter (`head_cache` for the producer, `tail_cache` for the
/// consumer) so that the fast paths of `push` and `pop` consult only their
/// own side; a stale cache can only make a side re-check, never overrun.
///
/// The counters are renormalized by `N` when they grow, which keeps every
/// field below `2 * N`; the verified invariant `head_cache <= head <=
/// tail_cache <= tail <= head_cache + N` is what makes the cached fast paths
/// sound.
pub struct RingBuffer<T, const N: usize> {
    storage: Vec<Option<T>>,
    /// Producer side: next logical position to write.
    tail: usize,
    /// Producer side: last observed value of `head`.
    head_cache: usize,
    /// Consumer side: next logical position to read.
    head: usize,
    /// Consumer side: last observed value of `tail`.
    tail_cache: usize,
}

impl<T, const N: usize> View for RingBuffer<T, N> {
    type V = Seq<T>;

    closed spec fn view(&self) -> Seq<T> {
        Seq::new((self.tail - self.head) as nat, |i: int| self.storage@[self.slot_of(i)]->0)
    }
}

impl<T, const N: usize> RingBuffer<T, N> {
    /// Physical slot of the `i`-th unread element: `(head + i) mod N`. The
    /// invariant keeps `head + i` below `2 * N` wherever this is applied.
    closed spec fn slot_of(&self, i: int) -> int {
        let p = self.head + i;
        if p < N {
            p
        } else {
            p - N
        }
    }

    /// `head mod N`: the physical slot of the oldest unread element.
    closed spec fn wrapped_head(&self) -> int {
        if self.head < N {
            self.head as int
        } else {
            self.head - N
        }
    }

    /// Whether physical slot `s` holds one of the unread elements.
    closed spec fn occupied(&self, s: int) -> bool {
        let h = self.wrapped_head();
        let c = self.tail - self.head;
        if h + c <= N {
            h <= s < h + c
        } else {
            h <= s < N || 0 <= s < h + c - N
        }
    }

    pub closed spec fn wf(&self) -> bool {
        &&& self.storage@.len() == N
        &&& 1 <= N <= usize::MAX / 2
        &&& self.head_cache <= self.head
        &&& self.head <= self.tail_cache
        &&& self.tail_cache <= self.tail
        &&& self.tail <= self.head_cache + N
        &&& self.head_cache < N
        &&& forall|s: int| self.occupied(s) ==> #[trigger] self.storage@[s] is Some
    }

    /// Builds an empty ring. `N` must be positive; a zero-capacity channel is
    /// a construction error, ruled out here by contract. The upper bound
    /// keeps the renormalized counters within `usize`.
    pub fn new() -> (r: Self)
        requires
            1 <= N <= usize::MAX / 2,
        ensures
            r.wf(),
            r@ == Seq::<T>::empty(),
    {
        let mut storage: Vec<Option<T>> = Vec::new();
        let mut i: usize = 0;
        while i < N
            invariant
                i <= N,
                storage@.len() == i,
            decreases N - i,
        {
            storage.push(None);
            i = i + 1;
        }
        let r = RingBuffer { storage, tail: 0, head_cache: 0, head: 0, tail_cache: 0 };
        proof {
            assert(r@ =~= Seq::<T>::empty());
        }
        r
    }

    /// Number of unread elements, as of this call.
    pub fn len(&self) -> (r: usize)
        requires
            self.wf(),
        ensures
            r == self@.len(),
            r <= N,
    {
        self.tail - self.head
    }

    pub fn is_empty(&self) -> (r: bool)
        requires
            self.wf(),
        ensures
            r == (self@.len() == 0),
    {
        self.tail - self.head == 0
    }

    pub fn is_full(&self) -> (r: bool)
        requires
            self.wf(),
        ensures
            r == (self@.len() == N),
    {
        self.tail - self.head >= N
    }

    /// Exec mirror of `slot_of(i)` for `i < N`.
    fn slot_index(&self, i: usize) -> (r: usize)
        requires
            self.wf(),
            i <= N,
            self.head + i <= self.head_cache + N,
        ensures
            r == self.slot_of(i as int),
            r < N,
    {
        let p = if self.head < N {
            self.head + i
        } else {
            (self.head - N) + i
        };
        if p < N {
            p
        } else {
            p - N
        }
    }

    /// Writes `value` at the tail if the ring is not full, else returns it
    /// back unchanged. The fast path compares `tail` against the producer's
    /// cached view of `head` and reloads the cache only when that suggests
    /// the ring is full; the invariant `head_cache <= head` makes the stale
    /// comparison safe.
    pub fn push(&mut self, value: T) -> (r: Result<(), T>)
        requires
            old(self).wf(),
        ensures
            final(self).wf(),
            old(self)@.len() == N ==> r == Err::<(), T>(value) && final(self)@ == old(self)@,
            old(self)@.len() < N ==> r == Ok::<(), T>(()) && final(self)@ =~= old(self)@.push(
                value,
            ),
    {
        if self.tail == self.head_cache + N {
            // The cache says the ring is full: refresh it from `head`.
            self.head_cache = self.head;
            if self.head_cache >= N {
                // Renormalize all positions so the counters stay bounded.
                self.head_cache = self.head_cache - N;
                self.head = self.head - N;
                self.tail_cache = self.tail_cache - N;
                self.tail = self.tail - N;
                proof {
                    assert forall|i: int| 0 <= i < self.tail - self.head implies #[trigger] self
                        .slot_of(i) == old(self).slot_of(i) by {}
                    assert(self@ =~= old(self)@);
                }
            }
            if self.tail == self.head_cache + N {
                // Truly full: `head_cache` now equals `head`.
                return Err(value);
            }
        }
        let slot = self.slot_index(self.tail - self.head);
        self.storage[slot] = Some(value);
        self.tail = self.tail + 1;
        proof {
            assert(self@ =~= old(self)@.push(value));
        }
        Ok(())
    }

    /// Removes and returns the element at the head, or `None` when the ring
    /// is empty. The fast path compares `head` against the consumer's cached
    /// view of `tail`, reloading the cache only when that suggests emptiness.
    pub fn pop(&mut self) -> (r: Option<T>)
        requires
            old(self).wf(),
        ensures
            final(self).wf(),
            old(self)@.len() == 0 ==> r is None && final(self)@ == old(self)@,
            old(self)@.len() > 0 ==> (r matches Some(v) && v == old(self)@[0] && final(self)@
                =~= old(self)@.drop_first()),
    {
        if self.head == self.tail_cache {
            // The cache says the ring is empty: refresh it from `tail`.
            self.tail_cache = self.tail;
            if self.head == self.tail_cache {
                return None;
            }
        }
        let slot = self.slot_index(0);
        proof {
            assert(self.occupied(slot as int));
            assert(self.storage@[slot as int] is Some);
        }
        let taken = (&mut self.storage[slot]).take();
        self.head = self.head + 1;
        proof {
            assert(self@ =~= old(self)@.drop_first());
        }
        Some(taken.unwrap())
    }
}

/// Lock predicate: the shared ring is always well-formed.
struct ChannelPred;

impl<T, const N: usize> RwLockPredicate<RingBuffer<T, N>> for ChannelPred {
    open spec fn inv(self, rb: RingBuffer<T, N>) -> bool {
        rb.wf()
    }
}

/// Relies on `Arc::clone`: the returned handle shares the same allocation as
/// the argument, so it dereferences to the same value.
#[verifier::external_body]
fn arc_clone<T>(arc: &Arc<T>) -> (r: Arc<T>)
    ensures
        r == *arc,
{
    Arc::clone(arc)
}

/// Relies on `Arc::into_inner`: exactly one of the two handle drops — the
/// later one — gets the shared allocation back; the ring is then taken out
/// of its lock and destroyed, which destructs each unconsumed element once
/// and frees the storage. The handle's own `Arc` must be replaced to be
/// consumed; the stand-in holds a ring whose storage is an empty `Vec`, so
/// although the lock's cell never destructs its contents, nothing is
/// allocated and nothing leaks when the dying handle drops the stand-in.
/// The stand-in's lock is never acquired: this function promises nothing
/// about `*shared`, and the handle around it is destroyed immediately after.
#[verifier::external_body]
fn reclaim_ring<T, const N: usize>(shared: &mut Arc<RwLock<RingBuffer<T, N>, ChannelPred>>)
    opens_invariants none
    no_unwind
{
    let dummy = Arc::new(
        RwLock::new(
            RingBuffer { storage: Vec::new(), tail: 0, head_cache: 0, head: 0, tail_cache: 0 },
            Ghost(ChannelPred),
        ),
    );
    let arc = core::mem::replace(shared, dummy);
    if let Some(lock) = Arc::into_inner(arc) {
        let _ring = lock.into_inner();
    }
}

/// The producing half of a channel; only this handle can push.
pub struct Sender<T, const N: usize> {
    shared: Arc<RwLock<RingBuffer<T, N>, ChannelPred>>,
}

impl<T, const N: usize> Drop for Sender<T, N> {
    /// Releasing the later of the two handles destroys the shared ring.
    fn drop(&mut self)
        opens_invariants none
        no_unwind
    {
        reclaim_ring(&mut self.shared);
    }
}

/// The consuming half of a channel; only this handle can pop.
pub struct Receiver<T, const N: usize> {
    shared: Arc<RwLock<RingBuffer<T, N>, ChannelPred>>,
}

impl<T, const N: usize> Drop for Receiver<T, N> {
    /// Releasing the later of the two handles destroys the shared ring.
    fn drop(&mut self)
        opens_invariants none
        no_unwind
    {
        reclaim_ring(&mut self.shared);
    }
}

impl<T, const N: usize> Sender<T, N> {
    /// Attempts to enqueue `value` without blocking. On a full buffer the
    /// value is handed back unchanged and the buffer is not touched.
    pub fn try_send(&mut self, value: T) -> (r: Result<(), T>)
        ensures
            *final(self) == *old(self),
            r matches Err(v) ==> v == value,
    {
        let (mut rb, handle) = self.shared.acquire_write();
        let r = rb.push(value);
        handle.release_write(rb);
        r
    }

    /// Number of unconsumed elements at the moment of the call; concurrent
    /// activity may invalidate the snapshot immediately.
    pub fn len(&self) -> (r: usize)
        ensures
            r <= N,
    {
        let handle = self.shared.acquire_read();
        let r = handle.borrow().len();
        handle.release_read();
        r
    }

    pub fn is_empty(&self) -> bool {
        let handle = self.shared.acquire_read();
        let r = handle.borrow().is_empty();
        handle.release_read();
        r
    }

    pub fn is_full(&self) -> bool {
        let handle = self.shared.acquire_read();
        let r = handle.borrow().is_full();
        handle.release_read();
        r
    }
}

impl<T, const N: usize> Receiver<T, N> {
    /// Attempts to dequeue the oldest element without blocking; `None` on an
    /// empty buffer.
    pub fn try_receive(&mut self) -> (r: Option<T>)
        ensures
            *final(self) == *old(self),
    {
        let (mut rb, handle) = self.shared.acquire_write();
        let r = rb.pop();
        handle.release_write(rb);
        r
    }

    /// Number of unconsumed elements at the moment of the call.
    pub fn len(&self) -> (r: usize)
        ensures
            r <= N,
    {
        let handle = self.shared.acquire_read();
        let r = handle.borrow().len();
        handle.release_read();
        r
    }

    pub fn is_empty(&self) -> bool {
        let handle = self.shared.acquire_read();
        let r = handle.borrow().is_empty();
        handle.release_read();
        r
    }

    pub fn is_full(&self) -> bool {
        let handle = self.shared.acquire_read();
        let r = handle.borrow().is_full();
        handle.release_read();
        r
    }
}

/// One abstract operation on a channel core, for stating laws about whole
/// histories of calls.
pub enum ChannelOp<T> {
    Push(T),
    Pop,
}

/// The buffer contents after running `ops` against a buffer of capacity
/// `cap` that starts holding `init`. A push is accepted exactly when there
/// is room and a pop removes the oldest element: the transitions restate the
/// `ensures` of `RingBuffer::push` and `RingBuffer::pop`.
pub open spec fn run_contents<T>(init: Seq<T>, ops: Seq<ChannelOp<T>>, cap: int) -> Seq<T>
    decreases ops.len(),
{
    if ops.len() == 0 {
        init
    } else {
        let rest = run_contents(init, ops.drop_last(), cap);
        match ops.last() {
            ChannelOp::Push(x) => if rest.len() < cap {
                rest.push(x)
            } else {
                rest
            },
            ChannelOp::Pop => if rest.len() > 0 {
                rest.drop_first()
            } else {
                rest
            },
        }
    }
}

/// The values accepted by the pushes of `ops`, in push order.
pub open spec fn run_accepted<T>(init: Seq<T>, ops: Seq<ChannelOp<T>>, cap: int) -> Seq<T>
    decreases ops.len(),
{
    if ops.len() == 0 {
        Seq::<T>::empty()
    } else {
        let rest = run_contents(init, ops.drop_last(), cap);
        let acc = run_accepted(init, ops.drop_last(), cap);
        match ops.last() {
            ChannelOp::Push(x) => if rest.len() < cap {
                acc.push(x)
            } else {
                acc
            },
            ChannelOp::Pop => acc,
        }
    }
}

/// The values returned by the pops of `ops`, in pop order.
pub open spec fn run_popped<T>(init: Seq<T>, ops: Seq<ChannelOp<T>>, cap: int) -> Seq<T>
    decreases ops.len(),
{
    if ops.len() == 0 {
        Seq::<T>::empty()
    } else {
        let rest = run_contents(init, ops.drop_last(), cap);
        let popped = run_popped(init, ops.drop_last(), cap);
        match ops.last() {
            ChannelOp::Push(_) => popped,
            ChannelOp::Pop => if rest.len() > 0 {
                popped.push(rest[0])
            } else {
                popped
            },
        }
    }
}

/// FIFO conservation: over any history of pushes and pops, the values popped
/// followed by the values still buffered equal the initial contents followed
/// by the accepted pushes, in order — nothing is lost, duplicated or
/// reordered — and the buffer never exceeds its capacity.
pub proof fn lemma_fifo_conservation<T>(init: Seq<T>, ops: Seq<ChannelOp<T>>, cap: int)
    requires
        init.len() <= cap,
    ensures
        run_popped(init, ops, cap) + run_contents(init, ops, cap) == init + run_accepted(
            init,
            ops,
            cap,
        ),
        run_contents(init, ops, cap).len() <= cap,
    decreases ops.len(),
{
    if ops.len() == 0 {
        assert(run_popped(init, ops, cap) + run_contents(init, ops, cap) =~= init + run_accepted(
            init,
            ops,
            cap,
        ));
    } else {
        lemma_fifo_conservation(init, ops.drop_last(), cap);
        let rest = run_contents(init, ops.drop_last(), cap);
        let popped = run_popped(init, ops.drop_last(), cap);
        let acc = run_accepted(init, ops.drop_last(), cap);
        match ops.last() {
            ChannelOp::Push(x) => {
                if rest.len() < cap {
                    assert(popped + rest.push(x) =~= (popped + rest).push(x));
                    assert(init + acc.push(x) =~= (init + acc).push(x));
                }
            },
            ChannelOp::Pop => {
                if rest.len() > 0 {
                    assert(popped.push(rest[0]) + rest.drop_first() =~= popped + rest);
                }
            },
        }
    }
}

/// A history made of one push per value of `vs`, in order.
pub open spec fn push_history<T>(vs: Seq<T>) -> Seq<ChannelOp<T>> {
    Seq::new(vs.len(), |i: int| ChannelOp::Push(vs[i]))
}

/// A history made of `k` pops.
pub open spec fn pop_history<T>(k: int) -> Seq<ChannelOp<T>> {
    Seq::new(k as nat, |i: int| ChannelOp::Pop)
}

/// Running only pushes that all fit appends the pushed values in order and
/// pops nothing.
pub proof fn lemma_push_history_run<T>(init: Seq<T>, vs: Seq<T>, cap: int)
    requires
        init.len() + vs.len() <= cap,
    ensures
        run_contents(init, push_history(vs), cap) == init + vs,
        run_accepted(init, push_history(vs), cap) == vs,
        run_popped(init, push_history(vs), cap) == Seq::<T>::empty(),
    decreases vs.len(),
{
    if vs.len() == 0 {
        assert(push_history(vs) =~= Seq::<ChannelOp<T>>::empty());
        assert(run_contents(init, push_history(vs), cap) =~= init + vs);
        assert(run_accepted(init, push_history(vs), cap) =~= vs);
    } else {
        lemma_push_history_run(init, vs.drop_last(), cap);
        assert(push_history(vs).drop_last() =~= push_history(vs.drop_last()));
        assert(push_history(vs).last() == ChannelOp::Push(vs.last()));
        assert((init + vs.drop_last()).push(vs.last()) =~= init + vs);
        assert(vs.drop_last().push(vs.last()) =~= vs);
    }
}

/// Running only pops drains the buffer front first: `k` pops return the
/// first `k` elements in order and leave the rest.
pub proof fn lemma_pop_history_run<T>(init: Seq<T>, k: int, cap: int)
    requires
        0 <= k <= init.len() <= cap,
    ensures
        run_contents(init, pop_history(k), cap) == init.skip(k),
        run_popped(init, pop_history(k), cap) == init.take(k),
        run_accepted(init, pop_history(k), cap) == Seq::<T>::empty(),
    decreases k,
{
    if k == 0 {
        assert(pop_history::<T>(k) =~= Seq::<ChannelOp<T>>::empty());
        assert(run_contents(init, pop_history(k), cap) =~= init.skip(0));
        assert(run_popped(init, pop_history(k), cap) =~= init.take(0));
    } else {
        lemma_pop_history_run(init, k - 1, cap);
        assert(pop_history::<T>(k).drop_last() =~= pop_history::<T>(k - 1));
        assert(pop_history::<T>(k).last() == ChannelOp::<T>::Pop);
        let rest = init.skip(k - 1);
        assert(rest[0] == init[k - 1]);
        assert(rest.drop_first() =~= init.skip(k));
        assert(init.take(k - 1).push(init[k - 1]) =~= init.take(k));
    }
}

/// Spelled-out FIFO order: pushing every value of `vs` into an empty buffer
/// whose capacity admits them all, then popping the same number of times,
/// yields exactly `vs`, in the original order, and leaves the buffer empty.
pub proof fn lemma_fifo_order<T>(vs: Seq<T>, cap: int)
    requires
        vs.len() <= cap,
    ensures
        run_popped(
            Seq::<T>::empty(),
            push_history(vs) + pop_history::<T>(vs.len() as int),
            cap,
        ) == vs,
        run_contents(
            Seq::<T>::empty(),
            push_history(vs) + pop_history::<T>(vs.len() as int),
            cap,
        ) == Seq::<T>::empty(),
{
    let e = Seq::<T>::empty();
    lemma_push_history_run(e, vs, cap);
    lemma_pop_history_run(vs, vs.len() as int, cap);
    lemma_run_append(e, push_history(vs), pop_history::<T>(vs.len() as int), cap);
    assert(e + vs =~= vs);
    assert(vs.take(vs.len() as int) =~= vs);
    assert(vs.skip(vs.len() as int) =~= e);
    assert(Seq::<T>::empty() + vs.take(vs.len() as int) =~= vs);
}

/// Running a concatenated history equals running its halves in turn, the
/// second from where the first left off; the pops and accepted pushes of the
/// whole are those of the halves, concatenated.
pub proof fn lemma_run_append<T>(init: Seq<T>, ops1: Seq<ChannelOp<T>>, ops2: Seq<ChannelOp<T>>, cap: int)
    ensures
        run_contents(init, ops1 + ops2, cap) == run_contents(
            run_contents(init, ops1, cap),
            ops2,
            cap,
        ),
        run_popped(init, ops1 + ops2, cap) == run_popped(init, ops1, cap) + run_popped(
            run_contents(init, ops1, cap),
            ops2,
            cap,
        ),
        run_accepted(init, ops1 + ops2, cap) == run_accepted(init, ops1, cap) + run_accepted(
            run_contents(init, ops1, cap),
            ops2,
            cap,
        ),
    decreases ops2.len(),
{
    let mid = run_contents(init, ops1, cap);
    if ops2.len() == 0 {
        assert(ops1 + ops2 =~= ops1);
        assert(run_popped(init, ops1, cap) + run_popped(mid, ops2, cap) =~= run_popped(
            init,
            ops1,
            cap,
        ));
        assert(run_accepted(init, ops1, cap) + run_accepted(mid, ops2, cap) =~= run_accepted(
            init,
            ops1,
            cap,
        ));
    } else {
        lemma_run_append(init, ops1, ops2.drop_last(), cap);
        assert((ops1 + ops2).drop_last() =~= ops1 + ops2.drop_last());
        assert((ops1 + ops2).last() == ops2.last());
        match ops2.last() {
            ChannelOp::Push(x) => {
                if run_contents(mid, ops2.drop_last(), cap).len() < cap {
                    assert(run_accepted(init, ops1, cap) + run_accepted(
                        mid,
                        ops2.drop_last(),
                        cap,
                    ).push(x) =~= (run_accepted(init, ops1, cap) + run_accepted(
                        mid,
                        ops2.drop_last(),
                        cap,
                    )).push(x));
                }
            },
            ChannelOp::Pop => {
                let rest = run_contents(mid, ops2.drop_last(), cap);
                if rest.len() > 0 {
                    assert(run_popped(init, ops1, cap) + run_popped(
                        mid,
                        ops2.drop_last(),
                        cap,
                    ).push(rest[0]) =~= (run_popped(init, ops1, cap) + run_popped(
                        mid,
                        ops2.drop_last(),
                        cap,
                    )).push(rest[0]));
                }
            },
        }
    }
}

/// Capacity bound: a push against a full buffer is rejected and leaves the
/// contents untouched, and one pop then makes room for exactly one more
/// accepted push.
pub proof fn lemma_capacity_bound<T>(contents: Seq<T>, x: T, cap: int)
    requires
        contents.len() == cap,
        cap >= 1,
    ensures
        run_contents(contents, seq![ChannelOp::Push(x)], cap) == contents,
        run_accepted(contents, seq![ChannelOp::Push(x)], cap) == Seq::<T>::empty(),
        run_contents(contents, seq![ChannelOp::Pop, ChannelOp::Push(x)], cap)
            == contents.drop_first().push(x),
{
    let none_at_all = Seq::<ChannelOp<T>>::empty();
    assert(run_contents(contents, none_at_all, cap) == contents);
    assert(run_accepted(contents, none_at_all, cap) == Seq::<T>::empty());

    let reject = seq![ChannelOp::Push(x)];
    assert(reject.drop_last() =~= none_at_all);
    assert(reject.last() == ChannelOp::Push(x));
    assert(run_contents(contents, reject, cap) == contents);
    assert(run_accepted(contents, reject, cap) == Seq::<T>::empty());

    let pop_one = seq![ChannelOp::Pop];
    assert(pop_one.drop_last() =~= none_at_all);
    assert(run_contents(contents, pop_one, cap) == contents.drop_first());

    let make_room = seq![ChannelOp::Pop, ChannelOp::Push(x)];
    assert(make_room.drop_last() =~= pop_one);
    assert(make_room.last() == ChannelOp::Push(x));
    assert(run_contents(contents, make_room, cap) == contents.drop_first().push(x));
}

/// Whether a producing and a consuming handle are bound to the same shared
/// ring, so that what the one pushes is what the other pops.
pub closed spec fn paired<T, const N: usize>(tx: &Sender<T, N>, rx: &Receiver<T, N>) -> bool {
    tx.shared == rx.shared
}

/// Builds one channel: a ring of capacity `N` shared by exactly one `Sender`
/// and one `Receiver`. A zero capacity is a construction error, excluded by
/// contract; the upper bound is the machine limit of the ring's counters.
pub fn spsc_channel<T, const N: usize>() -> (r: (Sender<T, N>, Receiver<T, N>))
    requires
        1 <= N <= usize::MAX / 2,
    ensures
        paired(&r.0, &r.1),
{
    let rb = RingBuffer::<T, N>::new();
    let lock = RwLock::new(rb, Ghost(ChannelPred));
    let shared = Arc::new(lock);
    let shared2 = arc_clone(&shared);
    (Sender { shared }, Receiver { shared: shared2 })
}

} // verus!
