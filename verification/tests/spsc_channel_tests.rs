use containers::{spsc_channel, RingBuffer};
use std::cell::Cell;
use std::rc::Rc;

pub struct XorShift64 {
    state: u64,
}

impl XorShift64 {
    pub fn new(seed: u64) -> Self {
        Self { state: seed }
    }

    pub fn rand(&mut self) -> u64 {
        let mut x = self.state;
        x ^= x << 13;
        x ^= x >> 7;
        x ^= x << 17;
        self.state = x;
        x
    }
}

#[derive(Debug, PartialEq)]
struct BitPattern<const N: usize> {
    bits: [u8; N],
}

impl<const N: usize> BitPattern<N> {
    fn new(seed: usize) -> Self {
        let mut rng = XorShift64::new(seed as u64 + 1);
        let mut bits = [0u8; N];
        for slot in bits.iter_mut() {
            *slot = rng.rand() as u8;
        }
        Self { bits }
    }
}

/// Counts how many times its values are destructed.
struct DropCounter {
    drops: Rc<Cell<usize>>,
}

impl Drop for DropCounter {
    fn drop(&mut self) {
        self.drops.set(self.drops.get() + 1);
    }
}

#[test]
fn try_send_receive() {
    let (mut tx, mut rx) = spsc_channel::<usize, 16>();
    assert_eq!(tx.try_send(42), Ok(()));
    assert_eq!(rx.try_receive(), Some(42));

    assert_eq!(rx.try_receive(), None);

    assert_eq!(tx.try_send(43), Ok(()));
    assert_eq!(tx.try_send(44), Ok(()));
    assert_eq!(rx.try_receive(), Some(43));
    assert_eq!(rx.try_receive(), Some(44));

    assert_eq!(rx.try_receive(), None);
}

#[test]
fn send_receive() {
    let (mut tx, mut rx) = spsc_channel::<usize, 16>();
    assert_eq!(tx.try_send(42), Ok(()));
    assert_eq!(rx.try_receive(), Some(42));
}

#[test]
fn full() {
    let (mut tx, _rx) = spsc_channel::<usize, 4>();
    assert_eq!(tx.try_send(42), Ok(()));
    assert_eq!(tx.try_send(43), Ok(()));
    assert_eq!(tx.try_send(44), Ok(()));
    assert_eq!(tx.try_send(45), Ok(()));

    assert_eq!(tx.try_send(46), Err(46));
}

#[test]
fn zst() {
    let (mut tx, mut rx) = spsc_channel::<(), 16>();
    assert_eq!(tx.try_send(()), Ok(()));
    assert_eq!(rx.try_receive(), Some(()));
}

/// Capacity 4: four pushes succeed, the fifth fails and hands its value
/// back, one pop frees the oldest element, and the fifth value then fits.
#[test]
fn full_then_pop_makes_room() {
    let (mut tx, mut rx) = spsc_channel::<usize, 4>();
    assert_eq!(tx.try_send(1), Ok(()));
    assert_eq!(tx.try_send(2), Ok(()));
    assert_eq!(tx.try_send(3), Ok(()));
    assert_eq!(tx.try_send(4), Ok(()));
    assert!(tx.is_full());
    assert_eq!(tx.try_send(5), Err(5));
    assert_eq!(rx.try_receive(), Some(1));
    assert_eq!(tx.try_send(5), Ok(()));
    assert_eq!(rx.try_receive(), Some(2));
    assert_eq!(rx.try_receive(), Some(3));
    assert_eq!(rx.try_receive(), Some(4));
    assert_eq!(rx.try_receive(), Some(5));
    assert!(rx.is_empty());
}

#[test]
fn snapshot_queries() {
    let (mut tx, rx) = spsc_channel::<usize, 4>();
    assert!(tx.is_empty());
    assert!(rx.is_empty());
    assert_eq!(tx.len(), 0);
    tx.try_send(9).unwrap();
    tx.try_send(10).unwrap();
    assert_eq!(tx.len(), 2);
    assert_eq!(rx.len(), 2);
    assert!(!rx.is_empty());
    assert!(!rx.is_full());
}

/// A producer pushing a million integers through a 16-slot ring, the
/// consumer draining it whenever it fills: the received sequence is strictly
/// increasing and gapless through many wrap-arounds.
#[test]
fn high_volume_wraparound() {
    let (mut tx, mut rx) = spsc_channel::<usize, 16>();
    let mut next_expected: usize = 0;
    for i in 0..1_000_000usize {
        let mut value = i;
        loop {
            match tx.try_send(value) {
                Ok(()) => break,
                Err(back) => {
                    value = back;
                    assert_eq!(rx.try_receive(), Some(next_expected));
                    next_expected += 1;
                }
            }
        }
    }
    while let Some(got) = rx.try_receive() {
        assert_eq!(got, next_expected);
        next_expected += 1;
    }
    assert_eq!(next_expected, 1_000_000);
}

/// Capacity 1 with ~10 KB elements: every send alternates with a receive,
/// and each payload arrives intact and in order.
#[test]
fn capacity_one_large_payload() {
    const SIZE: usize = 1024 * 10;
    let (mut tx, mut rx) = spsc_channel::<BitPattern<SIZE>, 1>();
    for i in 0..10_000usize {
        assert_eq!(tx.try_send(BitPattern::new(i)), Ok(()));
        assert_eq!(rx.try_receive(), Some(BitPattern::new(i)));
    }
    assert!(rx.try_receive().is_none());
}

/// Dropping a channel that still holds unconsumed elements destructs each of
/// them exactly once.
#[test]
fn teardown_drops_each_element_once() {
    let drops = Rc::new(Cell::new(0usize));
    let (mut tx, mut rx) = spsc_channel::<DropCounter, 8>();
    for _ in 0..5 {
        let value = DropCounter { drops: Rc::clone(&drops) };
        assert!(tx.try_send(value).is_ok());
    }
    // Two elements are consumed and dropped by the receiver's side.
    drop(rx.try_receive());
    drop(rx.try_receive());
    assert_eq!(drops.get(), 2);
    // The last three are dropped when both handles are released.
    drop(tx);
    drop(rx);
    assert_eq!(drops.get(), 5);
}

#[test]
fn ring_buffer_wraparound() {
    let mut ring: RingBuffer<u32, 4> = RingBuffer::new();
    assert!(ring.is_empty());
    assert_eq!(ring.len(), 0);
    for round in 0..100u32 {
        assert_eq!(ring.push(round), Ok(()));
        assert_eq!(ring.push(round + 1000), Ok(()));
        assert_eq!(ring.len(), 2);
        assert_eq!(ring.pop(), Some(round));
        assert_eq!(ring.pop(), Some(round + 1000));
        assert!(ring.is_empty());
    }
    assert_eq!(ring.pop(), None);
}

#[test]
fn ring_buffer_full_and_back() {
    let mut ring: RingBuffer<u32, 2> = RingBuffer::new();
    assert_eq!(ring.push(1), Ok(()));
    assert_eq!(ring.push(2), Ok(()));
    assert!(ring.is_full());
    assert_eq!(ring.push(3), Err(3));
    assert_eq!(ring.pop(), Some(1));
    assert!(!ring.is_full());
    assert_eq!(ring.push(3), Ok(()));
    assert_eq!(ring.pop(), Some(2));
    assert_eq!(ring.pop(), Some(3));
    assert_eq!(ring.pop(), None);
}
