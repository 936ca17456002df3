//! Fixed-capacity containers built around ring addressing — a bounded FIFO
//! queue, its power-of-two variant, and a single-producer/single-consumer
//! channel over the same ring discipline — together with a fixed-length
//! bit set, a sparse map with packed storage, and a generational arena.
//! Every operation carries a contract over a mathematical view of its type,
//! and the FIFO and capacity laws of the channel core are proved as theorems.

mod array_queue;
mod bitset;
mod fixed_vec;
mod queue;
mod sparse_map;
mod spsc_channel;
mod store;

pub use array_queue::{ArrayQueue, ArrayQueueIter};
pub use bitset::{count_trues, BitSet, SetBitsIter};
pub use fixed_vec::{FixedVec, FixedVecIter};
pub use queue::{power_of_two, Queue, QueueIter};
pub use sparse_map::{SlotIndex, SparseMap};
pub use spsc_channel::{
    lemma_capacity_bound, lemma_fifo_conservation, lemma_fifo_order, lemma_pop_history_run,
    lemma_push_history_run, lemma_run_append, pop_history, push_history, run_accepted,
    paired, run_contents, run_popped, spsc_channel, ChannelOp, Receiver, RingBuffer, Sender,
};
pub use store::{Store, StoreIter, StoreKey, StoreValuesIter, INDEX_BITS};
