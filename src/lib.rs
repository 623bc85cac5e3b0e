//! An append-only singly linked list whose nodes live in an index arena.
//!
//! Every link of the chain is a write-once slot: the list's head slot and the
//! `next` slot of each node. Appending probes forward from a starting slot until
//! an empty one takes the new node; removal splices a node out under exclusive
//! access. A cache mode chosen by type decides whether the list also keeps its
//! length and the slot where the next append will land.
mod arena;
pub mod cache_mode;
mod cons;
pub mod iter;
pub mod once_list;
mod sealed;
pub mod slot;

pub use cache_mode::{CacheMode, NoCache, WithLen, WithTail, WithTailLen};
pub use iter::{IntoIter, Iter, IterMut};
pub use once_list::{OnceList, OnceListCore, OnceListWithLen, OnceListWithTail, OnceListWithTailLen};
pub use slot::NextSlot;
