//! A resizable array made of fixed-capacity blocks.
//!
//! Growing a `SegVec` appends a new block twice as large as the previous one
//! instead of reallocating and copying, so elements never move once written.
//! The block holding a given index is found in constant time from the index
//! alone.
mod block;
pub mod growth;
pub mod laws;
pub mod segvec;

pub use segvec::{size_hint_capacity, DebugDetails, Iter, IterMut, SegVec};
