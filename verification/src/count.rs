//! Counters: multisets with per-element counts, backed by a hash map,
//! a B-tree map, or sorted index arrays.

pub mod model;
pub mod laws;
pub mod hash;
pub mod tree;
pub mod sort;

pub use hash::HashCounter;
pub use sort::SortedCounter;
pub use tree::BTreeCounter;
