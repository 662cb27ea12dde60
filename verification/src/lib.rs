//! A fixed-capacity, in-memory key-value cache with least-recently-used
//! eviction.
//!
//! The cache keeps its entries in a single canonical recency sequence
//! (front = least recently used, back = most recently used) together with a
//! key-uniqueness invariant, so the by-key lookup view and the recency view
//! can never diverge.  Every operation carries a contract that pins down the
//! returned value and the resulting recency order exactly.

pub mod cache;
pub mod laws;
pub mod model;

pub use cache::LRUCache;
