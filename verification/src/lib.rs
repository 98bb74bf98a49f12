//! An in-memory cache of fixed-size storage pages with a bounded memory
//! budget, clock-sweep (second-chance) eviction, reference-counted pinning
//! and a page-residency index.
//!
//! Durable reads and writes are the disk manager's business, an external
//! collaborator: the pool decides which frame serves a request and which
//! page must be written out first, and hands those decisions to its caller
//! as plain values.

pub mod frame;
pub mod manager;
pub mod pool;
