//! In-memory write path and columnar storage for a time-series database.
//!
//! Writes arrive as batches of typed columns grouped by table and are
//! appended into per-table, per-chunk columnar storage with schema
//! consistency checks, null padding, running statistics and memory
//! accounting. Chunks hand out cheap immutable snapshots and can be
//! pruned wholesale from a scan using only summary statistics.

pub mod arrays;
pub mod bits;
pub mod builder;
pub mod bitset;
pub mod chunk;
mod clock;
pub mod column;
pub mod dictionary;
pub mod entry;
pub mod nullmask;
pub mod pruning;
pub mod schema;
pub mod snapshot;
pub mod stats;
pub mod strcmp;
pub mod write_buffer;

pub use clock::ClockValue;
