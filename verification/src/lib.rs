//! Core of a micro-benchmark harness for a concurrent, sharded, in-memory
//! key-value map: the hash-based shard routing, the sharded map itself (a
//! sequential builder plus a reader/writer-locked concurrent form), the
//! dual-resolution latency histogram, the trace parser, and the worker that
//! replays a slice of the operation trace against the map.

pub mod hash;
pub mod ops;
pub mod histogram;
pub mod smap;
pub mod load;
pub mod cmap;
pub mod clock;
pub mod worker;
pub mod report;
