//! A safe-access layer over an embedded ordered key-value storage engine.
//!
//! The library captures the behaviour that the engine-backed binding promises
//! to its callers: byte-lexicographic ordering of the key space, point reads
//! and writes, range iteration with seek semantics, snapshot-pinned reads, and
//! atomic batched writes.  Every operation carries a contract over a
//! mathematical view of the store, and the contracts are machine-checked.

pub mod bytes;
pub mod db;
pub mod error;
pub mod iterator;
pub mod options;
pub mod store;
pub mod util;
pub mod write_batch;

pub use bytes::bytes_eq;
pub use db::DB;
pub use error::Error;
pub use iterator::DBIterator;
pub use options::AsSnapshot;
pub use options::Compression;
pub use options::Options;
pub use options::ReadOptions;
pub use options::Snapshot;
pub use options::WriteOptions;
pub use write_batch::WriteBatch;
