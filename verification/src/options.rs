//! Configuration for opening a database and for individual reads and writes,
//! and the snapshot capability that pins a read to a point in time.
//!
//! Each configuration value starts from the engine's defaults and is changed
//! only through its own setters; a setter cannot fail.  A `Snapshot` captures
//! the database contents as they were when it was taken, and anything that can
//! yield a snapshot — a live database, or a snapshot already in hand —
//! implements [`AsSnapshot`].

use vstd::prelude::*;

use crate::store::{clone_entries, entries_map, entry_views, lemma_entry_views_sorted, pairs_map,
    pairs_sorted, sorted_entries, Entry};

verus! {

/// The compression algorithms the engine offers for stored data.
#[derive(Debug, Clone, Copy, PartialEq, Eq, Structural)]
pub enum Compression {
    /// No compression.
    No,
    /// Snappy compression.
    Snappy,
    /// Zstd compression.
    Zstd,
    /// Raw zlib compression.
    ZlibRaw,
}

/// Configuration for opening or creating a database.
pub struct Options {
    /// Create the database when none exists at the path.
    pub create_if_missing: bool,
    /// Refuse to open a database that already exists.
    pub error_if_exists: bool,
    /// Check aggressively for corruption while reading.
    pub paranoid_checks: bool,
    /// The compression applied to stored data.
    pub compression: Compression,
}

impl Options {
    /// The engine's defaults: nothing is created, nothing refused, no
    /// paranoid checks, no compression.
    pub fn new() -> (r: Options)
        ensures
            r.create_if_missing == false,
            r.error_if_exists == false,
            r.paranoid_checks == false,
            r.compression == Compression::No,
    {
        Options {
            create_if_missing: false,
            error_if_exists: false,
            paranoid_checks: false,
            compression: Compression::No,
        }
    }

    /// Choose whether a missing database is created on open.
    pub fn create_if_missing(&mut self, value: bool)
        ensures
            final(self).create_if_missing == value,
            final(self).error_if_exists == old(self).error_if_exists,
            final(self).paranoid_checks == old(self).paranoid_checks,
            final(self).compression == old(self).compression,
    {
        self.create_if_missing = value;
    }

    /// Choose whether an existing database makes the open fail.
    pub fn error_if_exists(&mut self, value: bool)
        ensures
            final(self).error_if_exists == value,
            final(self).create_if_missing == old(self).create_if_missing,
            final(self).paranoid_checks == old(self).paranoid_checks,
            final(self).compression == old(self).compression,
    {
        self.error_if_exists = value;
    }

    /// Choose whether reads check aggressively for corruption.
    pub fn paranoid_checks(&mut self, value: bool)
        ensures
            final(self).paranoid_checks == value,
            final(self).create_if_missing == old(self).create_if_missing,
            final(self).error_if_exists == old(self).error_if_exists,
            final(self).compression == old(self).compression,
    {
        self.paranoid_checks = value;
    }

    /// Choose the compression applied to stored data.
    pub fn compression(&mut self, compression_type: Compression)
        ensures
            final(self).compression == compression_type,
            final(self).create_if_missing == old(self).create_if_missing,
            final(self).error_if_exists == old(self).error_if_exists,
            final(self).paranoid_checks == old(self).paranoid_checks,
    {
        self.compression = compression_type;
    }
}

impl Default for Options {
    /// The same defaults as [`Options::new`].
    fn default() -> (r: Self)
        ensures
            r.create_if_missing == false,
            r.error_if_exists == false,
            r.paranoid_checks == false,
            r.compression == Compression::No,
    {
        Options::new()
    }
}

/// The database contents as they were at one moment, pinned so that reads can
/// keep seeing that state while the database moves on.
pub struct Snapshot {
    entries: Vec<Entry>,
}

impl Snapshot {
    #[verifier::type_invariant]
    spec fn inv(self) -> bool {
        sorted_entries(self.entries@)
    }

    /// The pinned contents, in ascending key order.
    pub closed spec fn kv_seq(self) -> Seq<(Seq<u8>, Seq<u8>)> {
        entry_views(self.entries@)
    }

    /// The pinned contents read in ascending key order denote the pinned map.
    pub proof fn lemma_view_matches(&self)
        ensures
            self@ == pairs_map(self.kv_seq()),
    {
    }

    /// Wrap an entry sequence as a pinned state.
    pub(crate) fn from_entries(entries: Vec<Entry>) -> (s: Snapshot)
        requires
            sorted_entries(entries@),
        ensures
            s.kv_seq() == entry_views(entries@),
    {
        Snapshot { entries }
    }

    /// Borrow the pinned entries.
    pub(crate) fn borrow_entries(&self) -> (r: &Vec<Entry>)
        ensures
            sorted_entries(r@),
            entry_views(r@) == self.kv_seq(),
            entries_map(r@) == self@,
    {
        proof {
            use_type_invariant(self);
        }
        &self.entries
    }
}

impl View for Snapshot {
    type V = Map<Seq<u8>, Seq<u8>>;

    /// The pinned contents as a map from key to value.
    closed spec fn view(&self) -> Map<Seq<u8>, Seq<u8>> {
        entries_map(self.entries@)
    }
}

/// Anything that can yield a pinned state of the database: a live database
/// (the state is pinned at that moment) or a snapshot already in hand.
pub trait AsSnapshot {
    /// The contents, in ascending key order, that the yielded snapshot pins.
    spec fn snapshot_view(&self) -> Seq<(Seq<u8>, Seq<u8>)>;

    /// Yield a snapshot pinning the current state: the pinned contents are in
    /// strictly ascending key order and denote the pinned map.
    fn as_snapshot(&self) -> (s: Snapshot)
        ensures
            s.kv_seq() == self.snapshot_view(),
            pairs_sorted(s.kv_seq()),
            s@ == pairs_map(s.kv_seq()),
    ;
}

impl AsSnapshot for Snapshot {
    open spec fn snapshot_view(&self) -> Seq<(Seq<u8>, Seq<u8>)> {
        self.kv_seq()
    }

    fn as_snapshot(&self) -> (s: Snapshot) {
        proof {
            use_type_invariant(self);
            lemma_entry_views_sorted(self.entries@);
        }
        Snapshot { entries: clone_entries(&self.entries) }
    }
}

/// Configuration for a single read or for an iterator.
pub struct ReadOptions {
    /// Verify checksums on everything read from storage.
    pub verify_checksums: bool,
    /// Let this read populate the engine's cache.
    pub fill_cache: bool,
    /// When set, the read sees the pinned state instead of the current one.
    pub snapshot: Option<Snapshot>,
}

impl ReadOptions {
    /// The engine's defaults: no checksum verification, cache filled, no
    /// snapshot — reads see the latest data.
    pub fn new() -> (r: ReadOptions)
        ensures
            r.verify_checksums == false,
            r.fill_cache == true,
            r.snapshot is None,
    {
        ReadOptions { verify_checksums: false, fill_cache: true, snapshot: None }
    }

    /// Choose whether reads verify checksums.
    pub fn verify_checksums(&mut self, value: bool)
        ensures
            final(self).verify_checksums == value,
            final(self).fill_cache == old(self).fill_cache,
            final(self).snapshot == old(self).snapshot,
    {
        self.verify_checksums = value;
    }

    /// Choose whether reads fill the cache.
    pub fn fill_cache(&mut self, value: bool)
        ensures
            final(self).fill_cache == value,
            final(self).verify_checksums == old(self).verify_checksums,
            final(self).snapshot == old(self).snapshot,
    {
        self.fill_cache = value;
    }

    /// Pin these options to a snapshot of `source`, so that every read made
    /// with them sees that one state.
    pub fn snapshot<S: AsSnapshot>(&mut self, source: &S)
        ensures
            (final(self).snapshot matches Some(s) && s.kv_seq() == source.snapshot_view()),
            final(self).verify_checksums == old(self).verify_checksums,
            final(self).fill_cache == old(self).fill_cache,
    {
        self.snapshot = Some(source.as_snapshot());
    }
}

impl Default for ReadOptions {
    /// The same defaults as [`ReadOptions::new`].
    fn default() -> (r: Self)
        ensures
            r.verify_checksums == false,
            r.fill_cache == true,
            r.snapshot is None,
    {
        ReadOptions::new()
    }
}

/// Configuration for a write or a batch commit.
pub struct WriteOptions {
    /// Flush the write to durable storage before reporting success.
    pub sync: bool,
}

impl WriteOptions {
    /// The engine's default: asynchronous writes.
    pub fn new() -> (r: WriteOptions)
        ensures
            r.sync == false,
    {
        WriteOptions { sync: false }
    }

    /// Choose whether the write is flushed to durable storage before it
    /// reports success.
    pub fn sync(&mut self, value: bool)
        ensures
            final(self).sync == value,
    {
        self.sync = value;
    }
}

impl Default for WriteOptions {
    /// The same default as [`WriteOptions::new`].
    fn default() -> (r: Self)
        ensures
            r.sync == false,
    {
        WriteOptions::new()
    }
}

} // verus!
