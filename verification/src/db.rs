//! The database handle: open, point reads and writes, compaction, iteration.
//!
//! A database's visible state is a map from byte-string keys to byte-string
//! values, kept internally in ascending key order.  Point operations state
//! their effect on that map exactly; `iter` hands out a cursor over a pinned,
//! ordered copy of the contents.  Opening never finds earlier contents: what
//! a path holds on disk belongs to the engine underneath, not to this layer,
//! so a fresh handle starts from the empty map, and an open with creation
//! disabled reports the engine's refusal instead.

use vstd::prelude::*;

use crate::error::Error;
use crate::iterator::DBIterator;
use crate::options::{AsSnapshot, Options, ReadOptions, Snapshot, WriteOptions};
use crate::store::{clone_entries, entries_map, entry_views, lemma_entry_views_sorted, pairs_map,
    pairs_sorted, sorted_entries, store_delete, store_lookup, store_put, Entry};
use crate::util::{encodable_path, path_encodable};

verus! {

/// The map a read sees: the pinned state when the options carry a snapshot,
/// the database's current state otherwise.
pub open spec fn read_view(db: &DB, options: &ReadOptions) -> Map<Seq<u8>, Seq<u8>> {
    match options.snapshot {
        Some(s) => s@,
        None => db@,
    }
}

/// An open database.
pub struct DB {
    entries: Vec<Entry>,
}

impl DB {
    #[verifier::type_invariant]
    spec fn inv(self) -> bool {
        sorted_entries(self.entries@)
    }

    /// The current contents, in ascending key order.
    pub closed spec fn kv_seq(self) -> Seq<(Seq<u8>, Seq<u8>)> {
        entry_views(self.entries@)
    }

    /// The current contents read in ascending key order denote the current map.
    pub proof fn lemma_view_matches(&self)
        ensures
            self@ == pairs_map(self.kv_seq()),
    {
    }

    /// Open the database at `path`.
    ///
    /// A path holding an interior nul byte cannot be encoded for the engine
    /// and is rejected as `InvalidPath` before anything else happens.  This
    /// layer holds no earlier contents for any path, so with creation
    /// disabled the open fails as it would on a missing database, and with
    /// creation enabled it yields a database with the empty map.
    pub fn open(path: &[u8], options: &Options) -> (r: Result<DB, Error>)
        ensures
            !encodable_path(path@) ==> r == Err::<DB, Error>(Error::InvalidPath),
            encodable_path(path@) && !options.create_if_missing ==> (r matches Err(e)
                && e matches Error::Open(m)
                && m@ == "database does not exist (create_if_missing is false)"@),
            encodable_path(path@) && options.create_if_missing ==> (r matches Ok(db)
                && db@ == Map::<Seq<u8>, Seq<u8>>::empty()
                && db.kv_seq() == Seq::<(Seq<u8>, Seq<u8>)>::empty()),
    {
        if !path_encodable(path) {
            return Err(Error::InvalidPath);
        }
        if !options.create_if_missing {
            return Err(Error::Open(
                "database does not exist (create_if_missing is false)".to_owned(),
            ));
        }
        let db = DB { entries: Vec::new() };
        proof {
            assert(db.kv_seq() =~= Seq::<(Seq<u8>, Seq<u8>)>::empty());
            assert(db@ =~= Map::<Seq<u8>, Seq<u8>>::empty());
        }
        Ok(db)
    }

    /// Retrieve the value bound to `key` in the map this read sees: a copy of
    /// the value when the key is bound, `None` when it is absent.  Absence is
    /// not an error.
    pub fn get(&self, key: &[u8], options: &ReadOptions) -> (r: Result<Option<Vec<u8>>, Error>)
        ensures
            (r matches Ok(v) && match v {
                Some(b) => read_view(self, options).contains_key(key@)
                    && b@ == read_view(self, options)[key@],
                None => !read_view(self, options).contains_key(key@),
            }),
    {
        let found = match &options.snapshot {
            Some(s) => store_lookup(s.borrow_entries(), key),
            None => {
                proof {
                    use_type_invariant(&*self);
                }
                store_lookup(&self.entries, key)
            },
        };
        Ok(found)
    }

    /// Bind `key` to `value`, inserting or overwriting.
    pub fn put(&mut self, key: &[u8], value: &[u8], options: &WriteOptions) -> (r: Result<
        (),
        Error,
    >)
        ensures
            r is Ok,
            final(self)@ == old(self)@.insert(key@, value@),
    {
        proof {
            use_type_invariant(&*self);
        }
        let mut es: Vec<Entry> = Vec::new();
        std::mem::swap(&mut es, &mut self.entries);
        store_put(&mut es, key, value);
        self.entries = es;
        Ok(())
    }

    /// Unbind `key`.  Removing an absent key succeeds and changes nothing.
    pub fn delete(&mut self, key: &[u8], options: &WriteOptions) -> (r: Result<(), Error>)
        ensures
            r is Ok,
            final(self)@ == old(self)@.remove(key@),
    {
        proof {
            use_type_invariant(&*self);
        }
        let mut es: Vec<Entry> = Vec::new();
        std::mem::swap(&mut es, &mut self.entries);
        store_delete(&mut es, key);
        self.entries = es;
        Ok(())
    }

    /// Reorganize stored data over `[start, limit)`; `None` on either bound
    /// means unbounded in that direction.  Reorganization is the engine's
    /// internal affair: the visible contents do not change, and the call
    /// cannot fail.
    #[allow(unused_variables)]
    pub fn compact_range(&self, start: Option<&[u8]>, limit: Option<&[u8]>) {
    }

    /// Force buffered data into persistent form by compacting the full range.
    /// There is no separate flush primitive in the engine underneath.
    pub fn flush(&self) {
        self.compact_range(None, None);
    }

    /// A cursor over the contents this read sees, pinned as of this call and
    /// positioned before the first entry (not yet valid).  The cursor walks
    /// the keys in strictly ascending byte-lexicographic order, and what it
    /// walks denotes exactly the map the read sees.
    pub fn iter(&self, options: &ReadOptions) -> (it: DBIterator)
        ensures
            pairs_sorted(it.entries()),
            pairs_map(it.entries()) == read_view(self, options),
            it.entries() == match options.snapshot {
                Some(s) => s.kv_seq(),
                None => self.kv_seq(),
            },
            it.position() == it.entries().len(),
    {
        DBIterator::new(self, options)
    }

    /// Borrow the current entries.
    pub(crate) fn borrow_entries(&self) -> (r: &Vec<Entry>)
        ensures
            sorted_entries(r@),
            entry_views(r@) == self.kv_seq(),
            entries_map(r@) == self@,
    {
        proof {
            use_type_invariant(self);
        }
        &self.entries
    }
}

impl View for DB {
    type V = Map<Seq<u8>, Seq<u8>>;

    /// The current contents as a map from key to value.
    closed spec fn view(&self) -> Map<Seq<u8>, Seq<u8>> {
        entries_map(self.entries@)
    }
}

impl AsSnapshot for DB {
    open spec fn snapshot_view(&self) -> Seq<(Seq<u8>, Seq<u8>)> {
        self.kv_seq()
    }

    /// Pin the database's state as it is at this moment.
    fn as_snapshot(&self) -> (s: Snapshot) {
        proof {
            use_type_invariant(self);
            lemma_entry_views_sorted(self.entries@);
        }
        let s = Snapshot::from_entries(clone_entries(&self.entries));
        proof {
            s.lemma_view_matches();
        }
        s
    }
}

/// Round trip: after a put of `v` under `k`, a get of `k` sees `v`.
///
/// `put` turns the database map `m` into `m.insert(k, v)`, and `get` reads
/// that map; this holds for every key and value, empty or not, of any size.
pub proof fn lemma_put_then_get(m: Map<Seq<u8>, Seq<u8>>, k: Seq<u8>, v: Seq<u8>)
    ensures
        m.insert(k, v).contains_key(k),
        m.insert(k, v)[k] == v,
{
}

/// Deleting an absent key is a no-op success: the map is unchanged and the
/// key stays absent.
pub proof fn lemma_delete_absent(m: Map<Seq<u8>, Seq<u8>>, k: Seq<u8>)
    requires
        !m.contains_key(k),
    ensures
        m.remove(k) == m,
        !m.remove(k).contains_key(k),
{
    assert(m.remove(k) =~= m);
}

/// Two successive puts under one key leave the second value, exactly as one
/// put of the second value would.
pub proof fn lemma_overwrite(m: Map<Seq<u8>, Seq<u8>>, k: Seq<u8>, v1: Seq<u8>, v2: Seq<u8>)
    ensures
        m.insert(k, v1).insert(k, v2) == m.insert(k, v2),
        m.insert(k, v1).insert(k, v2)[k] == v2,
{
    assert(m.insert(k, v1).insert(k, v2) =~= m.insert(k, v2));
}

/// Snapshot isolation: a read pinned to a snapshot sees the pinned map,
/// whatever the database holds by the time of the read — in particular it
/// does not observe a put made after the snapshot was taken.
pub proof fn lemma_snapshot_isolation(
    db_later: &DB,
    options: &ReadOptions,
    pinned: Map<Seq<u8>, Seq<u8>>,
)
    requires
        options.snapshot matches Some(s) && s@ == pinned,
    ensures
        read_view(db_later, options) == pinned,
{
}

} // verus!
