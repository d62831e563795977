//! A cursor over the database's key space as of the cursor's creation.
//!
//! The cursor is a two-state machine: *valid*, positioned at an existing
//! entry, or *invalid*, past either end or not yet positioned.  Seeks position
//! it; steps move it one entry and may run off either end; `key` and `value`
//! hand out copies only in the valid state.  Stepping while invalid is a
//! defined no-op, never a fault.  The entries it walks were pinned when it was
//! created: later writes to the database do not reach an existing cursor.

use vstd::prelude::*;

use crate::bytes::{clone_bytes, lex_lt};
use crate::db::{read_view, DB};
use crate::options::ReadOptions;
use crate::store::{clone_entries, entry_views, lemma_entry_views_sorted, lower_bound, pairs_map,
    pairs_sorted, sorted_entries, Entry};

verus! {

/// A cursor over one pinned state of the database.
pub struct DBIterator {
    entries: Vec<Entry>,
    pos: usize,
}

impl DBIterator {
    #[verifier::type_invariant]
    spec fn inv(self) -> bool {
        sorted_entries(self.entries@) && self.pos <= self.entries@.len()
    }

    /// The pinned contents this cursor walks, in ascending key order.
    pub closed spec fn entries(self) -> Seq<(Seq<u8>, Seq<u8>)> {
        entry_views(self.entries@)
    }

    /// The cursor's position: an index into `entries()` when valid, the
    /// length of `entries()` when invalid.
    pub closed spec fn position(self) -> int {
        self.pos as int
    }

    /// Whether the cursor denotes an existing entry.
    pub open spec fn spec_valid(self) -> bool {
        self.position() < self.entries().len()
    }

    /// Create a cursor over the contents the given options read, pinned now
    /// and positioned before the first entry.
    pub(crate) fn new(db: &DB, options: &ReadOptions) -> (it: DBIterator)
        ensures
            it.entries() == match options.snapshot {
                Some(s) => s.kv_seq(),
                None => db.kv_seq(),
            },
            pairs_sorted(it.entries()),
            pairs_map(it.entries()) == read_view(db, options),
            it.position() == it.entries().len(),
    {
        let es = match &options.snapshot {
            Some(s) => clone_entries(s.borrow_entries()),
            None => clone_entries(db.borrow_entries()),
        };
        let n = es.len();
        let it = DBIterator { entries: es, pos: n };
        proof {
            lemma_entry_views_sorted(it.entries@);
        }
        it
    }

    /// Move to the first entry; the cursor becomes valid exactly when the
    /// pinned contents are non-empty.
    pub fn seek_to_first(&mut self)
        ensures
            final(self).entries() == old(self).entries(),
            final(self).position() == 0,
    {
        proof {
            use_type_invariant(&*self);
        }
        self.pos = 0;
    }

    /// Move to the last entry; the cursor becomes valid exactly when the
    /// pinned contents are non-empty.
    pub fn seek_to_last(&mut self)
        ensures
            final(self).entries() == old(self).entries(),
            old(self).entries().len() > 0 ==> final(self).position() == old(self).entries().len() - 1,
            old(self).entries().len() == 0 ==> final(self).position() == 0,
    {
        proof {
            use_type_invariant(&*self);
        }
        let n = self.entries.len();
        self.pos = if n > 0 {
            n - 1
        } else {
            0
        };
    }

    /// Move to the first entry whose key is at or above `key` in
    /// byte-lexicographic order; the cursor becomes invalid when every key is
    /// below `key`.
    pub fn seek(&mut self, key: &[u8])
        ensures
            final(self).entries() == old(self).entries(),
            0 <= final(self).position() <= final(self).entries().len(),
            forall|j: int| 0 <= j < final(self).position() ==> lex_lt(
                (#[trigger] final(self).entries()[j]).0,
                key@,
            ),
            final(self).spec_valid() ==> !lex_lt(
                final(self).entries()[final(self).position()].0,
                key@,
            ),
            !final(self).spec_valid() ==> final(self).position() == final(self).entries().len(),
    {
        proof {
            use_type_invariant(&*self);
        }
        let i = lower_bound(&self.entries, key);
        self.pos = i;
        proof {
            assert forall|j: int| 0 <= j < self.pos implies lex_lt(
                (#[trigger] entry_views(self.entries@)[j]).0,
                key@,
            ) by {
                assert(entry_views(self.entries@)[j].0 == self.entries@[j].key@);
            }
            if (self.pos as int) < self.entries@.len() {
                assert(entry_views(self.entries@)[self.pos as int].0 == self.entries@[self.pos as int].key@);
            }
        }
    }

    /// Step one entry forward; stepping off the last entry leaves the cursor
    /// invalid, and stepping while invalid is a no-op.
    pub fn next_native(&mut self)
        ensures
            final(self).entries() == old(self).entries(),
            old(self).spec_valid() ==> final(self).position() == old(self).position() + 1,
            !old(self).spec_valid() ==> final(self).position() == old(self).position(),
    {
        proof {
            use_type_invariant(&*self);
        }
        if self.pos < self.entries.len() {
            self.pos = self.pos + 1;
        }
    }

    /// Step one entry backward; stepping off the first entry leaves the
    /// cursor invalid, and stepping while invalid is a no-op.
    pub fn prev_native(&mut self)
        ensures
            final(self).entries() == old(self).entries(),
            old(self).spec_valid() && old(self).position() > 0 ==> final(self).position() == old(self).position() - 1,
            old(self).spec_valid() && old(self).position() == 0 ==> final(self).position() == final(self).entries().len(),
            !old(self).spec_valid() ==> final(self).position() == old(self).position(),
    {
        proof {
            use_type_invariant(&*self);
        }
        let n = self.entries.len();
        if self.pos < n {
            if self.pos == 0 {
                self.pos = n;
            } else {
                self.pos = self.pos - 1;
            }
        }
    }

    /// Whether the cursor denotes an existing entry.  Check this before
    /// reading `key` or `value`.
    pub fn valid(&self) -> (r: bool)
        ensures
            r == self.spec_valid(),
    {
        proof {
            use_type_invariant(self);
        }
        self.pos < self.entries.len()
    }

    /// A copy of the current entry's key, or `None` while the cursor is
    /// invalid — never partial or stale data.
    pub fn key(&self) -> (r: Option<Vec<u8>>)
        ensures
            match r {
                Some(k) => self.spec_valid() && k@ == self.entries()[self.position()].0,
                None => !self.spec_valid(),
            },
    {
        proof {
            use_type_invariant(self);
        }
        if self.pos < self.entries.len() {
            let k = clone_bytes(self.entries[self.pos].key.as_slice());
            proof {
                assert(entry_views(self.entries@)[self.pos as int].0 == self.entries@[self.pos as int].key@);
            }
            Some(k)
        } else {
            None
        }
    }

    /// A copy of the current entry's value, or `None` while the cursor is
    /// invalid — never partial or stale data.
    pub fn value(&self) -> (r: Option<Vec<u8>>)
        ensures
            match r {
                Some(v) => self.spec_valid() && v@ == self.entries()[self.position()].1,
                None => !self.spec_valid(),
            },
    {
        proof {
            use_type_invariant(self);
        }
        if self.pos < self.entries.len() {
            let v = clone_bytes(self.entries[self.pos].value.as_slice());
            proof {
                assert(entry_views(self.entries@)[self.pos as int].1 == self.entries@[self.pos as int].value@);
            }
            Some(v)
        } else {
            None
        }
    }

    /// Read the current entry, then step forward: `None` exactly when the
    /// cursor was already invalid.
    pub fn next(&mut self) -> (r: Option<(Vec<u8>, Vec<u8>)>)
        ensures
            final(self).entries() == old(self).entries(),
            match r {
                Some(kv) => old(self).spec_valid() && kv.0@ == old(self).entries()[old(self).position()].0 && kv.1@ == old(self).entries()[old(self).position()].1 && final(self).position() == old(self).position() + 1,
                None => !old(self).spec_valid() && final(self).position() == old(self).position(),
            },
    {
        if !self.valid() {
            return None;
        }
        let k = match self.key() {
            Some(k) => k,
            None => {
                return None;
            },
        };
        let v = match self.value() {
            Some(v) => v,
            None => {
                return None;
            },
        };
        self.next_native();
        Some((k, v))
    }

    /// Read the current entry, then step backward: `None` exactly when the
    /// cursor was already invalid.
    pub fn prev(&mut self) -> (r: Option<(Vec<u8>, Vec<u8>)>)
        ensures
            final(self).entries() == old(self).entries(),
            match r {
                Some(kv) => old(self).spec_valid() && kv.0@ == old(self).entries()[old(self).position()].0 && kv.1@ == old(self).entries()[old(self).position()].1 && (old(self).position() > 0 ==> final(self).position() == old(self).position() - 1) && (old(self).position() == 0 ==> final(self).position() == final(self).entries().len()),
                None => !old(self).spec_valid() && final(self).position() == old(self).position(),
            },
    {
        if !self.valid() {
            return None;
        }
        let k = match self.key() {
            Some(k) => k,
            None => {
                return None;
            },
        };
        let v = match self.value() {
            Some(v) => v,
            None => {
                return None;
            },
        };
        self.prev_native();
        Some((k, v))
    }
}

/// Over an empty pinned state the cursor can never be valid: every seek and
/// step reports invalid, and `key` and `value` stay `None`.
pub proof fn lemma_empty_iterator_invalid(it: &DBIterator)
    requires
        it.entries().len() == 0,
    ensures
        !it.spec_valid(),
{
}

} // verus!
