//! An ordered batch of pending writes, committed as one atomic unit.
//!
//! A batch buffers put and delete operations locally: nothing reaches the
//! database until `write`, which applies every buffered operation together,
//! in order.  The batch itself is unaffected by the commit and can be written
//! again or cleared for reuse; a batch dropped without `write` never touched
//! the database at all.

use vstd::prelude::*;

use crate::bytes::clone_bytes;
use crate::db::DB;
use crate::error::Error;
use crate::options::WriteOptions;

verus! {

/// One buffered operation: a key bound to `Some` value to put, or to `None`
/// to delete.
pub type Edit = (Seq<u8>, Option<Seq<u8>>);

/// The map that results from applying buffered operations in order.
pub open spec fn apply_edits(m: Map<Seq<u8>, Seq<u8>>, edits: Seq<Edit>) -> Map<Seq<u8>, Seq<u8>>
    decreases edits.len(),
{
    if edits.len() == 0 {
        m
    } else {
        let rest = apply_edits(m, edits.drop_last());
        match edits.last().1 {
            Some(v) => rest.insert(edits.last().0, v),
            None => rest.remove(edits.last().0),
        }
    }
}

enum BatchOp {
    Put { key: Vec<u8>, value: Vec<u8> },
    Delete { key: Vec<u8> },
}

/// An ordered list of pending put and delete operations.
pub struct WriteBatch {
    ops: Vec<BatchOp>,
}

impl WriteBatch {
    /// The buffered operations, in the order they will apply.
    pub closed spec fn edits(self) -> Seq<Edit> {
        Seq::new(
            self.ops@.len(),
            |i: int|
                match self.ops@[i] {
                    BatchOp::Put { key, value } => (key@, Some(value@)),
                    BatchOp::Delete { key } => (key@, None),
                },
        )
    }

    /// An empty batch.
    pub fn new() -> (r: WriteBatch)
        ensures
            r.edits() == Seq::<Edit>::empty(),
    {
        let r = WriteBatch { ops: Vec::new() };
        proof {
            assert(r.edits() =~= Seq::<Edit>::empty());
        }
        r
    }

    /// Buffer a put of `value` under `key`; the database is untouched.
    pub fn put(&mut self, key: &[u8], value: &[u8])
        ensures
            final(self).edits() == old(self).edits().push((key@, Some(value@))),
    {
        self.ops.push(BatchOp::Put { key: clone_bytes(key), value: clone_bytes(value) });
        proof {
            assert(self.edits() =~= old(self).edits().push((key@, Some(value@))));
        }
    }

    /// Buffer a delete of `key`; the database is untouched.
    pub fn delete(&mut self, key: &[u8])
        ensures
            final(self).edits() == old(self).edits().push((key@, None)),
    {
        self.ops.push(BatchOp::Delete { key: clone_bytes(key) });
        proof {
            assert(self.edits() =~= old(self).edits().push((key@, None)));
        }
    }

    /// Discard every buffered operation, leaving the batch empty for reuse.
    pub fn clear(&mut self)
        ensures
            final(self).edits() == Seq::<Edit>::empty(),
    {
        self.ops.clear();
        proof {
            assert(self.edits() =~= Seq::<Edit>::empty());
        }
    }

    /// Commit the batch: apply every buffered operation to `db` as one atomic
    /// unit, in order.  The batch keeps its operations and may be reused.
    pub fn write(&self, db: &mut DB, options: &WriteOptions) -> (r: Result<(), Error>)
        ensures
            r is Ok,
            final(db)@ == apply_edits(old(db)@, self.edits()),
    {
        let ghost m0 = db@;
        let n = self.ops.len();
        let mut i: usize = 0;
        while i < n
            invariant
                n == self.ops@.len(),
                0 <= i <= n,
                db@ == apply_edits(m0, self.edits().subrange(0, i as int)),
            decreases n - i,
        {
            let ghost done = self.edits().subrange(0, i as int);
            match &self.ops[i] {
                BatchOp::Put { key, value } => {
                    let _ = db.put(key.as_slice(), value.as_slice(), options);
                },
                BatchOp::Delete { key } => {
                    let _ = db.delete(key.as_slice(), options);
                },
            }
            proof {
                let next = self.edits().subrange(0, i + 1);
                assert(next.drop_last() =~= done);
                assert(next.last() == self.edits()[i as int]);
            }
            i = i + 1;
        }
        proof {
            assert(self.edits().subrange(0, n as int) =~= self.edits());
        }
        Ok(())
    }
}

impl Default for WriteBatch {
    /// The same empty batch as [`WriteBatch::new`].
    fn default() -> (r: Self)
        ensures
            r.edits() == Seq::<Edit>::empty(),
    {
        WriteBatch::new()
    }
}

/// Batch atomicity, seen from a key the batch never touches: committing the
/// batch neither adds, removes, nor changes that key's binding.
pub proof fn lemma_batch_untouched_key(m: Map<Seq<u8>, Seq<u8>>, edits: Seq<Edit>, k: Seq<u8>)
    requires
        forall|i: int| 0 <= i < edits.len() ==> (#[trigger] edits[i]).0 != k,
    ensures
        apply_edits(m, edits).contains_key(k) == m.contains_key(k),
        m.contains_key(k) ==> apply_edits(m, edits)[k] == m[k],
    decreases edits.len(),
{
    if edits.len() > 0 {
        assert(forall|i: int| 0 <= i < edits.drop_last().len()
            ==> (#[trigger] edits.drop_last()[i]).0 != k);
        lemma_batch_untouched_key(m, edits.drop_last(), k);
    }
}

/// Batch atomicity, seen from a touched key: once the batch is committed,
/// the last buffered operation on each key has taken effect — a put shows
/// its value, a delete leaves the key absent.
pub proof fn lemma_batch_last_edit_wins(m: Map<Seq<u8>, Seq<u8>>, edits: Seq<Edit>, i: int)
    requires
        0 <= i < edits.len(),
        forall|j: int| i < j < edits.len() ==> (#[trigger] edits[j]).0 != edits[i].0,
    ensures
        match edits[i].1 {
            Some(v) => apply_edits(m, edits).contains_key(edits[i].0) && apply_edits(m, edits)[edits[i].0] == v,
            None => !apply_edits(m, edits).contains_key(edits[i].0),
        },
    decreases edits.len(),
{
    if i == edits.len() - 1 {
    } else {
        assert(forall|j: int| i < j < edits.drop_last().len()
            ==> (#[trigger] edits.drop_last()[j]).0 != edits.drop_last()[i].0);
        lemma_batch_last_edit_wins(m, edits.drop_last(), i);
        assert(edits.drop_last()[i] == edits[i]);
        assert(edits.last().0 != edits[i].0);
    }
}

} // verus!
