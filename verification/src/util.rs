//! Validation of values that cross to the engine.
//!
//! The engine takes the database path as a nul-terminated string, so a path
//! holding an interior nul byte cannot be handed to it and is rejected up
//! front as `Error::InvalidPath`.

use vstd::prelude::*;

verus! {

/// Whether a byte string can be handed to the engine as a path: it holds no
/// nul byte.
pub open spec fn encodable_path(p: Seq<u8>) -> bool {
    forall|i: int| 0 <= i < p.len() ==> p[i] != 0
}

/// Whether `path` can be encoded for the engine.
pub fn path_encodable(path: &[u8]) -> (r: bool)
    ensures
        r == encodable_path(path@),
{
    let n = path.len();
    let mut i: usize = 0;
    while i < n
        invariant
            n == path@.len(),
            0 <= i <= n,
            forall|j: int| 0 <= j < i ==> path@[j] != 0,
        decreases n - i,
    {
        if path[i] == 0 {
            return false;
        }
        i = i + 1;
    }
    true
}

} // verus!
