//! The ordered store that the engine presents to its callers.
//!
//! A database's visible contents form a sequence of key-value entries, kept
//! strictly sorted by byte-lexicographic key order.  This module holds that
//! representation together with the verified point operations on it (lookup,
//! insert-or-overwrite, remove, lower bound) and the lemmas that connect the
//! ordered sequence to its `Map` reading.

use vstd::prelude::*;

use crate::bytes::{bytes_eq, clone_bytes, lemma_lex_asym, lemma_lex_irrefl, lemma_lex_total,
    lemma_lex_trans, lex_lt, lex_lt_bytes};

verus! {

/// One key-value entry of the store.
pub(crate) struct Entry {
    pub(crate) key: Vec<u8>,
    pub(crate) value: Vec<u8>,
}

/// The mathematical reading of an entry sequence: a sequence of byte-string pairs.
pub(crate) open spec fn entry_views(es: Seq<Entry>) -> Seq<(Seq<u8>, Seq<u8>)> {
    Seq::new(es.len(), |i: int| (es[i].key@, es[i].value@))
}

/// The keys of a pair sequence are strictly increasing in byte-lexicographic
/// order; in particular every key occurs at most once.
pub open spec fn pairs_sorted(s: Seq<(Seq<u8>, Seq<u8>)>) -> bool {
    forall|i: int, j: int| 0 <= i < j < s.len() ==> lex_lt(s[i].0, s[j].0)
}

/// The map that a pair sequence denotes; a later pair for the same key wins.
pub open spec fn pairs_map(s: Seq<(Seq<u8>, Seq<u8>)>) -> Map<Seq<u8>, Seq<u8>>
    decreases s.len(),
{
    if s.len() == 0 {
        Map::empty()
    } else {
        pairs_map(s.drop_last()).insert(s.last().0, s.last().1)
    }
}

/// The entry sequence is sorted by strictly increasing key.
pub(crate) open spec fn sorted_entries(es: Seq<Entry>) -> bool {
    forall|i: int, j: int| 0 <= i < j < es.len() ==> lex_lt(es[i].key@, es[j].key@)
}

/// The map denoted by an entry sequence.
pub(crate) open spec fn entries_map(es: Seq<Entry>) -> Map<Seq<u8>, Seq<u8>> {
    pairs_map(entry_views(es))
}

/// A key is in the map of a pair sequence exactly when some pair holds it.
pub proof fn lemma_pairs_map_membership(s: Seq<(Seq<u8>, Seq<u8>)>, k: Seq<u8>)
    ensures
        pairs_map(s).contains_key(k) <==> exists|i: int| 0 <= i < s.len() && s[i].0 == k,
    decreases s.len(),
{
    if s.len() > 0 {
        lemma_pairs_map_membership(s.drop_last(), k);
        if pairs_map(s).contains_key(k) {
            if k == s.last().0 {
                assert(s[s.len() - 1].0 == k);
            } else {
                let i = choose|i: int| 0 <= i < s.drop_last().len() && s.drop_last()[i].0 == k;
                assert(s[i].0 == k);
            }
        }
        if exists|i: int| 0 <= i < s.len() && s[i].0 == k {
            let i = choose|i: int| 0 <= i < s.len() && s[i].0 == k;
            if i < s.len() - 1 {
                assert(s.drop_last()[i].0 == k);
            }
        }
    }
}

/// A sorted entry sequence reads as a sorted pair sequence.
pub(crate) proof fn lemma_entry_views_sorted(es: Seq<Entry>)
    requires
        sorted_entries(es),
    ensures
        pairs_sorted(entry_views(es)),
{
    assert forall|i: int, j: int| 0 <= i < j < entry_views(es).len()
        implies lex_lt(entry_views(es)[i].0, entry_views(es)[j].0) by {
        assert(entry_views(es)[i].0 == es[i].key@);
        assert(entry_views(es)[j].0 == es[j].key@);
    }
}

/// In a sorted pair sequence, each pair's key is mapped to that pair's value.
pub proof fn lemma_pairs_map_values(s: Seq<(Seq<u8>, Seq<u8>)>)
    requires
        pairs_sorted(s),
    ensures
        forall|i: int| 0 <= i < s.len() ==>
            pairs_map(s).contains_key(#[trigger] s[i].0) && pairs_map(s)[s[i].0] == s[i].1,
    decreases s.len(),
{
    if s.len() > 0 {
        assert(pairs_sorted(s.drop_last()));
        lemma_pairs_map_values(s.drop_last());
        assert forall|i: int| 0 <= i < s.len()
            implies pairs_map(s).contains_key(#[trigger] s[i].0)
                && pairs_map(s)[s[i].0] == s[i].1 by {
            if i < s.len() - 1 {
                assert(lex_lt(s[i].0, s.last().0));
                lemma_lex_irrefl(s[i].0);
                assert(s[i].0 != s.last().0);
                assert(s.drop_last()[i] == s[i]);
            }
        }
    }
}

/// Inserting a fresh key at any position turns the denoted map into the map
/// with that key bound.
proof fn lemma_pairs_map_insert_at(s: Seq<(Seq<u8>, Seq<u8>)>, i: int, k: Seq<u8>, v: Seq<u8>)
    requires
        0 <= i <= s.len(),
        forall|j: int| 0 <= j < s.len() ==> #[trigger] s[j].0 != k,
    ensures
        pairs_map(s.insert(i, (k, v))) == pairs_map(s).insert(k, v),
    decreases s.len(),
{
    let t = s.insert(i, (k, v));
    if i == s.len() {
        assert(t.drop_last() =~= s);
        assert(t.last() == (k, v));
    } else {
        assert(t.last() == s.last());
        assert(t.drop_last() =~= s.drop_last().insert(i, (k, v)));
        assert(forall|j: int| 0 <= j < s.drop_last().len()
            ==> #[trigger] s.drop_last()[j].0 != k);
        lemma_pairs_map_insert_at(s.drop_last(), i, k, v);
        assert(s.last().0 != k);
        assert(pairs_map(s.drop_last()).insert(k, v).insert(s.last().0, s.last().1)
            =~= pairs_map(s.drop_last()).insert(s.last().0, s.last().1).insert(k, v));
    }
}

/// Overwriting the value at a position whose key occurs nowhere else turns the
/// denoted map into the map with that key rebound.
proof fn lemma_pairs_map_update_at(s: Seq<(Seq<u8>, Seq<u8>)>, i: int, v: Seq<u8>)
    requires
        0 <= i < s.len(),
        forall|j: int| 0 <= j < s.len() && j != i ==> #[trigger] s[j].0 != s[i].0,
    ensures
        pairs_map(s.update(i, (s[i].0, v))) == pairs_map(s).insert(s[i].0, v),
    decreases s.len(),
{
    let t = s.update(i, (s[i].0, v));
    if i == s.len() - 1 {
        assert(t.drop_last() =~= s.drop_last());
        assert(t.last() == (s[i].0, v));
        assert(pairs_map(s.drop_last()).insert(s[i].0, v)
            =~= pairs_map(s.drop_last()).insert(s.last().0, s.last().1).insert(s[i].0, v));
    } else {
        assert(t.last() == s.last());
        assert(t.drop_last() =~= s.drop_last().update(i, (s[i].0, v)));
        assert(forall|j: int| 0 <= j < s.drop_last().len() && j != i
            ==> #[trigger] s.drop_last()[j].0 != s.drop_last()[i].0);
        lemma_pairs_map_update_at(s.drop_last(), i, v);
        assert(s.drop_last()[i] == s[i]);
        assert(s.last().0 != s[i].0);
        assert(pairs_map(s.drop_last()).insert(s[i].0, v).insert(s.last().0, s.last().1)
            =~= pairs_map(s.drop_last()).insert(s.last().0, s.last().1).insert(s[i].0, v));
    }
}

/// Removing the one position that holds a key removes that key from the
/// denoted map.
proof fn lemma_pairs_map_remove_at(s: Seq<(Seq<u8>, Seq<u8>)>, i: int)
    requires
        0 <= i < s.len(),
        forall|j: int| 0 <= j < s.len() && j != i ==> #[trigger] s[j].0 != s[i].0,
    ensures
        pairs_map(s.remove(i)) == pairs_map(s).remove(s[i].0),
    decreases s.len(),
{
    let t = s.remove(i);
    if i == s.len() - 1 {
        assert(t =~= s.drop_last());
        lemma_pairs_map_membership(s.drop_last(), s[i].0);
        assert(!pairs_map(s.drop_last()).contains_key(s[i].0));
        assert(pairs_map(s.drop_last())
            =~= pairs_map(s.drop_last()).insert(s.last().0, s.last().1).remove(s[i].0));
    } else {
        assert(t.last() == s.last());
        assert(t.drop_last() =~= s.drop_last().remove(i));
        assert(forall|j: int| 0 <= j < s.drop_last().len() && j != i
            ==> #[trigger] s.drop_last()[j].0 != s.drop_last()[i].0);
        lemma_pairs_map_remove_at(s.drop_last(), i);
        assert(s.drop_last()[i] == s[i]);
        assert(s.last().0 != s[i].0);
        assert(pairs_map(s.drop_last()).remove(s[i].0).insert(s.last().0, s.last().1)
            =~= pairs_map(s.drop_last()).insert(s.last().0, s.last().1).remove(s[i].0));
    }
}

/// The least position whose key is not below `key`; `es.len()` when every key
/// is below it.
pub(crate) fn lower_bound(es: &Vec<Entry>, key: &[u8]) -> (i: usize)
    requires
        sorted_entries(es@),
    ensures
        0 <= i <= es@.len(),
        forall|j: int| 0 <= j < i ==> lex_lt(#[trigger] es@[j].key@, key@),
        forall|j: int| i <= j < es@.len() ==> !lex_lt(#[trigger] es@[j].key@, key@),
{
    let n = es.len();
    let mut i: usize = 0;
    while i < n
        invariant
            sorted_entries(es@),
            n == es@.len(),
            0 <= i <= n,
            forall|j: int| 0 <= j < i ==> lex_lt(#[trigger] es@[j].key@, key@),
        decreases n - i,
    {
        if !lex_lt_bytes(es[i].key.as_slice(), key) {
            proof {
                assert forall|j: int| i <= j < es@.len()
                    implies !lex_lt(#[trigger] es@[j].key@, key@) by {
                    if j > i && lex_lt(es@[j].key@, key@) {
                        assert(lex_lt(es@[i as int].key@, es@[j].key@));
                        lemma_lex_trans(es@[i as int].key@, es@[j].key@, key@);
                    }
                }
            }
            return i;
        }
        i = i + 1;
    }
    i
}

/// Point lookup.
pub(crate) fn store_lookup(es: &Vec<Entry>, key: &[u8]) -> (r: Option<Vec<u8>>)
    requires
        sorted_entries(es@),
    ensures
        match r {
            Some(v) => entries_map(es@).contains_key(key@) && v@ == entries_map(es@)[key@],
            None => !entries_map(es@).contains_key(key@),
        },
{
    let n = es.len();
    let i = lower_bound(es, key);
    if i < n && bytes_eq(es[i].key.as_slice(), key) {
        let v = clone_bytes(es[i].value.as_slice());
        proof {
            lemma_entry_views_sorted(es@);
            lemma_pairs_map_values(entry_views(es@));
            assert(entry_views(es@)[i as int].0 == key@);
            assert(entry_views(es@)[i as int].1 == es@[i as int].value@);
            assert(entries_map(es@).contains_key(key@));
            assert(entries_map(es@)[key@] == es@[i as int].value@);
        }
        Some(v)
    } else {
        proof {
            assert forall|j: int| 0 <= j < es@.len()
                implies #[trigger] es@[j].key@ != key@ by {
                if j < i {
                    lemma_lex_irrefl(key@);
                } else if j == i {
                    assert(es@[j].key@ != key@);
                } else {
                    assert(lex_lt(es@[i as int].key@, es@[j].key@));
                    lemma_lex_total(es@[i as int].key@, key@);
                    lemma_lex_trans(key@, es@[i as int].key@, es@[j].key@);
                    lemma_lex_irrefl(key@);
                }
            }
            lemma_pairs_map_membership(entry_views(es@), key@);
            assert forall|j: int| 0 <= j < entry_views(es@).len()
                implies #[trigger] entry_views(es@)[j].0 != key@ by {
                assert(entry_views(es@)[j].0 == es@[j].key@);
            }
        }
        None
    }
}

/// Insert or overwrite.
pub(crate) fn store_put(es: &mut Vec<Entry>, key: &[u8], value: &[u8])
    requires
        sorted_entries(old(es)@),
    ensures
        sorted_entries(final(es)@),
        entries_map(final(es)@) == entries_map(old(es)@).insert(key@, value@),
{
    let n = es.len();
    let i = lower_bound(es, key);
    let e = Entry { key: clone_bytes(key), value: clone_bytes(value) };
    if i < n && bytes_eq(es[i].key.as_slice(), key) {
        let ghost s0 = entry_views(es@);
        es.set(i, e);
        proof {
            assert forall|p: int, q: int| 0 <= p < q < es@.len()
                implies lex_lt(es@[p].key@, es@[q].key@) by {
                assert(lex_lt(old(es)@[p].key@, old(es)@[q].key@));
            }
            assert forall|j: int| 0 <= j < s0.len() && j != i
                implies #[trigger] s0[j].0 != s0[i as int].0 by {
                if j < i {
                    lemma_lex_asym_ne(s0[j].0, s0[i as int].0);
                } else {
                    lemma_lex_asym_ne(s0[i as int].0, s0[j].0);
                }
            }
            lemma_pairs_map_update_at(s0, i as int, value@);
            assert(entry_views(es@) =~= s0.update(i as int, (s0[i as int].0, value@)));
        }
    } else {
        let ghost s0 = entry_views(es@);
        es.insert(i, e);
        proof {
            assert forall|j: int| 0 <= j < s0.len()
                implies #[trigger] s0[j].0 != key@ by {
                assert(s0[j].0 == old(es)@[j].key@);
                if j < i {
                    lemma_lex_asym_ne(s0[j].0, key@);
                } else if j == i {
                    assert(old(es)@[j].key@ != key@);
                } else {
                    assert(lex_lt(old(es)@[i as int].key@, old(es)@[j].key@));
                    lemma_lex_total(old(es)@[i as int].key@, key@);
                    lemma_lex_trans(key@, old(es)@[i as int].key@, old(es)@[j].key@);
                    lemma_lex_irrefl(key@);
                }
            }
            assert forall|j: int| i <= j < s0.len()
                implies lex_lt(key@, #[trigger] s0[j].0) by {
                lemma_lex_total(s0[j].0, key@);
            }
            assert forall|p: int, q: int| 0 <= p < q < es@.len()
                implies lex_lt(es@[p].key@, es@[q].key@) by {
                if q < i {
                    assert(lex_lt(old(es)@[p].key@, old(es)@[q].key@));
                } else if p < i && q == i {
                    assert(lex_lt(old(es)@[p].key@, key@));
                } else if p < i && q > i {
                    assert(lex_lt(old(es)@[p].key@, old(es)@[q - 1].key@));
                } else if p == i {
                    assert(lex_lt(key@, s0[q - 1].0));
                } else {
                    assert(lex_lt(old(es)@[p - 1].key@, old(es)@[q - 1].key@));
                }
            }
            lemma_pairs_map_insert_at(s0, i as int, key@, value@);
            assert(entry_views(es@) =~= s0.insert(i as int, (key@, value@)));
        }
    }
}

/// Remove; absent keys are untouched.
pub(crate) fn store_delete(es: &mut Vec<Entry>, key: &[u8])
    requires
        sorted_entries(old(es)@),
    ensures
        sorted_entries(final(es)@),
        entries_map(final(es)@) == entries_map(old(es)@).remove(key@),
{
    let n = es.len();
    let i = lower_bound(es, key);
    if i < n && bytes_eq(es[i].key.as_slice(), key) {
        let ghost s0 = entry_views(es@);
        es.remove(i);
        proof {
            assert forall|p: int, q: int| 0 <= p < q < es@.len()
                implies lex_lt(es@[p].key@, es@[q].key@) by {
                if q < i {
                    assert(lex_lt(old(es)@[p].key@, old(es)@[q].key@));
                } else if p < i {
                    assert(lex_lt(old(es)@[p].key@, old(es)@[q + 1].key@));
                } else {
                    assert(lex_lt(old(es)@[p + 1].key@, old(es)@[q + 1].key@));
                }
            }
            assert forall|j: int| 0 <= j < s0.len() && j != i
                implies #[trigger] s0[j].0 != s0[i as int].0 by {
                if j < i {
                    lemma_lex_asym_ne(s0[j].0, s0[i as int].0);
                } else {
                    lemma_lex_asym_ne(s0[i as int].0, s0[j].0);
                }
            }
            lemma_pairs_map_remove_at(s0, i as int);
            assert(entry_views(es@) =~= s0.remove(i as int));
            assert(s0[i as int].0 == key@);
        }
    } else {
        proof {
            assert forall|j: int| 0 <= j < es@.len()
                implies #[trigger] es@[j].key@ != key@ by {
                if j < i {
                    lemma_lex_asym_ne(es@[j].key@, key@);
                } else if j == i {
                    assert(es@[j].key@ != key@);
                } else {
                    assert(lex_lt(es@[i as int].key@, es@[j].key@));
                    lemma_lex_total(es@[i as int].key@, key@);
                    lemma_lex_trans(key@, es@[i as int].key@, es@[j].key@);
                    lemma_lex_irrefl(key@);
                }
            }
            lemma_pairs_map_membership(entry_views(es@), key@);
            assert forall|j: int| 0 <= j < entry_views(es@).len()
                implies #[trigger] entry_views(es@)[j].0 != key@ by {
                assert(entry_views(es@)[j].0 == es@[j].key@);
            }
            assert(!entries_map(es@).contains_key(key@));
            assert(entries_map(es@) =~= entries_map(es@).remove(key@));
        }
    }
}

/// A sorted pair sequence is determined by the map it denotes: two sorted
/// sequences denoting one map are one sequence.  Iterating in ascending key
/// order over the contents a read sees therefore admits exactly one sequence
/// of entries, and backward iteration exactly its reverse.
pub proof fn lemma_sorted_pairs_unique(s1: Seq<(Seq<u8>, Seq<u8>)>, s2: Seq<(Seq<u8>, Seq<u8>)>)
    requires
        pairs_sorted(s1),
        pairs_sorted(s2),
        pairs_map(s1) == pairs_map(s2),
    ensures
        s1 == s2,
    decreases s1.len(),
{
    if s1.len() == 0 && s2.len() == 0 {
        assert(s1 =~= s2);
    } else if s1.len() == 0 {
        lemma_pairs_map_membership(s1, s2.last().0);
        lemma_pairs_map_membership(s2, s2.last().0);
        assert(s2[s2.len() - 1].0 == s2.last().0);
        assert(false);
    } else if s2.len() == 0 {
        lemma_pairs_map_membership(s2, s1.last().0);
        lemma_pairs_map_membership(s1, s1.last().0);
        assert(s1[s1.len() - 1].0 == s1.last().0);
        assert(false);
    } else {
        let k1 = s1.last().0;
        let k2 = s2.last().0;
        assert(s1[s1.len() - 1].0 == k1);
        assert(s2[s2.len() - 1].0 == k2);
        lemma_pairs_map_membership(s1, k1);
        lemma_pairs_map_membership(s2, k1);
        lemma_pairs_map_membership(s2, k2);
        lemma_pairs_map_membership(s1, k2);
        assert(k1 == k2) by {
            let i = choose|i: int| 0 <= i < s2.len() && s2[i].0 == k1;
            let j = choose|j: int| 0 <= j < s1.len() && s1[j].0 == k2;
            if k1 != k2 {
                // The last key of each sequence is its greatest, so each of
                // the two keys sits at or below the other: a contradiction.
                assert(lex_lt(s2[i].0, k2));
                assert(lex_lt(s1[j].0, k1));
                lemma_lex_asym(k1, k2);
            }
        }
        lemma_pairs_map_values(s1);
        lemma_pairs_map_values(s2);
        assert(s1.last().1 == pairs_map(s1)[k1]);
        assert(s2.last().1 == pairs_map(s2)[k1]);
        assert forall|j: int| 0 <= j < s1.len() && j != s1.len() - 1
            implies #[trigger] s1[j].0 != s1[s1.len() - 1].0 by {
            lemma_lex_asym_ne(s1[j].0, k1);
        }
        assert forall|j: int| 0 <= j < s2.len() && j != s2.len() - 1
            implies #[trigger] s2[j].0 != s2[s2.len() - 1].0 by {
            lemma_lex_asym_ne(s2[j].0, k2);
        }
        lemma_pairs_map_remove_at(s1, s1.len() - 1);
        lemma_pairs_map_remove_at(s2, s2.len() - 1);
        assert(s1.remove(s1.len() - 1) =~= s1.drop_last());
        assert(s2.remove(s2.len() - 1) =~= s2.drop_last());
        assert(pairs_sorted(s1.drop_last()));
        assert(pairs_sorted(s2.drop_last()));
        lemma_sorted_pairs_unique(s1.drop_last(), s2.drop_last());
        assert forall|j: int| 0 <= j < s1.len() implies s1[j] == s2[j] by {
            if j < s1.len() - 1 {
                assert(s1.drop_last()[j] == s2.drop_last()[j]);
            }
        }
        assert(s1 =~= s2);
    }
}

/// A byte string strictly below another is a different byte string.
proof fn lemma_lex_asym_ne(a: Seq<u8>, b: Seq<u8>)
    requires
        lex_lt(a, b),
    ensures
        a != b,
{
    lemma_lex_irrefl(a);
}

/// An owned copy of an entry sequence with the same reading.
pub(crate) fn clone_entries(es: &Vec<Entry>) -> (r: Vec<Entry>)
    ensures
        r@.len() == es@.len(),
        forall|i: int| 0 <= i < es@.len()
            ==> (#[trigger] r@[i]).key@ == es@[i].key@ && r@[i].value@ == es@[i].value@,
        entry_views(r@) == entry_views(es@),
        sorted_entries(es@) ==> sorted_entries(r@),
{
    let n = es.len();
    let mut r: Vec<Entry> = Vec::new();
    let mut i: usize = 0;
    while i < n
        invariant
            n == es@.len(),
            0 <= i <= n,
            r@.len() == i,
            forall|j: int| 0 <= j < i
                ==> (#[trigger] r@[j]).key@ == es@[j].key@ && r@[j].value@ == es@[j].value@,
        decreases n - i,
    {
        let e = Entry {
            key: clone_bytes(es[i].key.as_slice()),
            value: clone_bytes(es[i].value.as_slice()),
        };
        r.push(e);
        i = i + 1;
    }
    proof {
        assert(entry_views(r@) =~= entry_views(es@));
    }
    r
}

} // verus!
