//! Keyed entry sequences: the lexicographic key order in which a manifest
//! table hands out its entries, lookup by key, and key membership.

use vstd::prelude::*;

verus! {

/// Strict lexicographic order on character sequences: `a` comes before `b`.
pub open spec fn str_lt(a: Seq<char>, b: Seq<char>) -> bool
    decreases a.len(),
{
    if b.len() == 0 {
        false
    } else if a.len() == 0 {
        true
    } else if a[0] != b[0] {
        a[0] < b[0]
    } else {
        str_lt(a.skip(1), b.skip(1))
    }
}

/// The keys of `es` are strictly increasing.
pub open spec fn keys_sorted<V>(es: Seq<(Seq<char>, V)>) -> bool {
    forall|i: int, j: int|
        0 <= i < j < es.len() ==> str_lt(#[trigger] es[i].0, #[trigger] es[j].0)
}

/// The value of the first entry bearing key `k`, if any entry does.
pub open spec fn find_entry<V>(es: Seq<(Seq<char>, V)>, k: Seq<char>) -> Option<V>
    decreases es.len(),
{
    if es.len() == 0 {
        None
    } else if es[0].0 == k {
        Some(es[0].1)
    } else {
        find_entry(es.skip(1), k)
    }
}

/// Whether some entry bears key `k`.
pub open spec fn has_key<V>(es: Seq<(Seq<char>, V)>, k: Seq<char>) -> bool {
    exists|i: int| 0 <= i < es.len() && (#[trigger] es[i]).0 == k
}

/// Lookup succeeds exactly on the keys that occur.
pub proof fn lemma_find_entry_has_key<V>(es: Seq<(Seq<char>, V)>, k: Seq<char>)
    ensures
        find_entry(es, k) is Some <==> has_key(es, k),
    decreases es.len(),
{
    if es.len() > 0 {
        lemma_find_entry_has_key(es.skip(1), k);
        if es[0].0 != k {
            if has_key(es, k) {
                let i = choose|i: int| 0 <= i < es.len() && (#[trigger] es[i]).0 == k;
                if i > 0 {
                    assert(es.skip(1)[i - 1].0 == k);
                }
            }
            if has_key(es.skip(1), k) {
                let i = choose|i: int| 0 <= i < es.skip(1).len() && (#[trigger] es.skip(1)[i]).0 == k;
                assert(es[i + 1].0 == k);
            }
        }
    }
}

} // verus!
