//! Sequences of key/value pairs, keyed by a `u32` identifier.
//!
//! Both the record store and the case lookup table keep their data as a
//! vector of `(Id, value)` pairs. The spec functions here give such a
//! sequence its mathematical reading: key membership, the index and the
//! value a key maps to, and the key-ordering invariants the containers
//! maintain.

use vstd::prelude::*;

verus! {

/// Identifier type shared by records and cases.
pub type Id = u32;

/// `k` occurs as a key somewhere in `s`.
pub open spec fn has_key<V>(s: Seq<(Id, V)>, k: Id) -> bool {
    exists|i: int| 0 <= i < s.len() && (#[trigger] s[i]).0 == k
}

/// The index at which key `k` sits. Meaningful only when `has_key(s, k)`
/// holds and keys are distinct.
pub open spec fn idx_of<V>(s: Seq<(Id, V)>, k: Id) -> int {
    choose|i: int| 0 <= i < s.len() && (#[trigger] s[i]).0 == k
}

/// The value stored under key `k`. Meaningful only when `has_key(s, k)`
/// holds and keys are distinct.
pub open spec fn value_at<V>(s: Seq<(Id, V)>, k: Id) -> V {
    s[idx_of(s, k)].1
}

/// No key occurs twice.
pub open spec fn keys_distinct<V>(s: Seq<(Id, V)>) -> bool {
    forall|i: int, j: int|
        0 <= i < j < s.len() ==> (#[trigger] s[i]).0 != (#[trigger] s[j]).0
}

/// Keys are strictly ascending, so enumeration order is key order.
pub open spec fn keys_sorted<V>(s: Seq<(Id, V)>) -> bool {
    forall|i: int, j: int|
        0 <= i < j < s.len() ==> (#[trigger] s[i]).0 < (#[trigger] s[j]).0
}

/// Every key lies in `1 ..= bound - 1`: allocated ids start at 1 and stay
/// below the allocator's high-water mark.
pub open spec fn keys_below<V>(s: Seq<(Id, V)>, bound: Id) -> bool {
    forall|i: int| 0 <= i < s.len() ==> 1 <= (#[trigger] s[i]).0 < bound
}

pub proof fn lemma_sorted_implies_distinct<V>(s: Seq<(Id, V)>)
    requires
        keys_sorted(s),
    ensures
        keys_distinct(s),
{
}

/// With distinct keys, finding key `k` at index `i` pins down `idx_of` and
/// `value_at`.
pub proof fn lemma_found_at<V>(s: Seq<(Id, V)>, k: Id, i: int)
    requires
        keys_distinct(s),
        0 <= i < s.len(),
        s[i].0 == k,
    ensures
        has_key(s, k),
        idx_of(s, k) == i,
        value_at(s, k) == s[i].1,
{
    assert(has_key(s, k));
    let j = idx_of(s, k);
    assert(0 <= j < s.len() && s[j].0 == k);
    if i < j {
        assert(s[i].0 != s[j].0);
    } else if j < i {
        assert(s[j].0 != s[i].0);
    }
}

/// A mutable slot of a pair vector.
pub fn entry_mut<V>(v: &mut Vec<(Id, V)>, i: usize) -> (slot: &mut (Id, V))
    requires
        i < old(v).len(),
    ensures
        *slot == old(v)@[i as int],
        final(v)@ == old(v)@.update(i as int, *final(slot)),
{
    &mut v[i]
}

/// Search a pair vector for a key, front to back.
pub fn find_key<V>(v: &Vec<(Id, V)>, k: Id) -> (r: Option<usize>)
    ensures
        match r {
            Some(i) => i < v@.len() && v@[i as int].0 == k && has_key(v@, k),
            None => !has_key(v@, k),
        },
{
    let mut i: usize = 0;
    while i < v.len()
        invariant
            i <= v@.len(),
            forall|j: int| 0 <= j < i ==> (#[trigger] v@[j]).0 != k,
        decreases v@.len() - i,
    {
        if v[i].0 == k {
            return Some(i);
        }
        i += 1;
    }
    None
}

} // verus!
