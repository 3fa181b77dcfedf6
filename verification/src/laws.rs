//! The store's laws: properties that hold across several operations,
//! stated over the same spec functions the operations' contracts use and
//! proved once and for all.

use vstd::prelude::*;
use crate::keyed::{
    has_key, idx_of, keys_below, keys_distinct, keys_sorted, lemma_found_at,
    lemma_sorted_implies_distinct, value_at, Id,
};
use crate::records::{output_of, EvidenceNFT};
use crate::store::{enrich_all, enriched, filter_by_case, spec_create, spec_get, spec_resolve};

verus! {

/// The store that results from creating each record of `rs` in turn,
/// starting from entries `s` and high-water mark `next`. Each step is
/// exactly the step `set_evidence` promises in its contract.
pub open spec fn create_all(
    s: Seq<(Id, EvidenceNFT)>,
    next: Id,
    rs: Seq<EvidenceNFT>,
) -> Seq<(Id, EvidenceNFT)>
    decreases rs.len(),
{
    if rs.len() == 0 {
        s
    } else {
        create_all(spec_create(s, next, rs[0]), (next + 1) as Id, rs.drop_first())
    }
}

/// Shape of repeated creation: the old entries keep their places and the
/// new records are appended under the consecutive ids `next`, `next + 1`,
/// and so on, in creation order.
proof fn lemma_create_all_shape(s: Seq<(Id, EvidenceNFT)>, next: Id, rs: Seq<EvidenceNFT>)
    requires
        next + rs.len() <= Id::MAX + 1,
    ensures
        create_all(s, next, rs).len() == s.len() + rs.len(),
        forall|i: int| 0 <= i < s.len() ==> #[trigger] create_all(s, next, rs)[i] == s[i],
        forall|i: int|
            0 <= i < rs.len() ==> #[trigger] create_all(s, next, rs)[s.len() + i] == (
                ((next + i) as Id),
                rs[i],
            ),
    decreases rs.len(),
{
    if rs.len() > 0 {
        let s1 = spec_create(s, next, rs[0]);
        let rest = rs.drop_first();
        lemma_create_all_shape(s1, (next + 1) as Id, rest);
        assert forall|i: int|
            0 <= i < rs.len() implies #[trigger] create_all(s, next, rs)[s.len() + i] == (
            ((next + i) as Id),
            rs[i],
        ) by {
            if i == 0 {
                assert(create_all(s, next, rs)[s.len() as int] == s1[s.len() as int]);
            } else {
                assert(create_all(s1, (next + 1) as Id, rest)[s1.len() + (i - 1)] == (
                    ((next + 1 + (i - 1)) as Id),
                    rest[i - 1],
                ));
                assert(rest[i - 1] == rs[i]);
            }
        }
    }
}

/// Allocation monotonicity under no deletions: `n` sequential creations
/// into an empty store allocate exactly the ids `1 ..= n`, in order, and
/// leave the records stored under them in creation order.
pub proof fn lemma_allocation_monotonic(rs: Seq<EvidenceNFT>)
    requires
        rs.len() <= Id::MAX,
    ensures
        create_all(Seq::empty(), 1, rs).len() == rs.len(),
        forall|i: int|
            0 <= i < rs.len() ==> #[trigger] create_all(Seq::empty(), 1, rs)[i] == (
                ((i + 1) as Id),
                rs[i],
            ),
{
    lemma_create_all_shape(Seq::empty(), 1, rs);
    assert forall|i: int|
        0 <= i < rs.len() implies #[trigger] create_all(Seq::empty(), 1, rs)[i] == (
        ((i + 1) as Id),
        rs[i],
    ) by {
        assert(create_all(Seq::empty(), 1, rs)[Seq::<(Id, EvidenceNFT)>::empty().len() + i] == (
            ((1 + i) as Id),
            rs[i],
        ));
    }
}

/// Round trip: creating record `r` in a well-formed store allocates the
/// current high-water mark `next`, and a point read of `next` then returns
/// it — every stored field equal to `r`'s, the resolved title aside.
pub proof fn lemma_create_then_get(
    s: Seq<(Id, EvidenceNFT)>,
    cases: Seq<(Id, String)>,
    next: Id,
    r: EvidenceNFT,
)
    requires
        keys_sorted(s),
        keys_below(s, next),
    ensures
        spec_get(spec_create(s, next, r), cases, next) == Some(enriched(next, r, cases)),
        enriched(next, r, cases).evidence_id == next,
        enriched(next, r, cases).description == r.description,
        enriched(next, r, cases).owner == r.owner,
        enriched(next, r, cases).file == r.file,
        enriched(next, r, cases).case_id == r.case_id,
        enriched(next, r, cases).status == r.status,
{
    let s2 = spec_create(s, next, r);
    assert(forall|i: int| 0 <= i < s.len() ==> (#[trigger] s2[i]).0 < next);
    lemma_sorted_implies_distinct(s2);
    lemma_found_at(s2, next, s2.len() - 1);
}

/// Deletion removes visibility: removing the entry of live key `k` leaves
/// no entry with key `k`, while every other key keeps its record.
pub proof fn lemma_delete_removes(s: Seq<(Id, EvidenceNFT)>, k: Id)
    requires
        keys_sorted(s),
        has_key(s, k),
    ensures
        !has_key(s.remove(idx_of(s, k)), k),
        forall|c: Id|
            c != k ==> (#[trigger] has_key(s.remove(idx_of(s, k)), c) <==> has_key(s, c)),
        forall|c: Id|
            c != k && has_key(s, c) ==> #[trigger] value_at(s.remove(idx_of(s, k)), c) == value_at(
                s,
                c,
            ),
{
    lemma_sorted_implies_distinct(s);
    let i = idx_of(s, k);
    assert(0 <= i < s.len() && s[i].0 == k);
    s.remove_ensures(i);
    let post = s.remove(i);
    assert(keys_sorted(post)) by {
        assert forall|x: int, y: int| 0 <= x < y < post.len() implies (#[trigger] post[x]).0 < (
        #[trigger] post[y]).0 by {
            if y < i {
                assert(post[x] == s[x] && post[y] == s[y]);
            } else if x >= i {
                assert(post[x] == s[x + 1] && post[y] == s[y + 1]);
            } else {
                assert(post[x] == s[x] && post[y] == s[y + 1]);
            }
        }
    }
    lemma_sorted_implies_distinct(post);
    assert forall|j: int| 0 <= j < post.len() implies (#[trigger] post[j]).0 != k by {
        if j < i {
            assert(post[j] == s[j]);
        } else {
            assert(post[j] == s[j + 1]);
        }
    }
    assert forall|c: Id| c != k && has_key(s, c) implies #[trigger] has_key(post, c) by {
        let j = idx_of(s, c);
        assert(0 <= j < s.len() && s[j].0 == c);
        assert(j != i);
        if j < i {
            assert(post[j].0 == c);
        } else {
            assert(post[j - 1].0 == c);
        }
    }
    assert forall|c: Id| c != k && has_key(s, c) implies #[trigger] value_at(post, c) == value_at(
        s,
        c,
    ) by {
        let j = idx_of(s, c);
        assert(0 <= j < s.len() && s[j].0 == c);
        assert(j != i);
        lemma_found_at(s, c, j);
        if j < i {
            assert(post[j] == s[j]);
            lemma_found_at(post, c, j);
        } else {
            assert(post[j - 1] == s[j]);
            lemma_found_at(post, c, j - 1);
        }
    }
    assert forall|c: Id| c != k && has_key(post, c) implies has_key(s, c) by {
        let j = idx_of(post, c);
        assert(0 <= j < post.len() && post[j].0 == c);
        if j < i {
            assert(s[j].0 == c);
        } else {
            assert(s[j + 1].0 == c);
        }
    }
}

/// A retired id never reappears: an id `k` below the high-water mark that
/// is not live stays dead through any further creation — the allocator
/// hands out `next`, which is distinct from `k`, and the mark only grows,
/// so this argument carries through every later creation as well.
pub proof fn lemma_retired_id_stays_absent(
    s: Seq<(Id, EvidenceNFT)>,
    next: Id,
    k: Id,
    r: EvidenceNFT,
)
    requires
        !has_key(s, k),
        k < next,
        next < Id::MAX,
    ensures
        !has_key(spec_create(s, next, r), k),
        k < next + 1,
{
    let s2 = spec_create(s, next, r);
    assert forall|i: int| 0 <= i < s2.len() implies (#[trigger] s2[i]).0 != k by {
        if i < s.len() {
            assert(s2[i] == s[i]);
            assert(!(s[i].0 == k));
        }
    }
}

/// Replacement touches no key: updating live key `k` wholesale keeps every
/// key's liveness as it was — `k` stays live, no key appears or vanishes.
pub proof fn lemma_update_keeps_keys(s: Seq<(Id, EvidenceNFT)>, k: Id, v: EvidenceNFT)
    requires
        keys_distinct(s),
        has_key(s, k),
    ensures
        forall|c: Id|
            #[trigger] has_key(s.update(idx_of(s, k), (k, v)), c) <==> has_key(s, c),
{
    let i = idx_of(s, k);
    assert(0 <= i < s.len() && s[i].0 == k);
    let post = s.update(i, (k, v));
    assert forall|c: Id| has_key(post, c) implies has_key(s, c) by {
        let j = choose|j: int| 0 <= j < post.len() && (#[trigger] post[j]).0 == c;
        if j == i {
            assert(s[i].0 == c);
        } else {
            assert(s[j].0 == c);
        }
    }
    assert forall|c: Id| has_key(s, c) implies has_key(post, c) by {
        let j = choose|j: int| 0 <= j < s.len() && (#[trigger] s[j]).0 == c;
        if j == i {
            assert(post[i].0 == c);
        } else {
            assert(post[j].0 == c);
        }
    }
}

/// Filter correctness: the case filter keeps exactly the entries whose
/// record carries the asked-for case id — no entry of another case, no
/// entry invented — and keeps them in ascending key order.
pub proof fn lemma_filter_by_case_exact(s: Seq<(Id, EvidenceNFT)>, case_id: Id)
    requires
        keys_sorted(s),
    ensures
        forall|p: (Id, EvidenceNFT)|
            #[trigger] filter_by_case(s, case_id).contains(p) <==> s.contains(p) && p.1.case_id
                == case_id,
        keys_sorted(filter_by_case(s, case_id)),
    decreases s.len(),
{
    let f = filter_by_case(s, case_id);
    if s.len() == 0 {
        assert(forall|p: (Id, EvidenceNFT)| !(#[trigger] s.contains(p)));
    } else {
        let front = s.drop_last();
        let last = s.last();
        let rest = filter_by_case(front, case_id);
        assert(keys_sorted(front)) by {
            assert(forall|i: int| 0 <= i < front.len() ==> front[i] == s[i]);
        }
        lemma_filter_by_case_exact(front, case_id);
        assert forall|p: (Id, EvidenceNFT)| #[trigger] front.contains(p) implies s.contains(
            p,
        ) by {
            let i = choose|i: int| 0 <= i < front.len() && front[i] == p;
            assert(s[i] == p);
        }
        assert(s.contains(last)) by {
            assert(s[s.len() - 1] == last);
        }
        // Every kept entry of the front carries a key below the last key,
        // so appending the last entry keeps the keys ascending.
        assert forall|j: int| 0 <= j < rest.len() implies (#[trigger] rest[j]).0 < last.0 by {
            assert(rest.contains(rest[j]));
            assert(front.contains(rest[j]));
            let i = choose|i: int| 0 <= i < front.len() && front[i] == rest[j];
            assert(s[i] == rest[j]);
            assert(s[i].0 < s[s.len() - 1].0);
        }
        if last.1.case_id == case_id {
            assert(f == rest.push(last));
            assert forall|p: (Id, EvidenceNFT)| #[trigger] f.contains(p) implies s.contains(p)
                && p.1.case_id == case_id by {
                let i = choose|i: int| 0 <= i < f.len() && f[i] == p;
                if i < rest.len() {
                    assert(rest[i] == p);
                    assert(rest.contains(p));
                } else {
                    assert(p == last);
                }
            }
            assert forall|p: (Id, EvidenceNFT)| s.contains(p) && p.1.case_id
                == case_id implies #[trigger] f.contains(p) by {
                let i = choose|i: int| 0 <= i < s.len() && s[i] == p;
                if i < s.len() - 1 {
                    assert(front[i] == p);
                    assert(front.contains(p));
                    assert(rest.contains(p));
                    let j = choose|j: int| 0 <= j < rest.len() && rest[j] == p;
                    assert(f[j] == p);
                } else {
                    assert(p == last);
                    assert(f[rest.len() as int] == p);
                }
            }
            assert forall|x: int, y: int| 0 <= x < y < f.len() implies (#[trigger] f[x]).0 < (
            #[trigger] f[y]).0 by {
                if y < rest.len() {
                    assert(f[x] == rest[x] && f[y] == rest[y]);
                } else {
                    assert(f[x] == rest[x] && f[y] == last);
                }
            }
        } else {
            assert(f == rest);
            assert forall|p: (Id, EvidenceNFT)| s.contains(p) && p.1.case_id
                == case_id implies #[trigger] f.contains(p) by {
                let i = choose|i: int| 0 <= i < s.len() && s[i] == p;
                assert(i < s.len() - 1);
                assert(front[i] == p);
                assert(front.contains(p));
            }
        }
    }
}

/// Enumeration shows the store one to one: the listed views carry the
/// entries' ids, position by position — so an id with no entry, a retired
/// one included, appears in no enumeration.
pub proof fn lemma_enumeration_ids(s: Seq<(Id, EvidenceNFT)>, cases: Seq<(Id, String)>)
    ensures
        enrich_all(s, cases).len() == s.len(),
        forall|i: int|
            0 <= i < s.len() ==> #[trigger] enrich_all(s, cases)[i].evidence_id == s[i].0,
{
}

/// Enrichment tolerance: a point read of a live key whose record refers to
/// a case the lookup table does not know still returns the record, with an
/// absent title — never a failure.
pub proof fn lemma_enrichment_tolerance(
    s: Seq<(Id, EvidenceNFT)>,
    cases: Seq<(Id, String)>,
    k: Id,
)
    requires
        has_key(s, k),
        !has_key(cases, value_at(s, k).case_id),
    ensures
        spec_get(s, cases, k) == Some(output_of(k, None::<String>, value_at(s, k))),
{
}

/// Sentinel resolution: resolving a live key returns it; resolving a dead
/// one returns the sentinel `0`. Since every allocated key is at least 1,
/// for any nonzero `k` the answer `k` is equivalent to `k` being live —
/// and `0` itself is never live.
pub proof fn lemma_sentinel_resolution(s: Seq<(Id, EvidenceNFT)>, bound: Id, k: Id)
    requires
        keys_below(s, bound),
    ensures
        has_key(s, k) ==> spec_resolve(s, k) == k,
        !has_key(s, k) ==> spec_resolve(s, k) == 0,
        k != 0 ==> (spec_resolve(s, k) == k <==> has_key(s, k)),
        !has_key(s, 0),
{
}

} // verus!
