//! The record store: identifier allocation, record lifecycle, point and
//! filtered reads, and read-side enrichment from the case lookup table.
//!
//! Identifier allocation is deliberately high-water-mark based: `next_id`
//! only ever grows, so an id retired by a deletion is never issued again.
//! Allocating from the live count instead would re-issue a retired id as
//! soon as the count dropped below it; keeping a separate strictly
//! increasing counter is what makes "a deleted id never reappears" a
//! theorem of this store rather than an accident of its history.

use vstd::prelude::*;
use crate::keyed::{
    entry_mut, find_key, has_key, idx_of, keys_below, keys_sorted, lemma_found_at,
    lemma_sorted_implies_distinct, value_at, Id,
};
use crate::lookup::{title_of, CaseLookup};
use crate::records::{output_of, Error, EvidenceNFT, EvidenceNFTOutput};

verus! {

/// The enriched view of record `r` stored under `id`, with its case title
/// resolved against `cases`: every stored field carried over, the title
/// present exactly when `cases` knows `r.case_id`.
pub open spec fn enriched(id: Id, r: EvidenceNFT, cases: Seq<(Id, String)>) -> EvidenceNFTOutput {
    output_of(id, title_of(cases, r.case_id), r)
}

/// The enriched views of every entry of `s`, in order.
pub open spec fn enrich_all(
    s: Seq<(Id, EvidenceNFT)>,
    cases: Seq<(Id, String)>,
) -> Seq<EvidenceNFTOutput> {
    s.map_values(|p: (Id, EvidenceNFT)| enriched(p.0, p.1, cases))
}

/// The entries of `s` whose record carries `case_id`, in their original
/// order.
pub open spec fn filter_by_case(s: Seq<(Id, EvidenceNFT)>, case_id: Id) -> Seq<(Id, EvidenceNFT)>
    decreases s.len(),
{
    if s.len() == 0 {
        Seq::empty()
    } else {
        let rest = filter_by_case(s.drop_last(), case_id);
        if s.last().1.case_id == case_id {
            rest.push(s.last())
        } else {
            rest
        }
    }
}

/// What a point read of `k` returns: the enriched record when `k` is live,
/// absent otherwise.
pub open spec fn spec_get(
    s: Seq<(Id, EvidenceNFT)>,
    cases: Seq<(Id, String)>,
    k: Id,
) -> Option<EvidenceNFTOutput> {
    if has_key(s, k) {
        Some(enriched(k, value_at(s, k), cases))
    } else {
        None
    }
}

/// What resolving `k` returns: `k` itself when `k` is live, the sentinel
/// `0` otherwise. `0` is never allocated, so for a nonzero `k` the answer
/// is unambiguous.
pub open spec fn spec_resolve(s: Seq<(Id, EvidenceNFT)>, k: Id) -> Id {
    if has_key(s, k) {
        k
    } else {
        0
    }
}

/// One allocation step: the new record appended under the next free id.
pub open spec fn spec_create(
    s: Seq<(Id, EvidenceNFT)>,
    next: Id,
    r: EvidenceNFT,
) -> Seq<(Id, EvidenceNFT)> {
    s.push((next, r))
}

/// The record store. It owns the id → record map (kept as a vector of
/// pairs in strictly ascending key order), the high-water-mark id
/// allocator, and the case lookup table reads enrich from.
#[derive(Debug)]
pub struct Evidence {
    /// The stored records, keyed by id, keys strictly ascending.
    pub evidence: Vec<(Id, EvidenceNFT)>,
    /// The id the next `set_evidence` call will allocate. Starts at 1 and
    /// only ever grows; every live key lies strictly below it.
    pub next_id: Id,
    /// The case lookup table consulted on every read.
    pub case: CaseLookup,
}

impl Evidence {
    /// The store is well formed: keys strictly ascending (hence distinct,
    /// and enumerated in ascending id order), every key allocated — at
    /// least 1 and below the high-water mark — and the lookup table well
    /// formed.
    pub open spec fn wf(&self) -> bool {
        &&& keys_sorted(self.evidence@)
        &&& keys_below(self.evidence@, self.next_id)
        &&& self.next_id >= 1
        &&& self.case.wf()
    }

    /// An empty store over the given case lookup table. The first id to be
    /// allocated is 1.
    pub fn new(case: CaseLookup) -> (r: Evidence)
        requires
            case.wf(),
        ensures
            r.wf(),
            r.evidence@.len() == 0,
            r.next_id == 1,
            r.case == case,
    {
        Evidence { evidence: Vec::new(), next_id: 1, case }
    }

    /// Store a new record under a freshly allocated id.
    ///
    /// The id allocated is the current `next_id`; afterwards the record
    /// sits at the end of the (key-ascending) store and the high-water
    /// mark has advanced by one. Exhaustion of the id space is a fatal
    /// fault, not a recoverable result, so it is excluded up front.
    pub fn set_evidence(&mut self, evidence: EvidenceNFT)
        requires
            old(self).wf(),
            old(self).next_id < Id::MAX,
        ensures
            final(self).wf(),
            final(self).evidence@ == spec_create(old(self).evidence@, old(self).next_id, evidence),
            final(self).next_id == old(self).next_id + 1,
            final(self).case == old(self).case,
            has_key(final(self).evidence@, old(self).next_id),
            value_at(final(self).evidence@, old(self).next_id) == evidence,
    {
        let id = self.next_id;
        self.evidence.push((id, evidence));
        self.next_id = id + 1;
        proof {
            let s = self.evidence@;
            assert(forall|i: int|
                0 <= i < s.len() - 1 ==> (#[trigger] s[i]).0 < id);
            lemma_sorted_implies_distinct(s);
            lemma_found_at(s, id, s.len() - 1);
        }
    }

    /// Delete (burn) the record stored under `evidence_id`.
    ///
    /// Succeeds exactly when `evidence_id` is live; the entry is removed,
    /// every other entry stays in place, and the high-water mark does not
    /// move, so the id is retired for good. On `EvidenceNotFound` the
    /// store is untouched.
    pub fn burn_evidence(&mut self, evidence_id: Id) -> (r: Result<(), Error>)
        requires
            old(self).wf(),
        ensures
            final(self).wf(),
            final(self).next_id == old(self).next_id,
            final(self).case == old(self).case,
            r is Ok <==> has_key(old(self).evidence@, evidence_id),
            r is Ok ==> final(self).evidence@ == old(self).evidence@.remove(
                idx_of(old(self).evidence@, evidence_id),
            ),
            r is Ok ==> !has_key(final(self).evidence@, evidence_id),
            r is Err ==> *final(self) == *old(self) && r == Err::<(), Error>(
                Error::EvidenceNotFound,
            ),
    {
        let ghost pre = self.evidence@;
        match find_key(&self.evidence, evidence_id) {
            None => Err(Error::EvidenceNotFound),
            Some(i) => {
                self.evidence.remove(i);
                proof {
                    lemma_sorted_implies_distinct(pre);
                    lemma_found_at(pre, evidence_id, i as int);
                    pre.remove_ensures(i as int);
                    lemma_remove_keeps_invariants(pre, i as int, old(self).next_id);
                }
                Ok(())
            },
        }
    }

    /// Replace the record stored under `evidence_id` wholesale.
    ///
    /// Succeeds exactly when `evidence_id` is live; the entry keeps its
    /// key and position, takes `new_evidence` as its value — every field,
    /// the status included, so there is no partial or merge update — and
    /// every other entry stays as it was. On `EvidenceNotFound` the store
    /// is untouched.
    pub fn update_evidence(&mut self, evidence_id: Id, new_evidence: EvidenceNFT) -> (r: Result<
        (),
        Error,
    >)
        requires
            old(self).wf(),
        ensures
            final(self).wf(),
            final(self).next_id == old(self).next_id,
            final(self).case == old(self).case,
            r is Ok <==> has_key(old(self).evidence@, evidence_id),
            r is Ok ==> final(self).evidence@ == old(self).evidence@.update(
                idx_of(old(self).evidence@, evidence_id),
                (evidence_id, new_evidence),
            ),
            r is Ok ==> has_key(final(self).evidence@, evidence_id) && value_at(
                final(self).evidence@,
                evidence_id,
            ) == new_evidence,
            r is Err ==> *final(self) == *old(self) && r == Err::<(), Error>(
                Error::EvidenceNotFound,
            ),
    {
        let ghost pre = self.evidence@;
        match find_key(&self.evidence, evidence_id) {
            None => Err(Error::EvidenceNotFound),
            Some(i) => {
                let slot = entry_mut(&mut self.evidence, i);
                *slot = (evidence_id, new_evidence);
                proof {
                    lemma_sorted_implies_distinct(pre);
                    lemma_found_at(pre, evidence_id, i as int);
                    let post = self.evidence@;
                    assert(forall|j: int|
                        0 <= j < post.len() && j != i ==> post[j] == pre[j]);
                    assert(post[i as int].0 == evidence_id);
                    lemma_sorted_implies_distinct(post);
                    lemma_found_at(post, evidence_id, i as int);
                }
                Ok(())
            },
        }
    }

    /// Point read. Returns the enriched view of the record under
    /// `evidence_id` — its case title resolved from the lookup table,
    /// absent when the table has no such case — or nothing when the id is
    /// not live.
    pub fn get_evidence_by_id(&self, evidence_id: Id) -> (r: Option<EvidenceNFTOutput>)
        requires
            self.wf(),
        ensures
            r == spec_get(self.evidence@, self.case.cases@, evidence_id),
    {
        match find_key(&self.evidence, evidence_id) {
            None => None,
            Some(i) => {
                proof {
                    lemma_sorted_implies_distinct(self.evidence@);
                    lemma_found_at(self.evidence@, evidence_id, i as int);
                }
                let record = &self.evidence[i].1;
                let case_title = self.case.get_case_title(record.case_id);
                Some(EvidenceNFTOutput::get_evidence(evidence_id, case_title, record))
            },
        }
    }

    /// Enumerate every record, in ascending id order, each enriched
    /// exactly as `get_evidence_by_id` enriches it.
    pub fn get_all_evidence(&self) -> (r: Vec<EvidenceNFTOutput>)
        requires
            self.wf(),
        ensures
            r@ == enrich_all(self.evidence@, self.case.cases@),
    {
        let mut out: Vec<EvidenceNFTOutput> = Vec::new();
        let mut i: usize = 0;
        while i < self.evidence.len()
            invariant
                self.wf(),
                i <= self.evidence@.len(),
                out@ == enrich_all(self.evidence@.take(i as int), self.case.cases@),
            decreases self.evidence@.len() - i,
        {
            let entry = &self.evidence[i];
            let case_title = self.case.get_case_title(entry.1.case_id);
            out.push(EvidenceNFTOutput::get_evidence(entry.0, case_title, &entry.1));
            proof {
                assert(out@ =~= enrich_all(
                    self.evidence@.take(i + 1 as int),
                    self.case.cases@,
                ));
            }
            i += 1;
        }
        proof {
            assert(self.evidence@.take(self.evidence@.len() as int) =~= self.evidence@);
        }
        out
    }

    /// Enumerate exactly the records whose `case_id` equals the given one,
    /// in ascending id order, enriched like every other read.
    pub fn evidence_by_case_id(&self, case_id: Id) -> (r: Vec<EvidenceNFTOutput>)
        requires
            self.wf(),
        ensures
            r@ == enrich_all(filter_by_case(self.evidence@, case_id), self.case.cases@),
    {
        let mut out: Vec<EvidenceNFTOutput> = Vec::new();
        let mut i: usize = 0;
        while i < self.evidence.len()
            invariant
                self.wf(),
                i <= self.evidence@.len(),
                out@ == enrich_all(
                    filter_by_case(self.evidence@.take(i as int), case_id),
                    self.case.cases@,
                ),
            decreases self.evidence@.len() - i,
        {
            let entry = &self.evidence[i];
            proof {
                assert(self.evidence@.take(i + 1 as int).drop_last() =~= self.evidence@.take(
                    i as int,
                ));
                assert(self.evidence@.take(i + 1 as int).last() == self.evidence@[i as int]);
            }
            if entry.1.case_id == case_id {
                let case_title = self.case.get_case_title(entry.1.case_id);
                out.push(EvidenceNFTOutput::get_evidence(entry.0, case_title, &entry.1));
                proof {
                    assert(out@ =~= enrich_all(
                        filter_by_case(self.evidence@.take(i + 1 as int), case_id),
                        self.case.cases@,
                    ));
                }
            }
            i += 1;
        }
        proof {
            assert(self.evidence@.take(self.evidence@.len() as int) =~= self.evidence@);
        }
        out
    }

    /// Resolve an id: the id itself when it is a live key, the sentinel
    /// `0` — which is never allocated — otherwise.
    pub fn get_evidence_id(&self, evidence_id: Id) -> (r: Id)
        requires
            self.wf(),
        ensures
            r == spec_resolve(self.evidence@, evidence_id),
    {
        match find_key(&self.evidence, evidence_id) {
            Some(_) => evidence_id,
            None => 0,
        }
    }
}

/// Removing one entry keeps the keys sorted and bounded, and — keys being
/// distinct — retires the removed key entirely.
proof fn lemma_remove_keeps_invariants(s: Seq<(Id, EvidenceNFT)>, i: int, bound: Id)
    requires
        keys_sorted(s),
        keys_below(s, bound),
        0 <= i < s.len(),
    ensures
        keys_sorted(s.remove(i)),
        keys_below(s.remove(i), bound),
        !has_key(s.remove(i), s[i].0),
{
    s.remove_ensures(i);
    let post = s.remove(i);
    lemma_sorted_implies_distinct(s);
    assert forall|j: int| 0 <= j < post.len() implies (#[trigger] post[j]).0 != s[i].0 by {
        if j < i {
            assert(post[j] == s[j]);
        } else {
            assert(post[j] == s[j + 1]);
        }
    }
}

} // verus!
