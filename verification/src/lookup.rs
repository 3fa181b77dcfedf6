//! The case lookup table the store enriches its records from.
//!
//! The store only ever consumes one capability of the case registry:
//! `get_case_title(case_id) -> Option<String>`. `CaseLookup` models that
//! capability as a value the store owns — a table of `(case id, title)`
//! pairs with distinct keys — so the enrichment contract can say exactly
//! which title each read returns, and a deployment can fill the table from
//! whatever registry it fronts.

use vstd::prelude::*;
use crate::keyed::{entry_mut, find_key, has_key, idx_of, keys_distinct, lemma_found_at, value_at, Id};

verus! {

/// The title the table resolves `case_id` to: the stored title when the
/// table has the case, absent otherwise.
pub open spec fn title_of(cases: Seq<(Id, String)>, case_id: Id) -> Option<String> {
    if has_key(cases, case_id) {
        Some(value_at(cases, case_id))
    } else {
        None
    }
}

/// A case-id → title table with distinct keys.
#[derive(Debug)]
pub struct CaseLookup {
    pub cases: Vec<(Id, String)>,
}

impl CaseLookup {
    /// The table is well formed: no case id occurs twice.
    pub open spec fn wf(&self) -> bool {
        keys_distinct(self.cases@)
    }

    /// An empty table: it resolves no case.
    pub fn new() -> (r: CaseLookup)
        ensures
            r.wf(),
            r.cases@.len() == 0,
    {
        CaseLookup { cases: Vec::new() }
    }

    /// Set the title of `case_id`, adding the case if the table lacks it
    /// and replacing its title if not.
    pub fn set_case_title(&mut self, case_id: Id, title: String)
        requires
            old(self).wf(),
        ensures
            final(self).wf(),
            final(self).cases@ == if has_key(old(self).cases@, case_id) {
                old(self).cases@.update(idx_of(old(self).cases@, case_id), (case_id, title))
            } else {
                old(self).cases@.push((case_id, title))
            },
            title_of(final(self).cases@, case_id) == Some::<String>(title),
            forall|c: Id| c != case_id ==> #[trigger] title_of(final(self).cases@, c)
                == title_of(old(self).cases@, c),
    {
        let ghost pre = self.cases@;
        match find_key(&self.cases, case_id) {
            Some(i) => {
                let slot = entry_mut(&mut self.cases, i);
                *slot = (case_id, title);
                proof {
                    lemma_found_at(pre, case_id, i as int);
                    lemma_update_keeps_distinct(pre, i as int, self.cases@[i as int]);
                    lemma_found_at(self.cases@, case_id, i as int);
                    assert forall|c: Id| c != case_id implies #[trigger] title_of(self.cases@, c)
                        == title_of(pre, c) by {
                        lemma_other_keys_after_update(pre, self.cases@, i as int, c);
                    }
                }
            },
            None => {
                self.cases.push((case_id, title));
                proof {
                    assert(self.cases@[self.cases@.len() - 1].0 == case_id);
                    assert(keys_distinct(self.cases@)) by {
                        assert(forall|j: int| 0 <= j < pre.len()
                            ==> (#[trigger] pre[j]).0 != case_id);
                    }
                    lemma_found_at(self.cases@, case_id, self.cases@.len() - 1);
                    assert forall|c: Id| c != case_id implies #[trigger] title_of(self.cases@, c)
                        == title_of(pre, c) by {
                        lemma_other_keys_after_update(pre, self.cases@, pre.len() as int, c);
                    }
                }
            },
        }
    }

    /// Resolve a case id to its title; absent when the table has no such
    /// case — never an error.
    pub fn get_case_title(&self, case_id: Id) -> (r: Option<String>)
        requires
            self.wf(),
        ensures
            r == title_of(self.cases@, case_id),
    {
        match find_key(&self.cases, case_id) {
            Some(i) => {
                proof {
                    lemma_found_at(self.cases@, case_id, i as int);
                }
                Some(self.cases[i].1.clone())
            },
            None => None,
        }
    }
}

/// Overwriting one slot with a pair that keeps its key leaves the keys
/// distinct.
proof fn lemma_update_keeps_distinct<V>(s: Seq<(Id, V)>, i: int, p: (Id, V))
    requires
        keys_distinct(s),
        0 <= i < s.len(),
        p.0 == s[i].0,
    ensures
        keys_distinct(s.update(i, p)),
{
}

/// Changing or appending the entry at index `i` leaves every other key's
/// resolution alone, provided both sequences agree off `i` and key `c`
/// stands off `i` in both.
proof fn lemma_other_keys_after_update(
    pre: Seq<(Id, String)>,
    post: Seq<(Id, String)>,
    i: int,
    c: Id,
)
    requires
        keys_distinct(pre),
        keys_distinct(post),
        pre.len() <= post.len() <= pre.len() + 1,
        0 <= i < post.len(),
        forall|j: int| 0 <= j < post.len() && j != i ==> j < pre.len() && post[j] == pre[j],
        c != post[i].0,
        i < pre.len() ==> c != pre[i].0,
    ensures
        title_of(post, c) == title_of(pre, c),
{
    if has_key(pre, c) {
        let j = idx_of(pre, c);
        assert(0 <= j < pre.len() && pre[j].0 == c);
        assert(j != i);
        assert(post[j].0 == c);
        lemma_found_at(post, c, j);
        lemma_found_at(pre, c, j);
    } else {
        if has_key(post, c) {
            let j = idx_of(post, c);
            assert(0 <= j < post.len() && post[j].0 == c);
            assert(j != i);
            assert(pre[j].0 == c);
            assert(has_key(pre, c));
        }
    }
}

} // verus!
