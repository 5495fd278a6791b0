//! Result store: holds the matched `(ad, score)` pairs, re-sorting on every
//! append so the list is always descending by score with ties kept in
//! arrival order.

use vstd::prelude::*;

verus! {

use vstd::seq_lib::group_to_multiset_ensures;

use crate::matching::{
    insert_ranked, lemma_insert_ranked, sorted_desc, spec_insert_ranked, MatchResult, ScoredAd,
};

/// The ordered store of matched ads.  Always sorted by descending score;
/// appending keeps it that way, placing a tied newcomer after the entries
/// already there.
#[derive(Debug, PartialEq, Eq)]
pub struct ResultStore {
    entries: Vec<ScoredAd>,
}

impl View for ResultStore {
    type V = Seq<ScoredAd>;

    closed spec fn view(&self) -> Seq<ScoredAd> {
        self.entries@
    }
}

impl ResultStore {
    #[verifier::type_invariant]
    spec fn wf(self) -> bool {
        sorted_desc(self@)
    }

    /// An empty store.
    pub fn new() -> (r: ResultStore)
        ensures
            r@ == Seq::<ScoredAd>::empty(),
    {
        ResultStore { entries: Vec::new() }
    }

    /// How many results are held.
    pub fn len(&self) -> (r: usize)
        ensures
            r == self@.len(),
    {
        self.entries.len()
    }

    /// The result at `i`, in descending-score order.
    pub fn get(&self, i: usize) -> (r: ScoredAd)
        requires
            i < self@.len(),
        ensures
            r == self@[i as int],
    {
        self.entries[i]
    }

    /// Appends one scored ad, re-sorting: the entry lands after everything
    /// scoring at least as much, so the store stays descending and stable.
    pub fn append(&mut self, entry: ScoredAd)
        ensures
            final(self)@ == spec_insert_ranked(old(self)@, entry),
            sorted_desc(final(self)@),
    {
        proof {
            use_type_invariant(&*self);
        }
        let mut entries: Vec<ScoredAd> = Vec::new();
        std::mem::swap(&mut entries, &mut self.entries);
        insert_ranked(&mut entries, entry);
        std::mem::swap(&mut entries, &mut self.entries);
    }

    /// Appends every entry of a match result, in its order: afterwards the
    /// store holds exactly its old entries and the result's, still sorted.
    pub fn absorb(&mut self, result: &MatchResult)
        ensures
            sorted_desc(final(self)@),
            final(self)@.len() == old(self)@.len() + result.entries@.len(),
            final(self)@.to_multiset() == old(self)@.to_multiset().add(
                result.entries@.to_multiset()),
    {
        proof {
            use_type_invariant(&*self);
            broadcast use group_to_multiset_ensures;

            assert(result.entries@.take(0) =~= Seq::<ScoredAd>::empty());
            assert(old(self)@.to_multiset().add(result.entries@.take(0).to_multiset())
                =~= old(self)@.to_multiset());
        }
        let mut entries: Vec<ScoredAd> = Vec::new();
        std::mem::swap(&mut entries, &mut self.entries);
        let mut i: usize = 0;
        while i < result.entries.len()
            invariant
                0 <= i <= result.entries@.len(),
                sorted_desc(entries@),
                entries@.len() == old(self)@.len() + i,
                entries@.to_multiset() == old(self)@.to_multiset().add(
                    result.entries@.take(i as int).to_multiset()),
            decreases result.entries@.len() - i,
        {
            let entry = result.entries[i];
            proof {
                broadcast use group_to_multiset_ensures;

                lemma_insert_ranked(entries@, entry);
                assert(result.entries@.take(i + 1)
                    =~= result.entries@.take(i as int).push(entry));
                assert(old(self)@.to_multiset().add(
                    result.entries@.take(i as int).to_multiset()).insert(entry)
                    =~= old(self)@.to_multiset().add(
                        result.entries@.take(i as int).to_multiset().insert(entry)));
            }
            insert_ranked(&mut entries, entry);
            i += 1;
        }
        proof {
            assert(result.entries@.take(result.entries@.len() as int) =~= result.entries@);
        }
        std::mem::swap(&mut entries, &mut self.entries);
    }
}

} // verus!
