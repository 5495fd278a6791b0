//! Matching engine: homomorphic trait comparison, score aggregation,
//! threshold filtering and ranked result assembly.
//!
//! For each candidate ad the engine XORs the user's and the ad's encrypted
//! traits slot by slot, sums the dissimilarities, divides by the trait
//! cardinality and decrypts only that aggregate score.  An ad is kept
//! exactly when its score exceeds the match threshold, and the kept ads are
//! sorted by descending score with ties staying in the order the ads were
//! encountered.  The filter-and-rank step is specified exactly by
//! `spec_rank` and `spec_filter_matches`: `rank_matches` returns precisely
//! `spec_rank(spec_filter_matches(scores))` for every score vector,
//! whatever the homomorphic operations produced.

use vstd::prelude::*;

verus! {

use vstd::seq_lib::group_to_multiset_ensures;

use crate::codec::TraitVector;
use crate::errors::ErrorCode;
use crate::fhe::{
    fhe_add, fhe_decrypt, fhe_scalar_div, fhe_xor, parse_traits, trait_blob_error,
};
use crate::records::{AdKey, AdRecord};
use crate::{FHE_MATCH_THRESHOLD, FHE_TRAITS_COUNT};

/// One candidate ad together with its decrypted aggregate score.
#[derive(Debug, PartialEq, Eq, Structural, Clone, Copy)]
pub struct ScoredAd {
    /// Which ad was scored.
    pub ad: AdKey,
    /// Its normalized dissimilarity score.
    pub score: u64,
}

/// The ordered list of matched ads: sorted by descending score, stable on
/// ties, holding only ads whose score exceeded the threshold.
#[derive(Debug, PartialEq, Eq)]
pub struct MatchResult {
    /// The ranked `(ad, score)` pairs.
    pub entries: Vec<ScoredAd>,
}

/// The key an ad record is addressed by.
pub open spec fn ad_key_of(ad: AdRecord) -> AdKey {
    AdKey { advertiser: ad.advertiser, seq: ad.seq }
}

/// Whether `key` names one of the candidate ads.
pub open spec fn key_from_candidates(ads: Seq<AdRecord>, key: AdKey) -> bool {
    exists|j: int| 0 <= j < ads.len() && ad_key_of(#[trigger] ads[j]) == key
}

/// Sorted by descending score.
pub open spec fn sorted_desc(s: Seq<ScoredAd>) -> bool {
    forall|i: int, j: int| 0 <= i < j < s.len()
        ==> #[trigger] s[i].score >= #[trigger] s[j].score
}

/// The entries of `s` whose score exceeds the match threshold, in order.
pub open spec fn spec_filter_matches(s: Seq<ScoredAd>) -> Seq<ScoredAd>
    decreases s.len(),
{
    if s.len() == 0 {
        Seq::empty()
    } else {
        let rest = spec_filter_matches(s.drop_last());
        if s.last().score > FHE_MATCH_THRESHOLD {
            rest.push(s.last())
        } else {
            rest
        }
    }
}

/// `x` placed into `s` after every entry scoring at least as much: the
/// stable descending insertion.
pub open spec fn spec_insert_ranked(s: Seq<ScoredAd>, x: ScoredAd) -> Seq<ScoredAd>
    decreases s.len(),
{
    if s.len() == 0 {
        seq![x]
    } else if s[0].score >= x.score {
        seq![s[0]] + spec_insert_ranked(s.drop_first(), x)
    } else {
        seq![x] + s
    }
}

/// `s` stably sorted by descending score: each entry inserted, in order,
/// after the entries scoring at least as much.
pub open spec fn spec_rank(s: Seq<ScoredAd>) -> Seq<ScoredAd>
    decreases s.len(),
{
    if s.len() == 0 {
        Seq::empty()
    } else {
        spec_insert_ranked(spec_rank(s.drop_last()), s.last())
    }
}

/// The entries of `s` with score exactly `v`, in order.
pub open spec fn entries_scoring(s: Seq<ScoredAd>, v: u64) -> Seq<ScoredAd>
    decreases s.len(),
{
    if s.len() == 0 {
        Seq::empty()
    } else if s[0].score == v {
        seq![s[0]] + entries_scoring(s.drop_first(), v)
    } else {
        entries_scoring(s.drop_first(), v)
    }
}

/// Stable insertion keeps the list sorted and permutes nothing: the result
/// holds the old entries and `x`, nothing else.
#[verifier::rlimit(50)]
pub(crate) proof fn lemma_insert_ranked(s: Seq<ScoredAd>, x: ScoredAd)
    requires
        sorted_desc(s),
    ensures
        sorted_desc(spec_insert_ranked(s, x)),
        spec_insert_ranked(s, x).len() == s.len() + 1,
        spec_insert_ranked(s, x).to_multiset() == s.to_multiset().insert(x),
        forall|k: int| 0 <= k < spec_insert_ranked(s, x).len()
            ==> spec_insert_ranked(s, x)[k] == x || s.contains(
                #[trigger] spec_insert_ranked(s, x)[k]),
    decreases s.len(),
{
    broadcast use group_to_multiset_ensures;

    let r = spec_insert_ranked(s, x);
    if s.len() == 0 {
        assert(r =~= seq![x]);
        assert(r.to_multiset() =~= s.to_multiset().insert(x));
    } else if s[0].score >= x.score {
        let tail = s.drop_first();
        assert(sorted_desc(tail)) by {
            assert(forall|i: int| 0 <= i < tail.len() ==> tail[i] == s[i + 1]);
        }
        lemma_insert_ranked(tail, x);
        let rt = spec_insert_ranked(tail, x);
        assert(r == seq![s[0]] + rt);
        assert(r[0] == s[0]);
        assert(forall|k: int| 0 <= k < rt.len() ==> r[k + 1] == rt[k]);
        assert forall|i: int, j: int| 0 <= i < j < r.len()
            implies r[i].score >= r[j].score by {
            if i == 0 {
                if rt[j - 1] == x {
                    assert(r[j].score <= x.score);
                } else {
                    assert(tail.contains(rt[j - 1]));
                    let w = choose|w: int| 0 <= w < tail.len() && tail[w] == rt[j - 1];
                    assert(tail[w] == s[w + 1]);
                    assert(s[0].score >= s[w + 1].score);
                }
            } else {
                assert(rt[i - 1].score >= rt[j - 1].score);
            }
        }
        assert forall|k: int| 0 <= k < r.len()
            implies r[k] == x || s.contains(#[trigger] r[k]) by {
            if k == 0 {
                assert(s[0] == r[0]);
                assert(s.contains(r[0]));
            } else if r[k] != x {
                assert(tail.contains(rt[k - 1]));
                let w = choose|w: int| 0 <= w < tail.len() && tail[w] == rt[k - 1];
                assert(s[w + 1] == r[k]);
            }
        }
        assert(r.to_multiset() == s.to_multiset().insert(x)) by {
            assert(r =~= seq![s[0]] + rt);
            assert((seq![s[0]] + rt) =~= rt.insert(0, s[0]));
            assert(rt.insert(0, s[0]).to_multiset() == rt.to_multiset().insert(s[0]));
            assert(s =~= tail.insert(0, s[0]));
            assert(tail.insert(0, s[0]).to_multiset() == tail.to_multiset().insert(s[0]));
            assert(rt.to_multiset().insert(s[0])
                =~= tail.to_multiset().insert(x).insert(s[0]));
            assert(tail.to_multiset().insert(x).insert(s[0])
                =~= tail.to_multiset().insert(s[0]).insert(x));
        }
    } else {
        assert(r == seq![x] + s);
        assert(forall|k: int| 0 <= k < s.len() ==> r[k + 1] == s[k]);
        assert forall|i: int, j: int| 0 <= i < j < r.len()
            implies r[i].score >= r[j].score by {
            if i == 0 {
                if j == 1 {
                    assert(r[j] == s[0]);
                } else {
                    assert(s[0].score >= s[j - 1].score);
                }
            } else {
                assert(s[i - 1].score >= s[j - 1].score);
            }
        }
        assert forall|k: int| 0 <= k < r.len()
            implies r[k] == x || s.contains(#[trigger] r[k]) by {
            if k > 0 {
                assert(r[k] == s[k - 1]);
            }
        }
        assert(r.to_multiset() == s.to_multiset().insert(x)) by {
            assert(r =~= s.insert(0, x));
            assert(s.insert(0, x).to_multiset() == s.to_multiset().insert(x));
        }
    }
}

/// Where the insertion lands: after the entries scoring at least `x.score`.
proof fn lemma_insert_ranked_at(s: Seq<ScoredAd>, x: ScoredAd, i: int)
    requires
        0 <= i <= s.len(),
        forall|j: int| 0 <= j < i ==> s[j].score >= x.score,
        i < s.len() ==> s[i].score < x.score,
    ensures
        spec_insert_ranked(s, x) == s.insert(i, x),
    decreases i,
{
    if i == 0 {
        if s.len() == 0 {
            assert(spec_insert_ranked(s, x) =~= s.insert(0, x));
        } else {
            assert(s[0].score < x.score);
            assert(seq![x] + s =~= s.insert(0, x));
        }
    } else {
        assert(s[0].score >= x.score);
        let tail = s.drop_first();
        assert(forall|j: int| 0 <= j < i - 1 ==> tail[j] == s[j + 1]);
        assert(i - 1 < tail.len() ==> tail[i - 1] == s[i]);
        lemma_insert_ranked_at(tail, x, i - 1);
        assert(seq![s[0]] + tail.insert(i - 1, x) =~= s.insert(i, x));
    }
}

/// One more entry extends the filtered prefix exactly when it clears the
/// threshold.
proof fn lemma_filter_push(s: Seq<ScoredAd>, x: ScoredAd)
    ensures
        spec_filter_matches(s.push(x)) == (if x.score > FHE_MATCH_THRESHOLD {
            spec_filter_matches(s).push(x)
        } else {
            spec_filter_matches(s)
        }),
{
    assert(s.push(x).drop_last() =~= s);
    assert(s.push(x).last() == x);
}

/// Every filtered entry clears the threshold and comes from the input.
pub proof fn lemma_filter_matches(s: Seq<ScoredAd>)
    ensures
        forall|k: int| 0 <= k < spec_filter_matches(s).len()
            ==> #[trigger] spec_filter_matches(s)[k].score > FHE_MATCH_THRESHOLD,
        forall|k: int| 0 <= k < spec_filter_matches(s).len()
            ==> s.contains(#[trigger] spec_filter_matches(s)[k]),
    decreases s.len(),
{
    if s.len() > 0 {
        lemma_filter_matches(s.drop_last());
        let prev = spec_filter_matches(s.drop_last());
        assert forall|k: int| 0 <= k < prev.len()
            implies s.contains(#[trigger] prev[k]) by {
            let w = choose|w: int| 0 <= w < s.drop_last().len() && s.drop_last()[w] == prev[k];
            assert(s[w] == prev[k]);
        }
        if s.last().score > FHE_MATCH_THRESHOLD {
            assert(s.contains(s.last()));
        }
    }
}

/// The filter keeps exactly the entries above the threshold: any entry
/// above it keeps its multiplicity, anything else is gone.
pub proof fn lemma_filter_exact(s: Seq<ScoredAd>, x: ScoredAd)
    ensures
        spec_filter_matches(s).to_multiset().count(x) == (if x.score > FHE_MATCH_THRESHOLD {
            s.to_multiset().count(x)
        } else {
            0
        }),
    decreases s.len(),
{
    broadcast use group_to_multiset_ensures;

    if s.len() == 0 {
        assert(spec_filter_matches(s).to_multiset().count(x) == 0);
        assert(s.to_multiset().count(x) == 0);
    } else {
        lemma_filter_exact(s.drop_last(), x);
        assert(s.drop_last().push(s.last()) =~= s);
        assert(s.to_multiset() == s.drop_last().to_multiset().insert(s.last()));
        if s.last().score > FHE_MATCH_THRESHOLD {
            assert(spec_filter_matches(s)
                == spec_filter_matches(s.drop_last()).push(s.last()));
            assert(spec_filter_matches(s).to_multiset()
                == spec_filter_matches(s.drop_last()).to_multiset().insert(s.last()));
        }
    }
}

/// Ranking sorts by descending score and permutes nothing: the result is
/// multiset-equal to the input and its entries come from the input.
pub proof fn lemma_rank(s: Seq<ScoredAd>)
    ensures
        sorted_desc(spec_rank(s)),
        spec_rank(s).len() == s.len(),
        spec_rank(s).to_multiset() == s.to_multiset(),
        forall|k: int| 0 <= k < spec_rank(s).len()
            ==> s.contains(#[trigger] spec_rank(s)[k]),
    decreases s.len(),
{
    broadcast use group_to_multiset_ensures;

    if s.len() > 0 {
        lemma_rank(s.drop_last());
        let prev = spec_rank(s.drop_last());
        lemma_insert_ranked(prev, s.last());
        assert(s.drop_last().push(s.last()) =~= s);
        assert(s.to_multiset() == s.drop_last().to_multiset().insert(s.last()));
        assert forall|k: int| 0 <= k < spec_rank(s).len()
            implies s.contains(#[trigger] spec_rank(s)[k]) by {
            let e = spec_rank(s)[k];
            if e == s.last() {
                assert(s[s.len() - 1] == e);
            } else {
                assert(prev.contains(e));
                let w = choose|w: int| 0 <= w < prev.len() && prev[w] == e;
                assert(s.drop_last().contains(e));
                let u = choose|u: int| 0 <= u < s.drop_last().len()
                    && s.drop_last()[u] == e;
                assert(s[u] == e);
            }
        }
    }
}

/// Entries scoring below `v` contribute nothing to `v`'s bucket.
proof fn lemma_entries_scoring_low(s: Seq<ScoredAd>, v: u64)
    requires
        forall|i: int| 0 <= i < s.len() ==> #[trigger] s[i].score < v,
    ensures
        entries_scoring(s, v) == Seq::<ScoredAd>::empty(),
    decreases s.len(),
{
    if s.len() > 0 {
        assert(forall|i: int| 0 <= i < s.drop_first().len()
            ==> #[trigger] s.drop_first()[i].score < v);
        lemma_entries_scoring_low(s.drop_first(), v);
    }
}

/// Appending an entry appends to its own score bucket and no other.
proof fn lemma_entries_scoring_push(s: Seq<ScoredAd>, x: ScoredAd, v: u64)
    ensures
        entries_scoring(s.push(x), v) == (if x.score == v {
            entries_scoring(s, v).push(x)
        } else {
            entries_scoring(s, v)
        }),
    decreases s.len(),
{
    if s.len() == 0 {
        assert(s.push(x) =~= seq![x]);
        assert(seq![x].drop_first() =~= Seq::<ScoredAd>::empty());
        assert(entries_scoring(Seq::<ScoredAd>::empty(), v) == Seq::<ScoredAd>::empty());
        assert(entries_scoring(s, v) == Seq::<ScoredAd>::empty());
        if x.score == v {
            assert(entries_scoring(seq![x], v)
                == seq![x] + entries_scoring(seq![x].drop_first(), v));
            assert(entries_scoring(s.push(x), v) =~= entries_scoring(s, v).push(x));
        } else {
            assert(entries_scoring(seq![x], v)
                == entries_scoring(seq![x].drop_first(), v));
        }
    } else {
        assert(s.push(x)[0] == s[0]);
        assert(s.push(x).drop_first() =~= s.drop_first().push(x));
        lemma_entries_scoring_push(s.drop_first(), x, v);
        assert(entries_scoring(s.push(x), v) == (if s[0].score == v {
            seq![s[0]] + entries_scoring(s.drop_first().push(x), v)
        } else {
            entries_scoring(s.drop_first().push(x), v)
        }));
        assert(entries_scoring(s, v) == (if s[0].score == v {
            seq![s[0]] + entries_scoring(s.drop_first(), v)
        } else {
            entries_scoring(s.drop_first(), v)
        }));
        if s[0].score == v {
            if x.score == v {
                assert(seq![s[0]] + entries_scoring(s.drop_first(), v).push(x)
                    =~= (seq![s[0]] + entries_scoring(s.drop_first(), v)).push(x));
            }
        }
    }
}

/// Stable insertion appends to the inserted entry's score bucket and
/// leaves every other bucket unchanged.
proof fn lemma_insert_entries_scoring(s: Seq<ScoredAd>, x: ScoredAd, v: u64)
    requires
        sorted_desc(s),
    ensures
        entries_scoring(spec_insert_ranked(s, x), v) == (if x.score == v {
            entries_scoring(s, v).push(x)
        } else {
            entries_scoring(s, v)
        }),
    decreases s.len(),
{
    let r = spec_insert_ranked(s, x);
    if s.len() == 0 {
        assert(r == seq![x]);
        assert(seq![x].drop_first() =~= Seq::<ScoredAd>::empty());
        assert(entries_scoring(Seq::<ScoredAd>::empty(), v) == Seq::<ScoredAd>::empty());
        assert(entries_scoring(s, v) == Seq::<ScoredAd>::empty());
        assert(entries_scoring(seq![x], v) == (if x.score == v {
            seq![x] + entries_scoring(seq![x].drop_first(), v)
        } else {
            entries_scoring(seq![x].drop_first(), v)
        }));
        if x.score == v {
            assert(entries_scoring(r, v) =~= entries_scoring(s, v).push(x));
        }
    } else if s[0].score >= x.score {
        let tail = s.drop_first();
        assert(sorted_desc(tail)) by {
            assert(forall|i: int| 0 <= i < tail.len() ==> tail[i] == s[i + 1]);
        }
        lemma_insert_entries_scoring(tail, x, v);
        let rt = spec_insert_ranked(tail, x);
        assert(r == seq![s[0]] + rt);
        assert((seq![s[0]] + rt)[0] == s[0]);
        assert((seq![s[0]] + rt).drop_first() =~= rt);
        assert(rt.len() > 0);
        assert(entries_scoring(r, v) == (if s[0].score == v {
            seq![s[0]] + entries_scoring(rt, v)
        } else {
            entries_scoring(rt, v)
        }));
        assert(entries_scoring(s, v) == (if s[0].score == v {
            seq![s[0]] + entries_scoring(tail, v)
        } else {
            entries_scoring(tail, v)
        }));
        if s[0].score == v {
            if x.score == v {
                assert(seq![s[0]] + entries_scoring(tail, v).push(x)
                    =~= (seq![s[0]] + entries_scoring(tail, v)).push(x));
            }
        }
    } else {
        assert(r == seq![x] + s);
        assert((seq![x] + s)[0] == x);
        assert((seq![x] + s).drop_first() =~= s);
        assert(entries_scoring(r, v) == (if x.score == v {
            seq![x] + entries_scoring(s, v)
        } else {
            entries_scoring(s, v)
        }));
        if x.score == v {
            assert(forall|i: int| 0 <= i < s.len() ==> #[trigger] s[i].score < v) by {
                assert(forall|i: int| 0 < i < s.len()
                    ==> s[0].score >= #[trigger] s[i].score);
            }
            lemma_entries_scoring_low(s, v);
            assert(entries_scoring(r, v) =~= seq![x]);
            assert(entries_scoring(s, v).push(x) =~= seq![x]);
        }
    }
}

/// Stability: ranking keeps every score bucket in the order the entries
/// were encountered — for any score `v`, the entries scoring `v` come out
/// of the ranking exactly as they went in.
pub proof fn lemma_rank_stable(s: Seq<ScoredAd>, v: u64)
    ensures
        entries_scoring(spec_rank(s), v) == entries_scoring(s, v),
    decreases s.len(),
{
    if s.len() > 0 {
        lemma_rank_stable(s.drop_last(), v);
        lemma_rank(s.drop_last());
        lemma_insert_entries_scoring(spec_rank(s.drop_last()), s.last(), v);
        lemma_entries_scoring_push(s.drop_last(), s.last(), v);
        assert(s.drop_last().push(s.last()) =~= s);
    }
}

/// Inserts `entry` into a descending list, after every entry scoring at
/// least as much: the executable stable insertion.
pub fn insert_ranked(list: &mut Vec<ScoredAd>, entry: ScoredAd)
    requires
        sorted_desc(old(list)@),
    ensures
        final(list)@ == spec_insert_ranked(old(list)@, entry),
        final(list)@.len() == old(list)@.len() + 1,
        sorted_desc(final(list)@),
{
    let mut i: usize = 0;
    while i < list.len()
        invariant
            0 <= i <= list@.len(),
            forall|j: int| 0 <= j < i ==> list@[j].score >= entry.score,
            *list == *old(list),
        ensures
            0 <= i <= list@.len(),
            forall|j: int| 0 <= j < i ==> list@[j].score >= entry.score,
            i < list@.len() ==> list@[i as int].score < entry.score,
            *list == *old(list),
        decreases list@.len() - i,
    {
        if list[i].score < entry.score {
            break;
        }
        i += 1;
    }
    proof {
        lemma_insert_ranked_at(list@, entry, i as int);
        lemma_insert_ranked(list@, entry);
    }
    list.insert(i, entry);
}

/// Filters the scored candidates by the threshold and ranks them, exactly
/// as `spec_rank` of `spec_filter_matches` says: sorted descending, stable
/// on ties, keeping precisely the entries above the threshold.
pub fn rank_matches(scored: &Vec<ScoredAd>) -> (r: MatchResult)
    ensures
        r.entries@ == spec_rank(spec_filter_matches(scored@)),
        sorted_desc(r.entries@),
        forall|k: int| 0 <= k < r.entries@.len()
            ==> #[trigger] r.entries@[k].score > FHE_MATCH_THRESHOLD,
        forall|k: int| 0 <= k < r.entries@.len()
            ==> scored@.contains(#[trigger] r.entries@[k]),
{
    let mut out: Vec<ScoredAd> = Vec::new();
    let mut i: usize = 0;
    while i < scored.len()
        invariant
            0 <= i <= scored@.len(),
            out@ == spec_rank(spec_filter_matches(scored@.take(i as int))),
            sorted_desc(out@),
        decreases scored@.len() - i,
    {
        let entry = scored[i];
        proof {
            assert(scored@.take(i + 1).drop_last() =~= scored@.take(i as int));
            assert(scored@.take(i + 1).last() == entry);
            let f = spec_filter_matches(scored@.take(i as int));
            assert(spec_filter_matches(scored@.take(i + 1)) == (if entry.score
                > FHE_MATCH_THRESHOLD {
                f.push(entry)
            } else {
                f
            }));
            if entry.score > FHE_MATCH_THRESHOLD {
                assert(f.push(entry).drop_last() =~= f);
                assert(f.push(entry).last() == entry);
                assert(spec_rank(f.push(entry)) == spec_insert_ranked(spec_rank(f), entry));
            }
        }
        if entry.score > FHE_MATCH_THRESHOLD {
            insert_ranked(&mut out, entry);
        }
        i += 1;
    }
    proof {
        assert(scored@.take(scored@.len() as int) =~= scored@);
        lemma_rank(spec_filter_matches(scored@));
        lemma_filter_matches(scored@);
        assert forall|k: int| 0 <= k < out@.len()
            implies scored@.contains(#[trigger] out@[k]) by {
            let filtered = spec_filter_matches(scored@);
            assert(filtered.contains(out@[k]));
            let w = choose|w: int| 0 <= w < filtered.len() && filtered[w] == out@[k];
            assert(filtered[w].score > FHE_MATCH_THRESHOLD);
            assert(scored@.contains(filtered[w]));
        }
        assert forall|k: int| 0 <= k < out@.len()
            implies #[trigger] out@[k].score > FHE_MATCH_THRESHOLD by {
            let filtered = spec_filter_matches(scored@);
            assert(filtered.contains(out@[k]));
            let w = choose|w: int| 0 <= w < filtered.len() && filtered[w] == out@[k];
            assert(filtered[w].score > FHE_MATCH_THRESHOLD);
        }
    }
    MatchResult { entries: out }
}

/// Why the candidate list rejects, if it does: the first ad, in registry
/// order, whose stored trait blob is not well-formed.
pub open spec fn ads_error(ads: Seq<AdRecord>) -> Option<ErrorCode>
    decreases ads.len(),
{
    if ads.len() == 0 {
        None
    } else if trait_blob_error(ads[0].encrypted_target_traits@) is Some {
        trait_blob_error(ads[0].encrypted_target_traits@)
    } else {
        ads_error(ads.drop_first())
    }
}

/// Why a match request rejects before any homomorphic work decides: the
/// user blob's error, else the first candidate's.
pub open spec fn match_ads_error(user: Seq<u8>, ads: Seq<AdRecord>) -> Option<ErrorCode> {
    if trait_blob_error(user) is Some {
        trait_blob_error(user)
    } else {
        ads_error(ads)
    }
}

/// With every candidate's blob well-formed, the candidate list rejects
/// nothing.
proof fn lemma_ads_error_none(ads: Seq<AdRecord>)
    requires
        forall|j: int| 0 <= j < ads.len()
            ==> trait_blob_error(#[trigger] ads[j].encrypted_target_traits@) is None,
    ensures
        ads_error(ads) is None,
    decreases ads.len(),
{
    if ads.len() > 0 {
        assert(forall|j: int| 0 <= j < ads.drop_first().len()
            ==> ads.drop_first()[j] == #[trigger] ads[j + 1]);
        lemma_ads_error_none(ads.drop_first());
    }
}

/// The candidate list rejects with the error of its first ill-formed blob.
proof fn lemma_ads_error_first(ads: Seq<AdRecord>, i: int)
    requires
        0 <= i < ads.len(),
        forall|j: int| 0 <= j < i
            ==> trait_blob_error(#[trigger] ads[j].encrypted_target_traits@) is None,
        trait_blob_error(ads[i].encrypted_target_traits@) is Some,
    ensures
        ads_error(ads) == trait_blob_error(ads[i].encrypted_target_traits@),
    decreases i,
{
    if i > 0 {
        assert(trait_blob_error(ads[0].encrypted_target_traits@) is None);
        assert(forall|j: int| 0 <= j < ads.drop_first().len()
            ==> ads.drop_first()[j] == #[trigger] ads[j + 1]);
        assert(ads.drop_first()[i - 1] == ads[i]);
        lemma_ads_error_first(ads.drop_first(), i - 1);
    }
}

/// The candidates paired index-wise with the scores their comparison gave.
pub open spec fn scored_with(ads: Seq<AdRecord>, scores: Seq<u64>) -> Seq<ScoredAd> {
    Seq::new(ads.len(), |i: int| ScoredAd { ad: ad_key_of(ads[i]), score: scores[i] })
}

/// The normalized homomorphic dissimilarity score of one candidate:
/// per-slot XOR, homomorphic sum, division by the trait cardinality, and
/// decryption of that single aggregate.  Fails only as the homomorphic
/// primitives do.
fn score_pair(
    server_key: &tfhe::shortint::ServerKey,
    secret_key: &tfhe::shortint::ClientKey,
    user: &Vec<tfhe::shortint::Ciphertext>,
    target: &Vec<tfhe::shortint::Ciphertext>,
) -> (r: Result<u64, ErrorCode>)
    requires
        user@.len() == FHE_TRAITS_COUNT,
        target@.len() == FHE_TRAITS_COUNT,
    ensures
        r matches Err(e) ==> e == ErrorCode::FheOperationFailed,
{
    let mut acc = match fhe_xor(server_key, &user[0], &target[0]) {
        Ok(ct) => ct,
        Err(e) => {
            return Err(e);
        },
    };
    let mut i: usize = 1;
    while i < FHE_TRAITS_COUNT
        invariant
            1 <= i <= FHE_TRAITS_COUNT,
            user@.len() == FHE_TRAITS_COUNT,
            target@.len() == FHE_TRAITS_COUNT,
        decreases FHE_TRAITS_COUNT - i,
    {
        let diff = match fhe_xor(server_key, &user[i], &target[i]) {
            Ok(ct) => ct,
            Err(e) => {
                return Err(e);
            },
        };
        acc = match fhe_add(server_key, &acc, &diff) {
            Ok(ct) => ct,
            Err(e) => {
                return Err(e);
            },
        };
        i += 1;
    }
    let normalized = match fhe_scalar_div(server_key, &acc, FHE_TRAITS_COUNT as u8) {
        Ok(ct) => ct,
        Err(e) => {
            return Err(e);
        },
    };
    fhe_decrypt(secret_key, &normalized)
}

/// Matches a user's encrypted trait vector against candidate ads.
///
/// The user blob must decode to a vector of the fixed cardinality whose
/// slots all parse as ciphertexts, and so must each candidate's stored
/// blob, in order, else the first failing blob's error comes back and no
/// partial result is returned.  A homomorphic primitive that cannot be
/// applied aborts the whole match with `FheOperationFailed`.  On success
/// every blob was well-formed and the result is exactly the ranking of
/// the candidates under the scores the scheme produced: sorted by
/// descending score, stable on encounter order, keeping precisely the
/// entries above the threshold.
pub fn match_ads(
    server_key: &tfhe::shortint::ServerKey,
    secret_key: &tfhe::shortint::ClientKey,
    encrypted_user_traits: &Vec<u8>,
    candidate_ads: &Vec<AdRecord>,
) -> (r: Result<MatchResult, ErrorCode>)
    ensures
        trait_blob_error(encrypted_user_traits@) matches Some(e) ==> r == Err::<
            MatchResult,
            ErrorCode,
        >(e),
        r matches Err(e) ==> (e == ErrorCode::FheOperationFailed
            || match_ads_error(encrypted_user_traits@, candidate_ads@) == Some(e)),
        r is Ok ==> match_ads_error(encrypted_user_traits@, candidate_ads@) is None,
        r matches Ok(m) ==> (exists|scores: Seq<u64>| scores.len() == candidate_ads@.len()
            && m.entries@ == spec_rank(spec_filter_matches(
                #[trigger] scored_with(candidate_ads@, scores)))),
        r matches Ok(m) ==> sorted_desc(m.entries@),
        r matches Ok(m) ==> forall|k: int| 0 <= k < m.entries@.len()
            ==> #[trigger] m.entries@[k].score > FHE_MATCH_THRESHOLD,
        r matches Ok(m) ==> forall|k: int| 0 <= k < m.entries@.len()
            ==> key_from_candidates(candidate_ads@, #[trigger] m.entries@[k].ad),
{
    let user_tv = match TraitVector::decode(encrypted_user_traits) {
        Ok(tv) => tv,
        Err(e) => {
            return Err(e);
        },
    };
    let user_cts = match parse_traits(&user_tv) {
        Ok(v) => v,
        Err(e) => {
            return Err(e);
        },
    };
    let mut scored: Vec<ScoredAd> = Vec::new();
    let mut i: usize = 0;
    while i < candidate_ads.len()
        invariant
            0 <= i <= candidate_ads@.len(),
            scored@.len() == i,
            user_cts@.len() == FHE_TRAITS_COUNT,
            trait_blob_error(encrypted_user_traits@) is None,
            forall|j: int| 0 <= j < i ==> trait_blob_error(
                #[trigger] candidate_ads@[j].encrypted_target_traits@) is None,
            forall|k: int| 0 <= k < scored@.len()
                ==> #[trigger] scored@[k].ad == ad_key_of(candidate_ads@[k]),
        decreases candidate_ads@.len() - i,
    {
        let ad = &candidate_ads[i];
        let ad_tv = match TraitVector::decode(&ad.encrypted_target_traits) {
            Ok(tv) => tv,
            Err(e) => {
                proof {
                    lemma_ads_error_first(candidate_ads@, i as int);
                }
                return Err(e);
            },
        };
        let target_cts = match parse_traits(&ad_tv) {
            Ok(v) => v,
            Err(e) => {
                proof {
                    lemma_ads_error_first(candidate_ads@, i as int);
                }
                return Err(e);
            },
        };
        let score = match score_pair(server_key, secret_key, &user_cts, &target_cts) {
            Ok(s) => s,
            Err(e) => {
                return Err(e);
            },
        };
        scored.push(ScoredAd { ad: AdKey { advertiser: ad.advertiser, seq: ad.seq }, score });
        i += 1;
    }
    let ranked = rank_matches(&scored);
    proof {
        lemma_ads_error_none(candidate_ads@);
        let scores = Seq::new(scored@.len(), |k: int| scored@[k].score);
        assert forall|k: int| 0 <= k < scored@.len()
            implies scored_with(candidate_ads@, scores)[k] == scored@[k] by {
            assert(scored@[k].ad == ad_key_of(candidate_ads@[k]));
            assert(scored@[k] == (ScoredAd { ad: scored@[k].ad, score: scored@[k].score }));
        }
        assert(scored_with(candidate_ads@, scores) =~= scored@);
        assert(scores.len() == candidate_ads@.len()
            && ranked.entries@ == spec_rank(spec_filter_matches(
                scored_with(candidate_ads@, scores))));
        assert forall|k: int| 0 <= k < ranked.entries@.len()
            implies key_from_candidates(candidate_ads@,
                #[trigger] ranked.entries@[k].ad) by {
            assert(scored@.contains(ranked.entries@[k]));
            let w = choose|w: int| 0 <= w < scored@.len() && scored@[w] == ranked.entries@[k];
            assert(ad_key_of(candidate_ads@[w]) == ranked.entries@[k].ad);
        }
    }
    Ok(ranked)
}

} // verus!
