//! Data model: advertiser, ad and profile records, the global aggregate
//! state, and the consistency predicate that ties the counters to the
//! records they count.
//!
//! Identities and record keys are the plain values the host's addressing
//! layer resolves: a caller identity is a number, and an ad is keyed by its
//! owning advertiser's identity together with a per-advertiser sequence
//! number.

use vstd::prelude::*;

verus! {

/// The identity of one ad: its owning advertiser and the sequence number
/// the ad was created under.  Ads are keyed deterministically by this pair.
#[derive(Debug, PartialEq, Eq, Structural, Clone, Copy)]
pub struct AdKey {
    /// Identity of the owning advertiser.
    pub advertiser: u64,
    /// Sequence number among the owner's ads.
    pub seq: u64,
}

/// One registered advertiser.
#[derive(Debug, PartialEq, Eq)]
pub struct AdvertiserRecord {
    /// The identity that owns and may change this record.
    pub authority: u64,
    /// Display name, non-empty and bounded.
    pub name: String,
    /// Contact address, non-empty and bounded.
    pub email: String,
    /// How many ads this advertiser has created.
    pub ad_count: u64,
    /// Sum of the budgets of this advertiser's ads.
    pub total_budget: u64,
    /// Reputation score; starts at 100.
    pub reputation_score: u64,
    /// Whether the advertiser is active; records are deactivated, never
    /// deleted.
    pub is_active: bool,
    /// When the record was created, as a unix timestamp.
    pub created_at: i64,
    /// When the record last changed.
    pub last_updated: i64,
}

/// One ad campaign.  Created once, keyed by `(advertiser, seq)`, mutated
/// only by status and spend updates, never deleted.
#[derive(Debug, PartialEq, Eq)]
pub struct AdRecord {
    /// Identity of the owning advertiser.
    pub advertiser: u64,
    /// Sequence number among the owner's ads; part of the record's key.
    pub seq: u64,
    /// Ad content, non-empty and bounded.
    pub content: String,
    /// The encoded encrypted target-trait vector, exactly as the codec
    /// accepts it.
    pub encrypted_target_traits: Vec<u8>,
    /// How long the ad runs, in seconds, within the allowed range.
    pub duration: i64,
    /// Escrowed budget.
    pub budget: u64,
    /// How much of the budget is spent; never exceeds `budget`.
    pub spent_budget: u64,
    /// Impression counter.
    pub impressions: u64,
    /// Click counter.
    pub clicks: u64,
    /// Whether the ad is served.
    pub is_active: bool,
    /// When the record was created.
    pub created_at: i64,
    /// When the record last changed.
    pub last_updated: i64,
}

/// One submitted user profile: an opaque encrypted trait vector.  The
/// engine never sees the plaintext attributes.
#[derive(Debug, PartialEq, Eq)]
pub struct UserProfileRecord {
    /// The identity that submitted the profile.
    pub authority: u64,
    /// The encoded encrypted trait vector.
    pub encrypted_traits: Vec<u8>,
    /// When the profile was (last) submitted.
    pub submitted_at: i64,
}

/// Global aggregate counters, updated transactionally alongside every other
/// mutation in the same operation.
#[derive(Debug, PartialEq, Eq, Clone, Copy)]
pub struct ProgramState {
    /// The identity that initialized the program.
    pub authority: u64,
    /// Number of advertiser records.
    pub advertiser_count: u64,
    /// Number of user profile records.
    pub user_count: u64,
    /// Number of ad records.
    pub ad_count: u64,
    /// Sum of all ads' budgets.
    pub total_budget: u64,
    /// When any counter last changed.
    pub last_updated: i64,
}

/// How many of the ads in `s` are owned by `authority`.
pub open spec fn owned_ad_count(s: Seq<AdRecord>, authority: u64) -> int
    decreases s.len(),
{
    if s.len() == 0 {
        0
    } else {
        owned_ad_count(s.drop_last(), authority) + if s.last().advertiser == authority {
            1int
        } else {
            0int
        }
    }
}

/// Sum of the budgets of the ads in `s` owned by `authority`.
pub open spec fn owned_budget(s: Seq<AdRecord>, authority: u64) -> int
    decreases s.len(),
{
    if s.len() == 0 {
        0
    } else {
        owned_budget(s.drop_last(), authority) + if s.last().advertiser == authority {
            s.last().budget as int
        } else {
            0int
        }
    }
}

/// Sum of the budgets of all ads in `s`.
pub open spec fn total_budget_of(s: Seq<AdRecord>) -> int
    decreases s.len(),
{
    if s.len() == 0 {
        0
    } else {
        total_budget_of(s.drop_last()) + s.last().budget
    }
}

/// Whether some advertiser record in `advs` belongs to `authority`.
pub open spec fn has_advertiser(advs: Seq<AdvertiserRecord>, authority: u64) -> bool {
    exists|i: int| 0 <= i < advs.len() && advs[i].authority == authority
}

/// The first index of the advertiser record owned by `authority`, or `-1`.
pub open spec fn advertiser_index(advs: Seq<AdvertiserRecord>, authority: u64) -> int
    decreases advs.len(),
{
    if advs.len() == 0 {
        -1
    } else if advs[0].authority == authority {
        0
    } else {
        let rest = advertiser_index(advs.drop_first(), authority);
        if rest < 0 {
            -1
        } else {
            rest + 1
        }
    }
}

/// The first index of the ad record keyed `(advertiser, seq)`, or `-1`.
pub open spec fn ad_index(ads: Seq<AdRecord>, advertiser: u64, seq: u64) -> int
    decreases ads.len(),
{
    if ads.len() == 0 {
        -1
    } else if ads[0].advertiser == advertiser && ads[0].seq == seq {
        0
    } else {
        let rest = ad_index(ads.drop_first(), advertiser, seq);
        if rest < 0 {
            -1
        } else {
            rest + 1
        }
    }
}

/// The first index of the profile submitted by `authority`, or `-1`.
pub open spec fn profile_index(profiles: Seq<UserProfileRecord>, authority: u64) -> int
    decreases profiles.len(),
{
    if profiles.len() == 0 {
        -1
    } else if profiles[0].authority == authority {
        0
    } else {
        let rest = profile_index(profiles.drop_first(), authority);
        if rest < 0 {
            -1
        } else {
            rest + 1
        }
    }
}

/// `advertiser_index` finds the first matching record, and finds one
/// exactly when one exists.
pub proof fn lemma_advertiser_index(advs: Seq<AdvertiserRecord>, authority: u64)
    ensures
        has_advertiser(advs, authority) <==> advertiser_index(advs, authority) >= 0,
        advertiser_index(advs, authority) >= 0 ==> {
            let i = advertiser_index(advs, authority);
            &&& i < advs.len()
            &&& advs[i].authority == authority
            &&& forall|j: int| 0 <= j < i ==> advs[j].authority != authority
        },
    decreases advs.len(),
{
    if advs.len() == 0 {
    } else if advs[0].authority == authority {
    } else {
        lemma_advertiser_index(advs.drop_first(), authority);
        assert(forall|i: int| 0 < i < advs.len()
            ==> advs[i] == #[trigger] advs.drop_first()[i - 1]);
        let rest = advertiser_index(advs.drop_first(), authority);
        if rest >= 0 {
            assert(advs.drop_first()[rest].authority == authority);
            assert(advs[rest + 1].authority == authority);
            assert forall|j: int| 0 <= j < rest + 1 implies advs[j].authority != authority by {
                if j > 0 {
                    assert(advs.drop_first()[j - 1].authority != authority);
                    assert(advs[j] == advs.drop_first()[j - 1]);
                }
            }
        }
        if has_advertiser(advs, authority) {
            let w = choose|i: int| 0 <= i < advs.len() && advs[i].authority == authority;
            assert(w != 0);
            assert(advs.drop_first()[w - 1].authority == authority);
            assert(has_advertiser(advs.drop_first(), authority));
        }
        if has_advertiser(advs.drop_first(), authority) {
            let w = choose|i: int| 0 <= i < advs.drop_first().len()
                && advs.drop_first()[i].authority == authority;
            assert(advs[w + 1].authority == authority);
        }
    }
}

/// `ad_index` finds the first matching record, and finds one exactly when
/// one exists.
pub proof fn lemma_ad_index(ads: Seq<AdRecord>, advertiser: u64, seq: u64)
    ensures
        (exists|i: int| 0 <= i < ads.len() && ads[i].advertiser == advertiser
            && ads[i].seq == seq) <==> ad_index(ads, advertiser, seq) >= 0,
        ad_index(ads, advertiser, seq) >= 0 ==> {
            let i = ad_index(ads, advertiser, seq);
            &&& i < ads.len()
            &&& ads[i].advertiser == advertiser
            &&& ads[i].seq == seq
            &&& forall|j: int| 0 <= j < i
                ==> !(ads[j].advertiser == advertiser && ads[j].seq == seq)
        },
    decreases ads.len(),
{
    if ads.len() == 0 {
    } else if ads[0].advertiser == advertiser && ads[0].seq == seq {
    } else {
        lemma_ad_index(ads.drop_first(), advertiser, seq);
        assert(forall|i: int| 0 < i < ads.len()
            ==> ads[i] == #[trigger] ads.drop_first()[i - 1]);
        let rest = ad_index(ads.drop_first(), advertiser, seq);
        if rest >= 0 {
            assert(ads.drop_first()[rest].advertiser == advertiser);
            assert(ads.drop_first()[rest].seq == seq);
            assert(ads[rest + 1].advertiser == advertiser && ads[rest + 1].seq == seq);
            assert forall|j: int| 0 <= j < rest + 1
                implies !(ads[j].advertiser == advertiser && ads[j].seq == seq) by {
                if j > 0 {
                    assert(!(ads.drop_first()[j - 1].advertiser == advertiser
                        && ads.drop_first()[j - 1].seq == seq));
                    assert(ads[j] == ads.drop_first()[j - 1]);
                }
            }
        }
        if exists|i: int| 0 <= i < ads.len() && ads[i].advertiser == advertiser
            && ads[i].seq == seq {
            let w = choose|i: int| 0 <= i < ads.len() && ads[i].advertiser == advertiser
                && ads[i].seq == seq;
            assert(w != 0);
            assert(ads.drop_first()[w - 1].advertiser == advertiser);
            assert(ads.drop_first()[w - 1].seq == seq);
        }
        if exists|i: int| 0 <= i < ads.drop_first().len()
            && ads.drop_first()[i].advertiser == advertiser
            && ads.drop_first()[i].seq == seq {
            let w = choose|i: int| 0 <= i < ads.drop_first().len()
                && ads.drop_first()[i].advertiser == advertiser
                && ads.drop_first()[i].seq == seq;
            assert(ads[w + 1].advertiser == advertiser && ads[w + 1].seq == seq);
        }
    }
}

/// `profile_index` finds the first matching record, and finds one exactly
/// when one exists.
pub proof fn lemma_profile_index(profiles: Seq<UserProfileRecord>, authority: u64)
    ensures
        (exists|i: int| 0 <= i < profiles.len() && profiles[i].authority == authority)
            <==> profile_index(profiles, authority) >= 0,
        profile_index(profiles, authority) >= 0 ==> {
            let i = profile_index(profiles, authority);
            &&& i < profiles.len()
            &&& profiles[i].authority == authority
            &&& forall|j: int| 0 <= j < i ==> profiles[j].authority != authority
        },
    decreases profiles.len(),
{
    if profiles.len() == 0 {
    } else if profiles[0].authority == authority {
    } else {
        lemma_profile_index(profiles.drop_first(), authority);
        assert(forall|i: int| 0 < i < profiles.len()
            ==> profiles[i] == #[trigger] profiles.drop_first()[i - 1]);
        let rest = profile_index(profiles.drop_first(), authority);
        if rest >= 0 {
            assert(profiles.drop_first()[rest].authority == authority);
            assert(profiles[rest + 1].authority == authority);
            assert forall|j: int| 0 <= j < rest + 1
                implies profiles[j].authority != authority by {
                if j > 0 {
                    assert(profiles.drop_first()[j - 1].authority != authority);
                    assert(profiles[j] == profiles.drop_first()[j - 1]);
                }
            }
        }
        if exists|i: int| 0 <= i < profiles.len() && profiles[i].authority == authority {
            let w = choose|i: int| 0 <= i < profiles.len()
                && profiles[i].authority == authority;
            assert(w != 0);
            assert(profiles.drop_first()[w - 1].authority == authority);
        }
        if exists|i: int| 0 <= i < profiles.drop_first().len()
            && profiles.drop_first()[i].authority == authority {
            let w = choose|i: int| 0 <= i < profiles.drop_first().len()
                && profiles.drop_first()[i].authority == authority;
            assert(profiles[w + 1].authority == authority);
        }
    }
}

/// Appending an ad extends the per-owner count and budget of its owner
/// only, and the total budget by its budget.
pub proof fn lemma_owned_push(s: Seq<AdRecord>, ad: AdRecord, authority: u64)
    ensures
        owned_ad_count(s.push(ad), authority) == owned_ad_count(s, authority)
            + if ad.advertiser == authority { 1int } else { 0int },
        owned_budget(s.push(ad), authority) == owned_budget(s, authority)
            + if ad.advertiser == authority { ad.budget as int } else { 0int },
        total_budget_of(s.push(ad)) == total_budget_of(s) + ad.budget,
{
    assert(s.push(ad).drop_last() =~= s);
    assert(s.push(ad).last() == ad);
}

/// Replacing an ad with one of the same owner and budget changes no
/// per-owner count, no per-owner budget and no total budget.
pub proof fn lemma_owned_update(s: Seq<AdRecord>, i: int, ad: AdRecord, authority: u64)
    requires
        0 <= i < s.len(),
        ad.advertiser == s[i].advertiser,
        ad.budget == s[i].budget,
    ensures
        owned_ad_count(s.update(i, ad), authority) == owned_ad_count(s, authority),
        owned_budget(s.update(i, ad), authority) == owned_budget(s, authority),
        total_budget_of(s.update(i, ad)) == total_budget_of(s),
    decreases s.len(),
{
    if s.len() == 0 {
    } else if i == s.len() - 1 {
        assert(s.update(i, ad).drop_last() =~= s.drop_last());
        assert(s.update(i, ad).last() == ad);
    } else {
        assert(s.update(i, ad).drop_last() =~= s.drop_last().update(i, ad));
        assert(s.update(i, ad).last() == s.last());
        lemma_owned_update(s.drop_last(), i, ad, authority);
    }
}

/// An authority that owns no ad in `s` has count and budget zero.
pub proof fn lemma_owned_absent(s: Seq<AdRecord>, authority: u64)
    requires
        forall|i: int| 0 <= i < s.len() ==> #[trigger] s[i].advertiser != authority,
    ensures
        owned_ad_count(s, authority) == 0,
        owned_budget(s, authority) == 0,
    decreases s.len(),
{
    if s.len() > 0 {
        assert(s.last().advertiser != authority);
        assert(forall|i: int| 0 <= i < s.drop_last().len()
            ==> #[trigger] s.drop_last()[i].advertiser != authority);
        lemma_owned_absent(s.drop_last(), authority);
    }
}

} // verus!
