//! Ad registry: advertiser and ad lifecycle, profile submission, and the
//! global aggregate state, as pure validate-then-mutate operations.
//!
//! Every operation either commits all of its record and counter updates or
//! returns an error with the registry exactly as it was: no partial update
//! is ever observable.  The error each operation returns is a function of
//! the prior state and the arguments alone, stated by the `*_error` spec
//! functions, so callers know exactly when success is owed.

use vstd::prelude::*;

verus! {

use vstd::string::StrSliceExecFns;

use crate::codec::TraitVector;
use crate::errors::ErrorCode;
use crate::fhe::{parse_traits, trait_blob_error};
use crate::ledger::apply_ad_creation;
use crate::records::{
    ad_index, advertiser_index, has_advertiser, lemma_ad_index, lemma_advertiser_index,
    lemma_owned_absent, lemma_owned_push, lemma_owned_update, lemma_profile_index,
    owned_ad_count, owned_budget, profile_index, total_budget_of, AdKey, AdRecord,
    AdvertiserRecord, ProgramState, UserProfileRecord,
};
use crate::{
    MAX_AD_DURATION, MAX_CONTENT_LENGTH, MAX_EMAIL_LENGTH, MAX_NAME_LENGTH, MIN_AD_BUDGET,
    MIN_AD_DURATION, MIN_DEPOSIT_AMOUNT,
};

/// A display name the registry accepts.
pub open spec fn valid_name(s: Seq<char>) -> bool {
    0 < s.len() <= MAX_NAME_LENGTH
}

/// A contact address the registry accepts.
pub open spec fn valid_email(s: Seq<char>) -> bool {
    0 < s.len() <= MAX_EMAIL_LENGTH
}

/// Ad content the registry accepts.
pub open spec fn valid_content(s: Seq<char>) -> bool {
    0 < s.len() <= MAX_CONTENT_LENGTH
}

/// An ad duration the registry accepts.
pub open spec fn valid_duration(d: i64) -> bool {
    MIN_AD_DURATION <= d <= MAX_AD_DURATION
}

/// All records of the engine together with the global aggregate state.
#[derive(Debug, PartialEq, Eq)]
pub struct AdRegistry {
    /// Global counters; each equals the corresponding sum or count over the
    /// records whenever the registry is consistent.
    pub state: ProgramState,
    /// One record per registered advertiser, authorities unique.
    pub advertisers: Vec<AdvertiserRecord>,
    /// All ads ever created, in creation order.
    pub ads: Vec<AdRecord>,
    /// One record per identity that submitted a profile.
    pub profiles: Vec<UserProfileRecord>,
}

impl AdRegistry {
    /// The aggregate invariant: every counter equals what it counts, each
    /// advertiser's counters equal the sums over its own ads, authorities
    /// are unique, every ad has a registered owner, and no ad has spent
    /// more than its budget.
    pub open spec fn consistent(self) -> bool {
        &&& self.state.advertiser_count == self.advertisers@.len()
        &&& self.state.ad_count == self.ads@.len()
        &&& self.state.user_count == self.profiles@.len()
        &&& self.state.total_budget == total_budget_of(self.ads@)
        &&& forall|i: int, j: int| 0 <= i < j < self.advertisers@.len()
            ==> #[trigger] self.advertisers@[i].authority
                != #[trigger] self.advertisers@[j].authority
        &&& forall|i: int| 0 <= i < self.advertisers@.len() ==> {
            let a = #[trigger] self.advertisers@[i];
            a.ad_count == owned_ad_count(self.ads@, a.authority)
                && a.total_budget == owned_budget(self.ads@, a.authority)
        }
        &&& forall|i: int| 0 <= i < self.ads@.len()
            ==> has_advertiser(self.advertisers@, #[trigger] self.ads@[i].advertiser)
        &&& forall|i: int| 0 <= i < self.ads@.len()
            ==> #[trigger] self.ads@[i].spent_budget <= self.ads@[i].budget
    }
}

/// Why `register_advertiser` rejects, if it does: the first failing check
/// in validation order, or none when success is owed.
pub open spec fn register_error(
    reg: AdRegistry,
    authority: u64,
    name: Seq<char>,
    email: Seq<char>,
    payer_balance: u64,
) -> Option<ErrorCode> {
    if !valid_name(name) {
        Some(ErrorCode::InvalidName)
    } else if !valid_email(email) {
        Some(ErrorCode::InvalidEmail)
    } else if has_advertiser(reg.advertisers@, authority) {
        Some(ErrorCode::AlreadyRegistered)
    } else if payer_balance < MIN_DEPOSIT_AMOUNT {
        Some(ErrorCode::InsufficientFunds)
    } else if reg.state.advertiser_count + 1 > u64::MAX {
        Some(ErrorCode::Overflow)
    } else {
        None
    }
}

/// Why `create_ad` rejects, if it does: the first failing check in
/// validation order, or none when success is owed.
pub open spec fn create_ad_error(
    reg: AdRegistry,
    authority: u64,
    content: Seq<char>,
    traits: Seq<u8>,
    duration: i64,
    budget: u64,
    payer_balance: u64,
) -> Option<ErrorCode> {
    if !valid_content(content) {
        Some(ErrorCode::InvalidAdContent)
    } else if !valid_duration(duration) {
        Some(ErrorCode::InvalidAdDuration)
    } else if budget < MIN_AD_BUDGET {
        Some(ErrorCode::InsufficientAdBudget)
    } else if !has_advertiser(reg.advertisers@, authority) {
        Some(ErrorCode::Unauthorized)
    } else if trait_blob_error(traits) is Some {
        trait_blob_error(traits)
    } else if payer_balance < budget {
        Some(ErrorCode::InsufficientFunds)
    } else {
        let i = advertiser_index(reg.advertisers@, authority);
        let a = reg.advertisers@[i];
        if a.ad_count + 1 > u64::MAX || a.total_budget + budget > u64::MAX
            || reg.state.ad_count + 1 > u64::MAX
            || reg.state.total_budget + budget > u64::MAX {
            Some(ErrorCode::Overflow)
        } else {
            None
        }
    }
}

/// Why `submit_user_profile` rejects, if it does.
pub open spec fn submit_profile_error(
    reg: AdRegistry,
    authority: u64,
    data: Seq<u8>,
) -> Option<ErrorCode> {
    if trait_blob_error(data) is Some {
        trait_blob_error(data)
    } else if profile_index(reg.profiles@, authority) < 0
        && reg.state.user_count + 1 > u64::MAX {
        Some(ErrorCode::Overflow)
    } else {
        None
    }
}

/// What a successful registration leaves behind: one new advertiser record
/// with a reputation of 100, the advertiser count stepped with it, nothing
/// else touched.
pub open spec fn register_ok_post(
    old_reg: AdRegistry,
    new_reg: AdRegistry,
    authority: u64,
    name: String,
    email: String,
    now: i64,
) -> bool {
    &&& new_reg.advertisers@ == old_reg.advertisers@.push((AdvertiserRecord {
        authority,
        name,
        email,
        ad_count: 0,
        total_budget: 0,
        reputation_score: 100,
        is_active: true,
        created_at: now,
        last_updated: now,
    }))
    &&& new_reg.state == (ProgramState {
        advertiser_count: (old_reg.state.advertiser_count + 1) as u64,
        last_updated: now,
        ..old_reg.state
    })
    &&& new_reg.ads == old_reg.ads
    &&& new_reg.profiles == old_reg.profiles
}

/// What a successful ad creation leaves behind: one new ad record under
/// the owner's next sequence number, the owner's and the global counters
/// stepped by identical deltas, nothing else touched.
pub open spec fn create_ad_ok_post(
    old_reg: AdRegistry,
    new_reg: AdRegistry,
    authority: u64,
    content: String,
    traits: Vec<u8>,
    duration: i64,
    budget: u64,
    now: i64,
) -> bool {
    let i = advertiser_index(old_reg.advertisers@, authority);
    let a = old_reg.advertisers@[i];
    &&& new_reg.advertisers@ == old_reg.advertisers@.update(i, (AdvertiserRecord {
        authority: a.authority,
        name: a.name,
        email: a.email,
        ad_count: (a.ad_count + 1) as u64,
        total_budget: (a.total_budget + budget) as u64,
        reputation_score: a.reputation_score,
        is_active: a.is_active,
        created_at: a.created_at,
        last_updated: now,
    }))
    &&& new_reg.ads@ == old_reg.ads@.push((AdRecord {
        advertiser: authority,
        seq: a.ad_count,
        content,
        encrypted_target_traits: traits,
        duration,
        budget,
        spent_budget: 0,
        impressions: 0,
        clicks: 0,
        is_active: true,
        created_at: now,
        last_updated: now,
    }))
    &&& new_reg.profiles == old_reg.profiles
    &&& new_reg.state == (ProgramState {
        ad_count: (old_reg.state.ad_count + 1) as u64,
        total_budget: (old_reg.state.total_budget + budget) as u64,
        last_updated: now,
        ..old_reg.state
    })
}

/// What a successful status update leaves behind: the addressed ad with
/// the new status and a fresh timestamp, nothing else touched.
pub open spec fn update_status_ok_post(
    old_reg: AdRegistry,
    new_reg: AdRegistry,
    key: AdKey,
    is_active: bool,
    now: i64,
) -> bool {
    let i = ad_index(old_reg.ads@, key.advertiser, key.seq);
    let ad = old_reg.ads@[i];
    &&& new_reg.ads@ == old_reg.ads@.update(i, (AdRecord {
        advertiser: ad.advertiser,
        seq: ad.seq,
        content: ad.content,
        encrypted_target_traits: ad.encrypted_target_traits,
        duration: ad.duration,
        budget: ad.budget,
        spent_budget: ad.spent_budget,
        impressions: ad.impressions,
        clicks: ad.clicks,
        is_active,
        created_at: ad.created_at,
        last_updated: now,
    }))
    &&& new_reg.advertisers == old_reg.advertisers
    &&& new_reg.profiles == old_reg.profiles
    &&& new_reg.state == old_reg.state
}

/// What a successful profile submission leaves behind: the identity's
/// profile stored or overwritten, the user count stepped only on a first
/// submission, nothing else touched.
pub open spec fn submit_ok_post(
    old_reg: AdRegistry,
    new_reg: AdRegistry,
    authority: u64,
    data: Vec<u8>,
    now: i64,
) -> bool {
    let i = profile_index(old_reg.profiles@, authority);
    let record = (UserProfileRecord { authority, encrypted_traits: data, submitted_at: now });
    &&& (if i >= 0 {
        &&& new_reg.profiles@ == old_reg.profiles@.update(i, record)
        &&& new_reg.state == old_reg.state
    } else {
        &&& new_reg.profiles@ == old_reg.profiles@.push(record)
        &&& new_reg.state == (ProgramState {
            user_count: (old_reg.state.user_count + 1) as u64,
            last_updated: now,
            ..old_reg.state
        })
    })
    &&& new_reg.advertisers == old_reg.advertisers
    &&& new_reg.ads == old_reg.ads
}

/// Why `update_ad_status` rejects, if it does: the caller must be the
/// owning advertiser of an existing ad.
pub open spec fn update_status_error(reg: AdRegistry, key: AdKey, authority: u64) -> Option<
    ErrorCode,
> {
    if authority != key.advertiser {
        Some(ErrorCode::Unauthorized)
    } else if ad_index(reg.ads@, key.advertiser, key.seq) < 0 {
        Some(ErrorCode::Unauthorized)
    } else {
        None
    }
}

/// The index of the advertiser record owned by `authority`, if any.
fn find_advertiser(advs: &Vec<AdvertiserRecord>, authority: u64) -> (r: Option<usize>)
    ensures
        r matches Some(i) ==> advertiser_index(advs@, authority) == i,
        r is None ==> advertiser_index(advs@, authority) == -1,
{
    proof {
        lemma_advertiser_index(advs@, authority);
    }
    let mut i: usize = 0;
    while i < advs.len()
        invariant
            0 <= i <= advs@.len(),
            forall|j: int| 0 <= j < i ==> advs@[j].authority != authority,
        decreases advs@.len() - i,
    {
        if advs[i].authority == authority {
            proof {
                lemma_advertiser_index(advs@, authority);
                let idx = advertiser_index(advs@, authority);
                assert(has_advertiser(advs@, authority));
                assert(idx >= 0);
                assert(!(idx < i) && !(i < idx));
            }
            return Some(i);
        }
        i += 1;
    }
    proof {
        lemma_advertiser_index(advs@, authority);
        if has_advertiser(advs@, authority) {
            let idx = advertiser_index(advs@, authority);
            assert(advs@[idx].authority == authority);
        }
    }
    None
}

/// The index of the ad record keyed `(advertiser, seq)`, if any.
fn find_ad(ads: &Vec<AdRecord>, advertiser: u64, seq: u64) -> (r: Option<usize>)
    ensures
        r matches Some(i) ==> ad_index(ads@, advertiser, seq) == i,
        r is None ==> ad_index(ads@, advertiser, seq) == -1,
{
    let mut i: usize = 0;
    while i < ads.len()
        invariant
            0 <= i <= ads@.len(),
            forall|j: int| 0 <= j < i
                ==> !(ads@[j].advertiser == advertiser && ads@[j].seq == seq),
        decreases ads@.len() - i,
    {
        if ads[i].advertiser == advertiser && ads[i].seq == seq {
            proof {
                lemma_ad_index(ads@, advertiser, seq);
                let idx = ad_index(ads@, advertiser, seq);
                assert(idx >= 0);
                assert(!(idx < i) && !(i < idx));
            }
            return Some(i);
        }
        i += 1;
    }
    proof {
        lemma_ad_index(ads@, advertiser, seq);
        if ad_index(ads@, advertiser, seq) >= 0 {
            let idx = ad_index(ads@, advertiser, seq);
            assert(ads@[idx].advertiser == advertiser && ads@[idx].seq == seq);
        }
    }
    None
}

/// The index of the profile submitted by `authority`, if any.
fn find_profile(profiles: &Vec<UserProfileRecord>, authority: u64) -> (r: Option<usize>)
    ensures
        r matches Some(i) ==> profile_index(profiles@, authority) == i,
        r is None ==> profile_index(profiles@, authority) == -1,
{
    let mut i: usize = 0;
    while i < profiles.len()
        invariant
            0 <= i <= profiles@.len(),
            forall|j: int| 0 <= j < i ==> profiles@[j].authority != authority,
        decreases profiles@.len() - i,
    {
        if profiles[i].authority == authority {
            proof {
                lemma_profile_index(profiles@, authority);
                let idx = profile_index(profiles@, authority);
                assert(idx >= 0);
                assert(!(idx < i) && !(i < idx));
            }
            return Some(i);
        }
        i += 1;
    }
    proof {
        lemma_profile_index(profiles@, authority);
        if profile_index(profiles@, authority) >= 0 {
            let idx = profile_index(profiles@, authority);
            assert(profiles@[idx].authority == authority);
        }
    }
    None
}

impl AdRegistry {
    /// Creates the registry with every counter at zero.
    pub fn initialize(authority: u64, now: i64) -> (r: AdRegistry)
        ensures
            r.state == (ProgramState {
                authority,
                advertiser_count: 0,
                user_count: 0,
                ad_count: 0,
                total_budget: 0,
                last_updated: now,
            }),
            r.advertisers@ == Seq::<AdvertiserRecord>::empty(),
            r.ads@ == Seq::<AdRecord>::empty(),
            r.profiles@ == Seq::<UserProfileRecord>::empty(),
            r.consistent(),
    {
        AdRegistry {
            state: ProgramState {
                authority,
                advertiser_count: 0,
                user_count: 0,
                ad_count: 0,
                total_budget: 0,
                last_updated: now,
            },
            advertisers: Vec::new(),
            ads: Vec::new(),
            profiles: Vec::new(),
        }
    }

    /// Registers `authority` as an advertiser.  Rejects exactly when
    /// `register_error` says so, with nothing changed; otherwise appends
    /// one advertiser record with a reputation of 100 and steps the
    /// advertiser count, committing both together.
    ///
    /// Repeating a registration for the same identity fails with
    /// `AlreadyRegistered` and does not change `advertiser_count`.
    pub fn register_advertiser(
        &mut self,
        authority: u64,
        name: String,
        email: String,
        payer_balance: u64,
        now: i64,
    ) -> (r: Result<(), ErrorCode>)
        ensures
            r is Err <==> register_error(*old(self), authority, name@, email@, payer_balance)
                is Some,
            r matches Err(e) ==> register_error(
                *old(self), authority, name@, email@, payer_balance) == Some(e),
            r is Err ==> *final(self) == *old(self),
            r is Ok ==> register_ok_post(*old(self), *final(self), authority, name, email, now),
            old(self).consistent() && r is Ok ==> final(self).consistent(),
    {
        let name_len = name.as_str().unicode_len();
        if name_len == 0 || name_len > MAX_NAME_LENGTH {
            return Err(ErrorCode::InvalidName);
        }
        let email_len = email.as_str().unicode_len();
        if email_len == 0 || email_len > MAX_EMAIL_LENGTH {
            return Err(ErrorCode::InvalidEmail);
        }
        match find_advertiser(&self.advertisers, authority) {
            Some(_) => {
                proof {
                    lemma_advertiser_index(self.advertisers@, authority);
                }
                return Err(ErrorCode::AlreadyRegistered);
            },
            None => {
                proof {
                    lemma_advertiser_index(self.advertisers@, authority);
                }
            },
        }
        if payer_balance < MIN_DEPOSIT_AMOUNT {
            return Err(ErrorCode::InsufficientFunds);
        }
        if self.state.advertiser_count == u64::MAX {
            return Err(ErrorCode::Overflow);
        }
        let ghost old_reg = *self;
        let record = AdvertiserRecord {
            authority,
            name,
            email,
            ad_count: 0,
            total_budget: 0,
            reputation_score: 100,
            is_active: true,
            created_at: now,
            last_updated: now,
        };
        self.advertisers.push(record);
        self.state.advertiser_count = self.state.advertiser_count + 1;
        self.state.last_updated = now;
        proof {
            if old_reg.consistent() {
                let advs = self.advertisers@;
                let old_advs = old_reg.advertisers@;
                let ads = self.ads@;
                assert(forall|i: int| 0 <= i < old_advs.len() ==> advs[i] == old_advs[i]);
                assert forall|i: int| 0 <= i < ads.len()
                    implies #[trigger] ads[i].advertiser != authority by {
                    if ads[i].advertiser == authority {
                        assert(has_advertiser(old_advs, authority));
                    }
                }
                lemma_owned_absent(ads, authority);
                assert forall|i: int| 0 <= i < advs.len() implies {
                    let a = #[trigger] advs[i];
                    a.ad_count == owned_ad_count(ads, a.authority)
                        && a.total_budget == owned_budget(ads, a.authority)
                } by {
                    if i < old_advs.len() {
                        assert(old_advs[i] == advs[i]);
                    }
                }
                assert forall|i: int| 0 <= i < ads.len()
                    implies has_advertiser(advs, #[trigger] ads[i].advertiser) by {
                    let w = choose|j: int| 0 <= j < old_advs.len()
                        && old_advs[j].authority == ads[i].advertiser;
                    assert(advs[w].authority == ads[i].advertiser);
                }
            }
        }
        Ok(())
    }

    /// Creates an ad for `authority` with an escrowed `budget`.  Rejects
    /// exactly when `create_ad_error` says so, with nothing changed;
    /// otherwise appends the ad record and steps the advertiser's and the
    /// global counters by identical deltas, committing all of it together.
    /// The host must move exactly `budget` from the caller's balance to the
    /// treasury when, and only when, this returns a key.
    ///
    /// After any success, the advertiser's `total_budget` equals the sum of
    /// its own ads' budgets and the global `total_budget` equals the sum of
    /// all ads' budgets (`consistent`).
    pub fn create_ad(
        &mut self,
        authority: u64,
        content: String,
        encrypted_target_traits: Vec<u8>,
        duration: i64,
        budget: u64,
        payer_balance: u64,
        now: i64,
    ) -> (r: Result<AdKey, ErrorCode>)
        ensures
            r is Err <==> create_ad_error(
                *old(self), authority, content@, encrypted_target_traits@, duration, budget,
                payer_balance) is Some,
            r matches Err(e) ==> create_ad_error(
                *old(self), authority, content@, encrypted_target_traits@, duration, budget,
                payer_balance) == Some(e),
            r is Err ==> *final(self) == *old(self),
            r is Ok ==> create_ad_ok_post(
                *old(self), *final(self), authority, content, encrypted_target_traits,
                duration, budget, now),
            r matches Ok(key) ==> key == (AdKey {
                advertiser: authority,
                seq: old(self).advertisers@[
                    advertiser_index(old(self).advertisers@, authority)].ad_count,
            }),
            old(self).consistent() && r is Ok ==> final(self).consistent(),
    {
        let content_len = content.as_str().unicode_len();
        if content_len == 0 || content_len > MAX_CONTENT_LENGTH {
            return Err(ErrorCode::InvalidAdContent);
        }
        if duration < MIN_AD_DURATION || duration > MAX_AD_DURATION {
            return Err(ErrorCode::InvalidAdDuration);
        }
        if budget < MIN_AD_BUDGET {
            return Err(ErrorCode::InsufficientAdBudget);
        }
        let idx = match find_advertiser(&self.advertisers, authority) {
            Some(i) => {
                proof {
                    lemma_advertiser_index(self.advertisers@, authority);
                }
                i
            },
            None => {
                proof {
                    lemma_advertiser_index(self.advertisers@, authority);
                }
                return Err(ErrorCode::Unauthorized);
            },
        };
        let tv = match TraitVector::decode(&encrypted_target_traits) {
            Ok(tv) => tv,
            Err(e) => {
                return Err(e);
            },
        };
        match parse_traits(&tv) {
            Ok(_) => {},
            Err(e) => {
                return Err(e);
            },
        }
        if payer_balance < budget {
            return Err(ErrorCode::InsufficientFunds);
        }
        let totals = match apply_ad_creation(
            self.advertisers[idx].ad_count,
            self.advertisers[idx].total_budget,
            self.state.ad_count,
            self.state.total_budget,
            budget,
        ) {
            Ok(t) => t,
            Err(e) => {
                return Err(e);
            },
        };
        let ghost old_reg = *self;
        let seq_number = self.advertisers[idx].ad_count;
        let ad = AdRecord {
            advertiser: authority,
            seq: seq_number,
            content,
            encrypted_target_traits,
            duration,
            budget,
            spent_budget: 0,
            impressions: 0,
            clicks: 0,
            is_active: true,
            created_at: now,
            last_updated: now,
        };
        let owner = &self.advertisers[idx];
        let updated = AdvertiserRecord {
            authority: owner.authority,
            name: owner.name.clone(),
            email: owner.email.clone(),
            ad_count: totals.advertiser_ad_count,
            total_budget: totals.advertiser_total_budget,
            reputation_score: owner.reputation_score,
            is_active: owner.is_active,
            created_at: owner.created_at,
            last_updated: now,
        };
        self.ads.push(ad);
        self.advertisers.set(idx, updated);
        self.state.ad_count = totals.state_ad_count;
        self.state.total_budget = totals.state_total_budget;
        self.state.last_updated = now;
        proof {
            if old_reg.consistent() {
                lemma_create_ad_consistent(old_reg, *self, authority, idx as int, budget, now);
            }
        }
        Ok(AdKey { advertiser: authority, seq: seq_number })
    }

    /// Switches an ad between active and inactive.  Only the owning
    /// advertiser of an existing ad may do so; anyone else is rejected
    /// with `Unauthorized` and nothing changes.
    pub fn update_ad_status(
        &mut self,
        key: AdKey,
        authority: u64,
        is_active: bool,
        now: i64,
    ) -> (r: Result<(), ErrorCode>)
        ensures
            r is Err <==> update_status_error(*old(self), key, authority) is Some,
            r matches Err(e) ==> update_status_error(*old(self), key, authority) == Some(e),
            r is Err ==> *final(self) == *old(self),
            r is Ok ==> update_status_ok_post(*old(self), *final(self), key, is_active, now),
            old(self).consistent() && r is Ok ==> final(self).consistent(),
    {
        if authority != key.advertiser {
            return Err(ErrorCode::Unauthorized);
        }
        let idx = match find_ad(&self.ads, key.advertiser, key.seq) {
            Some(i) => i,
            None => {
                return Err(ErrorCode::Unauthorized);
            },
        };
        proof {
            lemma_ad_index(self.ads@, key.advertiser, key.seq);
        }
        let ghost old_reg = *self;
        let mut current = AdRecord {
            advertiser: 0,
            seq: 0,
            content: String::new(),
            encrypted_target_traits: Vec::new(),
            duration: 0,
            budget: 0,
            spent_budget: 0,
            impressions: 0,
            clicks: 0,
            is_active: false,
            created_at: 0,
            last_updated: 0,
        };
        self.ads.set_and_swap(idx, &mut current);
        current.is_active = is_active;
        current.last_updated = now;
        self.ads.set(idx, current);
        proof {
            assert(self.ads@ =~= old_reg.ads@.update(idx as int, self.ads@[idx as int]));
        }
        proof {
            if old_reg.consistent() {
                let old_ads = old_reg.ads@;
                let ads = self.ads@;
                assert forall|i: int| 0 <= i < self.advertisers@.len() implies {
                    let a = #[trigger] self.advertisers@[i];
                    a.ad_count == owned_ad_count(ads, a.authority)
                        && a.total_budget == owned_budget(ads, a.authority)
                } by {
                    lemma_owned_update(old_ads, idx as int, ads[idx as int],
                        self.advertisers@[i].authority);
                }
                lemma_owned_update(old_ads, idx as int, ads[idx as int], 0);
                assert forall|i: int| 0 <= i < ads.len()
                    implies has_advertiser(self.advertisers@,
                        #[trigger] ads[i].advertiser) by {
                    assert(ads[i].advertiser == old_ads[i].advertiser);
                }
            }
        }
        Ok(())
    }

    /// Stores or overwrites `authority`'s encrypted profile.  The payload
    /// must decode to a trait vector of the fixed cardinality; the user
    /// count steps only the first time an identity submits, and the store
    /// and the counter commit together.
    pub fn submit_user_profile(
        &mut self,
        authority: u64,
        encrypted_profile_data: Vec<u8>,
        now: i64,
    ) -> (r: Result<(), ErrorCode>)
        ensures
            r is Err <==> submit_profile_error(
                *old(self), authority, encrypted_profile_data@) is Some,
            r matches Err(e) ==> submit_profile_error(
                *old(self), authority, encrypted_profile_data@) == Some(e),
            r is Err ==> *final(self) == *old(self),
            r is Ok ==> submit_ok_post(
                *old(self), *final(self), authority, encrypted_profile_data, now),
            old(self).consistent() && r is Ok ==> final(self).consistent(),
    {
        let tv = match TraitVector::decode(&encrypted_profile_data) {
            Ok(tv) => tv,
            Err(e) => {
                return Err(e);
            },
        };
        match parse_traits(&tv) {
            Ok(_) => {},
            Err(e) => {
                return Err(e);
            },
        }
        let record = UserProfileRecord {
            authority,
            encrypted_traits: encrypted_profile_data,
            submitted_at: now,
        };
        match find_profile(&self.profiles, authority) {
            Some(i) => {
                proof {
                    lemma_profile_index(self.profiles@, authority);
                }
                self.profiles.set(i, record);
                Ok(())
            },
            None => {
                if self.state.user_count == u64::MAX {
                    return Err(ErrorCode::Overflow);
                }
                self.profiles.push(record);
                self.state.user_count = self.state.user_count + 1;
                self.state.last_updated = now;
                Ok(())
            },
        }
    }
}

/// After a successful ad creation the registry is consistent again: the
/// new ad is counted once by its owner and once globally, and nobody else
/// moved.
proof fn lemma_create_ad_consistent(
    old_reg: AdRegistry,
    new_reg: AdRegistry,
    authority: u64,
    idx: int,
    budget: u64,
    now: i64,
)
    requires
        old_reg.consistent(),
        0 <= idx < old_reg.advertisers@.len(),
        old_reg.advertisers@[idx].authority == authority,
        new_reg.ads@.len() == old_reg.ads@.len() + 1,
        new_reg.ads@ == old_reg.ads@.push(new_reg.ads@.last()),
        new_reg.ads@.last().advertiser == authority,
        new_reg.ads@.last().budget == budget,
        new_reg.ads@.last().spent_budget == 0,
        new_reg.advertisers@ == old_reg.advertisers@.update(idx, new_reg.advertisers@[idx]),
        new_reg.advertisers@[idx].authority == authority,
        new_reg.advertisers@[idx].ad_count == old_reg.advertisers@[idx].ad_count + 1,
        new_reg.advertisers@[idx].total_budget == old_reg.advertisers@[idx].total_budget
            + budget,
        new_reg.profiles@ == old_reg.profiles@,
        new_reg.state.advertiser_count == old_reg.state.advertiser_count,
        new_reg.state.user_count == old_reg.state.user_count,
        new_reg.state.ad_count == old_reg.state.ad_count + 1,
        new_reg.state.total_budget == old_reg.state.total_budget + budget,
    ensures
        new_reg.consistent(),
{
    let old_ads = old_reg.ads@;
    let ads = new_reg.ads@;
    let old_advs = old_reg.advertisers@;
    let advs = new_reg.advertisers@;
    let ad = ads.last();
    lemma_owned_push(old_ads, ad, authority);
    assert(advs.len() == old_advs.len());
    assert forall|i: int| 0 <= i < advs.len() implies {
        let a = #[trigger] advs[i];
        a.ad_count == owned_ad_count(ads, a.authority)
            && a.total_budget == owned_budget(ads, a.authority)
    } by {
        lemma_owned_push(old_ads, ad, advs[i].authority);
        if i != idx {
            assert(advs[i] == old_advs[i]);
            assert(advs[i].authority != authority);
        }
    }
    assert forall|i: int| 0 <= i < ads.len()
        implies has_advertiser(advs, #[trigger] ads[i].advertiser) by {
        if i < old_ads.len() {
            assert(ads[i] == old_ads[i]);
            let w = choose|j: int| 0 <= j < old_advs.len()
                && old_advs[j].authority == old_ads[i].advertiser;
            assert(advs[w].authority == ads[i].advertiser);
        } else {
            assert(advs[idx].authority == ads[i].advertiser);
        }
    }
    assert forall|i: int| 0 <= i < ads.len()
        implies #[trigger] ads[i].spent_budget <= ads[i].budget by {
        if i < old_ads.len() {
            assert(ads[i] == old_ads[i]);
        }
    }
}

} // verus!
