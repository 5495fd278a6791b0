//! Tagged-union request type and its dispatcher: one exhaustive match, one
//! pure operation per variant.
//!
//! The host hands each request here together with the verified caller
//! identity, the caller's spendable balance and the clock reading; the
//! dispatcher forwards to the one operation the variant names.  Each
//! operation's own contract states its exact behaviour; this level adds the
//! all-or-nothing guarantee: a failed request leaves the registry exactly
//! as it was.

use vstd::prelude::*;

verus! {

use crate::errors::ErrorCode;
use crate::fhe::trait_blob_error;
use crate::matching::{key_from_candidates, match_ads, match_ads_error, sorted_desc, ScoredAd};
use crate::records::{AdKey, AdRecord, AdvertiserRecord, ProgramState, UserProfileRecord};
use crate::registry::{
    create_ad_error, create_ad_ok_post, register_error, register_ok_post, submit_ok_post,
    submit_profile_error, update_status_error, update_status_ok_post, AdRegistry,
};
use crate::results::ResultStore;
use crate::FHE_MATCH_THRESHOLD;

/// One request to the engine.
#[allow(non_camel_case_types)]
pub enum solFHEInstruction {
    /// Create the aggregate state with every counter at zero.
    Initialize {},
    /// Register the caller as an advertiser.
    RegisterAdvertiser {
        /// Display name.
        name: String,
        /// Contact address.
        email: String,
    },
    /// Create an ad with an escrowed budget.
    CreateAd {
        /// Ad content.
        content: String,
        /// Encoded encrypted target-trait vector.
        encrypted_target_traits: Vec<u8>,
        /// How long the ad runs, in seconds.
        duration: i64,
        /// Escrowed budget.
        budget: u64,
    },
    /// Store or overwrite the caller's encrypted profile.
    SubmitUserProfile {
        /// Encoded encrypted trait vector.
        encrypted_profile_data: Vec<u8>,
    },
    /// Match an encrypted user trait vector against all registered ads.
    MatchAds {
        /// Encoded encrypted trait vector.
        encrypted_user_traits: Vec<u8>,
    },
    /// Switch one of the caller's ads between active and inactive.
    UpdateAdStatus {
        /// Which ad to change.
        ad: AdKey,
        /// The new status.
        is_active: bool,
    },
}

/// Runs one request against the registry and the result store: each
/// variant forwards to exactly the matching operation, with the caller's
/// identity, balance and clock reading, and the operation's result comes
/// back unchanged — the per-variant clauses below restate each operation's
/// error condition and committed state.  A failed request leaves the
/// registry exactly as it was, only a match request touches the result
/// store, and a successful request keeps the registry consistent.
pub fn process_instruction(
    registry: &mut AdRegistry,
    results: &mut ResultStore,
    server_key: &tfhe::shortint::ServerKey,
    secret_key: &tfhe::shortint::ClientKey,
    caller: u64,
    payer_balance: u64,
    now: i64,
    instruction: solFHEInstruction,
) -> (r: Result<(), ErrorCode>)
    ensures
        r is Err ==> *final(registry) == *old(registry),
        old(registry).consistent() && r is Ok ==> final(registry).consistent(),
        !(instruction is MatchAds) ==> *final(results) == *old(results),
        instruction is Initialize ==> r is Ok && final(registry).consistent()
            && final(registry).state == (ProgramState {
                authority: caller,
                advertiser_count: 0,
                user_count: 0,
                ad_count: 0,
                total_budget: 0,
                last_updated: now,
            })
            && final(registry).advertisers@ == Seq::<AdvertiserRecord>::empty()
            && final(registry).ads@ == Seq::<AdRecord>::empty()
            && final(registry).profiles@ == Seq::<UserProfileRecord>::empty(),
        instruction matches solFHEInstruction::RegisterAdvertiser { name, email } ==> ({
            &&& (r is Err <==> register_error(
                *old(registry), caller, name@, email@, payer_balance) is Some)
            &&& (r matches Err(e) ==> register_error(
                *old(registry), caller, name@, email@, payer_balance) == Some(e))
            &&& (r is Ok ==> register_ok_post(
                *old(registry), *final(registry), caller, name, email, now))
        }),
        instruction matches solFHEInstruction::CreateAd {
            content,
            encrypted_target_traits,
            duration,
            budget,
        } ==> ({
            &&& (r is Err <==> create_ad_error(*old(registry), caller, content@,
                encrypted_target_traits@, duration, budget, payer_balance) is Some)
            &&& (r matches Err(e) ==> create_ad_error(*old(registry), caller, content@,
                encrypted_target_traits@, duration, budget, payer_balance) == Some(e))
            &&& (r is Ok ==> create_ad_ok_post(*old(registry), *final(registry), caller,
                content, encrypted_target_traits, duration, budget, now))
        }),
        instruction matches solFHEInstruction::SubmitUserProfile { encrypted_profile_data }
            ==> ({
            &&& (r is Err <==> submit_profile_error(
                *old(registry), caller, encrypted_profile_data@) is Some)
            &&& (r matches Err(e) ==> submit_profile_error(
                *old(registry), caller, encrypted_profile_data@) == Some(e))
            &&& (r is Ok ==> submit_ok_post(
                *old(registry), *final(registry), caller, encrypted_profile_data, now))
        }),
        instruction matches solFHEInstruction::UpdateAdStatus { ad, is_active } ==> ({
            &&& (r is Err <==> update_status_error(*old(registry), ad, caller) is Some)
            &&& (r matches Err(e) ==> update_status_error(*old(registry), ad, caller)
                == Some(e))
            &&& (r is Ok ==> update_status_ok_post(
                *old(registry), *final(registry), ad, is_active, now))
        }),
        instruction matches solFHEInstruction::MatchAds { encrypted_user_traits } ==> ({
            &&& *final(registry) == *old(registry)
            &&& (trait_blob_error(encrypted_user_traits@) matches Some(e)
                ==> r == Err::<(), ErrorCode>(e))
            &&& (r matches Err(e) ==> (e == ErrorCode::FheOperationFailed
                || match_ads_error(encrypted_user_traits@, old(registry).ads@) == Some(e)))
            &&& (r is Ok ==> match_ads_error(encrypted_user_traits@, old(registry).ads@)
                is None)
            &&& (r is Err ==> *final(results) == *old(results))
            &&& (r is Ok ==> (exists|entries: Seq<ScoredAd>|
                {
                    &&& sorted_desc(entries)
                    &&& final(results)@.to_multiset()
                        == old(results)@.to_multiset().add(#[trigger] entries.to_multiset())
                    &&& forall|k: int| 0 <= k < entries.len()
                        ==> #[trigger] entries[k].score > FHE_MATCH_THRESHOLD
                    &&& forall|k: int| 0 <= k < entries.len()
                        ==> key_from_candidates(old(registry).ads@,
                            #[trigger] entries[k].ad)
                }))
        }),
{
    match instruction {
        solFHEInstruction::Initialize {} => {
            *registry = AdRegistry::initialize(caller, now);
            Ok(())
        },
        solFHEInstruction::RegisterAdvertiser { name, email } => registry.register_advertiser(
            caller,
            name,
            email,
            payer_balance,
            now,
        ),
        solFHEInstruction::CreateAd { content, encrypted_target_traits, duration, budget } => {
            match registry.create_ad(
                caller,
                content,
                encrypted_target_traits,
                duration,
                budget,
                payer_balance,
                now,
            ) {
                Ok(_) => Ok(()),
                Err(e) => Err(e),
            }
        },
        solFHEInstruction::SubmitUserProfile { encrypted_profile_data } => registry
            .submit_user_profile(caller, encrypted_profile_data, now),
        solFHEInstruction::MatchAds { encrypted_user_traits } => {
            match match_ads(server_key, secret_key, &encrypted_user_traits, &registry.ads) {
                Ok(result) => {
                    results.absorb(&result);
                    proof {
                        let entries = result.entries@;
                        assert(sorted_desc(entries));
                        assert(results@.to_multiset() == old(results)@.to_multiset().add(
                            entries.to_multiset()));
                        assert(forall|k: int| 0 <= k < entries.len()
                            ==> #[trigger] entries[k].score > FHE_MATCH_THRESHOLD);
                        assert(forall|k: int| 0 <= k < entries.len()
                            ==> key_from_candidates(old(registry).ads@,
                                #[trigger] entries[k].ad));
                    }
                    Ok(())
                },
                Err(e) => Err(e),
            }
        },
        solFHEInstruction::UpdateAdStatus { ad, is_active } => registry.update_ad_status(
            ad,
            caller,
            is_active,
            now,
        ),
    }
}

} // verus!
