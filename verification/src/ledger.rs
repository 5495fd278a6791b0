//! Budget ledger: checked counter arithmetic.
//!
//! Every counter and budget moves through these operations, which fail with
//! `Overflow` instead of wrapping.  The paired operation computes every
//! counter an ad creation touches before anything is written, so a caller
//! commits all four updates or none.

use vstd::prelude::*;

verus! {

use crate::errors::ErrorCode;

/// All four counter values an ad creation commits together: the owning
/// advertiser's ad count and budget sum, and the global ad count and budget
/// sum.
#[derive(Debug, PartialEq, Eq, Clone, Copy)]
pub struct AdCreationTotals {
    /// The advertiser's new ad count.
    pub advertiser_ad_count: u64,
    /// The advertiser's new budget sum.
    pub advertiser_total_budget: u64,
    /// The global new ad count.
    pub state_ad_count: u64,
    /// The global new budget sum.
    pub state_total_budget: u64,
}

/// Adds `amount` to `counter`, failing with `Overflow` instead of wrapping.
pub fn credit_counter(counter: u64, amount: u64) -> (r: Result<u64, ErrorCode>)
    ensures
        counter + amount <= u64::MAX ==> r == Ok::<u64, ErrorCode>((counter + amount) as u64),
        counter + amount > u64::MAX ==> r == Err::<u64, ErrorCode>(ErrorCode::Overflow),
{
    match counter.checked_add(amount) {
        Some(v) => Ok(v),
        None => Err(ErrorCode::Overflow),
    }
}

/// Computes the counters after one ad of budget `budget` is created: the
/// owning advertiser's ad count and budget sum move by exactly the same
/// deltas as the global ones, and if any of the four would overflow, none
/// is produced.
pub fn apply_ad_creation(
    advertiser_ad_count: u64,
    advertiser_total_budget: u64,
    state_ad_count: u64,
    state_total_budget: u64,
    budget: u64,
) -> (r: Result<AdCreationTotals, ErrorCode>)
    ensures
        ({
            let fits = advertiser_ad_count + 1 <= u64::MAX
                && advertiser_total_budget + budget <= u64::MAX
                && state_ad_count + 1 <= u64::MAX
                && state_total_budget + budget <= u64::MAX;
            if fits {
                r == Ok::<AdCreationTotals, ErrorCode>((AdCreationTotals {
                    advertiser_ad_count: (advertiser_ad_count + 1) as u64,
                    advertiser_total_budget: (advertiser_total_budget + budget) as u64,
                    state_ad_count: (state_ad_count + 1) as u64,
                    state_total_budget: (state_total_budget + budget) as u64,
                }))
            } else {
                r == Err::<AdCreationTotals, ErrorCode>(ErrorCode::Overflow)
            }
        }),
{
    let new_advertiser_ad_count = credit_counter(advertiser_ad_count, 1)?;
    let new_advertiser_total_budget = credit_counter(advertiser_total_budget, budget)?;
    let new_state_ad_count = credit_counter(state_ad_count, 1)?;
    let new_state_total_budget = credit_counter(state_total_budget, budget)?;
    Ok(AdCreationTotals {
        advertiser_ad_count: new_advertiser_ad_count,
        advertiser_total_budget: new_advertiser_total_budget,
        state_ad_count: new_state_ad_count,
        state_total_budget: new_state_total_budget,
    })
}

} // verus!
