//! Confidential ad-matching and budget-accounting engine.
//!
//! Advertisers publish encrypted targeting criteria together with escrowed
//! budgets; users submit encrypted profile attributes; the engine matches the
//! two without seeing any plaintext attribute.  Trait vectors travel as
//! homomorphic ciphertext blobs (`codec`), all counters and budgets move
//! through checked arithmetic (`ledger`), advertiser and ad lifecycle is
//! tracked by a registry whose aggregate counters stay consistent
//! (`registry`), and matching scores, filters and ranks candidate ads
//! homomorphically (`matching`), keeping results sorted (`results`).

use vstd::prelude::*;

pub mod codec;
pub mod dispatch;
pub mod errors;
pub mod fhe;
pub mod ledger;
pub mod matching;
pub mod records;
pub mod registry;
pub mod results;

verus! {

/// Fixed cardinality of every trait vector: one ciphertext per attribute slot.
pub const FHE_TRAITS_COUNT: usize = 5;

/// Minimum normalized score a candidate ad must exceed to appear in results.
pub const FHE_MATCH_THRESHOLD: u64 = 75;

/// Smallest budget an ad may be created with, in base token units.
pub const MIN_AD_BUDGET: u64 = 100_000_000;

/// Ad duration bounds, in seconds.
pub const MIN_AD_DURATION: i64 = 3600;

/// Longest allowed ad duration: thirty days of seconds.
pub const MAX_AD_DURATION: i64 = 2_592_000;

/// Longest allowed ad content, in characters.
pub const MAX_CONTENT_LENGTH: usize = 1000;

/// Longest allowed advertiser display name, in characters.
pub const MAX_NAME_LENGTH: usize = 50;

/// Longest allowed advertiser contact address, in characters.
pub const MAX_EMAIL_LENGTH: usize = 100;

/// Smallest balance a caller must hold to register as an advertiser.
pub const MIN_DEPOSIT_AMOUNT: u64 = 10_000_000;

} // verus!
