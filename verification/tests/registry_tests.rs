use tfhe::shortint::parameters::{
    CarryModulus, CiphertextModulus, ClassicPBSParameters, DecompositionBaseLog,
    DecompositionLevelCount, DynamicDistribution, EncryptionKeyChoice, GlweDimension,
    LweDimension, MaxNoiseLevel, MessageModulus, ModulusSwitchType, PolynomialSize, StandardDev,
};
use tfhe::shortint::ClientKey;

use solfhe::codec::TraitVector;
use solfhe::errors::ErrorCode;
use solfhe::records::AdKey;
use solfhe::registry::AdRegistry;
use solfhe::{MIN_AD_BUDGET, MIN_DEPOSIT_AMOUNT};

const NOW: i64 = 1_700_000_000;
const AUTHORITY: u64 = 42;
const BALANCE: u64 = 1_000_000_000;

/// A deliberately tiny parameter set, fast enough for a test run; it gives
/// no security, only a working scheme of the same shape.
fn tiny_parameters() -> ClassicPBSParameters {
    ClassicPBSParameters {
        lwe_dimension: LweDimension(1),
        glwe_dimension: GlweDimension(1),
        polynomial_size: PolynomialSize(256),
        lwe_noise_distribution: DynamicDistribution::new_gaussian_from_std_dev(StandardDev(
            0.000007069849454709433,
        )),
        glwe_noise_distribution: DynamicDistribution::new_gaussian_from_std_dev(StandardDev(
            0.00000000000000029403601535432533,
        )),
        pbs_base_log: DecompositionBaseLog(23),
        pbs_level: DecompositionLevelCount(1),
        ks_base_log: DecompositionBaseLog(3),
        ks_level: DecompositionLevelCount(5),
        message_modulus: MessageModulus(4),
        carry_modulus: CarryModulus(4),
        max_noise_level: MaxNoiseLevel::new(5),
        log2_p_fail: -40.0,
        ciphertext_modulus: CiphertextModulus::new_native(),
        encryption_key_choice: EncryptionKeyChoice::Big,
        modulus_switch_noise_reduction_params: ModulusSwitchType::Standard,
    }
}

/// A well-formed blob of five real serialized ciphertexts.  Encryption is
/// randomized, so callers keep the returned bytes when they compare.
fn fresh_blob() -> Vec<u8> {
    let client_key = ClientKey::new(tiny_parameters());
    let slots: Vec<Vec<u8>> = [1u64, 2, 3, 0, 1]
        .iter()
        .map(|&value| bincode::serialize(&client_key.encrypt(value)).unwrap())
        .collect();
    TraitVector::from_slots(slots).unwrap().encode()
}

/// A well-framed blob whose slots are not ciphertexts: enough for calls
/// that are rejected before the slots are parsed.
fn framed_blob() -> Vec<u8> {
    let slots = vec![vec![1, 2], vec![3], vec![4, 5, 6], vec![7], vec![8]];
    TraitVector::from_slots(slots).unwrap().encode()
}

fn registered() -> AdRegistry {
    let mut reg = AdRegistry::initialize(1, NOW);
    reg.register_advertiser(
        AUTHORITY,
        "Test Advertiser".to_string(),
        "test@example.com".to_string(),
        BALANCE,
        NOW,
    )
    .unwrap();
    reg
}

#[test]
fn test_initialize() {
    let reg = AdRegistry::initialize(7, NOW);
    assert_eq!(reg.state.authority, 7);
    assert_eq!(reg.state.advertiser_count, 0);
    assert_eq!(reg.state.user_count, 0);
    assert_eq!(reg.state.ad_count, 0);
    assert_eq!(reg.state.total_budget, 0);
    assert!(reg.state.last_updated > 0);
    assert!(reg.advertisers.is_empty());
    assert!(reg.ads.is_empty());
    assert!(reg.profiles.is_empty());
}

#[test]
fn test_register_advertiser_success() {
    let reg = registered();
    assert_eq!(reg.state.advertiser_count, 1);
    let advertiser = &reg.advertisers[0];
    assert_eq!(advertiser.authority, AUTHORITY);
    assert_eq!(advertiser.name, "Test Advertiser");
    assert_eq!(advertiser.email, "test@example.com");
    assert_eq!(advertiser.ad_count, 0);
    assert_eq!(advertiser.total_budget, 0);
    assert_eq!(advertiser.reputation_score, 100);
    assert!(advertiser.is_active);
    assert!(advertiser.created_at > 0);
    assert_eq!(advertiser.last_updated, advertiser.created_at);
}

#[test]
fn test_register_advertiser_invalid_name() {
    let mut reg = AdRegistry::initialize(1, NOW);
    let r = reg.register_advertiser(
        AUTHORITY,
        String::new(),
        "test@example.com".to_string(),
        BALANCE,
        NOW,
    );
    assert_eq!(r, Err(ErrorCode::InvalidName));
    let r = reg.register_advertiser(
        AUTHORITY,
        "x".repeat(51),
        "test@example.com".to_string(),
        BALANCE,
        NOW,
    );
    assert_eq!(r, Err(ErrorCode::InvalidName));
    assert_eq!(reg.state.advertiser_count, 0);
    assert_eq!(reg, AdRegistry::initialize(1, NOW));
}

#[test]
fn test_register_advertiser_invalid_email() {
    let mut reg = AdRegistry::initialize(1, NOW);
    let r = reg.register_advertiser(
        AUTHORITY,
        "Test Advertiser".to_string(),
        String::new(),
        BALANCE,
        NOW,
    );
    assert_eq!(r, Err(ErrorCode::InvalidEmail));
    let r = reg.register_advertiser(
        AUTHORITY,
        "Test Advertiser".to_string(),
        "y".repeat(101),
        BALANCE,
        NOW,
    );
    assert_eq!(r, Err(ErrorCode::InvalidEmail));
    assert_eq!(reg.state.advertiser_count, 0);
    assert_eq!(reg, AdRegistry::initialize(1, NOW));
}

#[test]
fn test_register_advertiser_insufficient_funds() {
    let mut reg = AdRegistry::initialize(1, NOW);
    let r = reg.register_advertiser(
        AUTHORITY,
        "Test Advertiser".to_string(),
        "test@example.com".to_string(),
        MIN_DEPOSIT_AMOUNT - 1,
        NOW,
    );
    assert_eq!(r, Err(ErrorCode::InsufficientFunds));
    assert_eq!(reg.state.advertiser_count, 0);
    assert_eq!(reg, AdRegistry::initialize(1, NOW));
}

#[test]
fn test_register_advertiser_duplicate() {
    let mut reg = registered();
    let r = reg.register_advertiser(
        AUTHORITY,
        "Another Name".to_string(),
        "other@example.com".to_string(),
        BALANCE,
        NOW + 10,
    );
    assert_eq!(r, Err(ErrorCode::AlreadyRegistered));
    assert_eq!(reg.state.advertiser_count, 1);
    assert_eq!(reg, registered());
}

#[test]
fn test_create_ad_success() {
    let mut reg = registered();
    let budget: u64 = 500_000_000;
    let duration: i64 = 24 * 60 * 60;
    let blob = fresh_blob();
    let key = reg
        .create_ad(
            AUTHORITY,
            "Test Ad Content".to_string(),
            blob.clone(),
            duration,
            budget,
            BALANCE,
            NOW + 1,
        )
        .unwrap();
    assert_eq!(
        key,
        AdKey {
            advertiser: AUTHORITY,
            seq: 0
        }
    );
    assert_eq!(reg.state.ad_count, 1);
    assert_eq!(reg.state.total_budget, budget);
    let advertiser = &reg.advertisers[0];
    assert_eq!(advertiser.ad_count, 1);
    assert_eq!(advertiser.total_budget, budget);
    let ad = &reg.ads[0];
    assert_eq!(ad.advertiser, AUTHORITY);
    assert_eq!(ad.seq, 0);
    assert_eq!(ad.content, "Test Ad Content");
    assert_eq!(ad.encrypted_target_traits, blob);
    assert_eq!(ad.duration, duration);
    assert_eq!(ad.budget, budget);
    assert_eq!(ad.spent_budget, 0);
    assert_eq!(ad.impressions, 0);
    assert_eq!(ad.clicks, 0);
    assert!(ad.is_active);

    // A second ad: the sums and counts keep tracking the records.
    let key2 = reg
        .create_ad(
            AUTHORITY,
            "Second Ad".to_string(),
            fresh_blob(),
            duration,
            budget,
            BALANCE,
            NOW + 2,
        )
        .unwrap();
    assert_eq!(key2.seq, 1);
    assert_eq!(reg.state.ad_count, 2);
    assert_eq!(reg.state.total_budget, 2 * budget);
    assert_eq!(reg.advertisers[0].ad_count, 2);
    assert_eq!(reg.advertisers[0].total_budget, 2 * budget);
}

#[test]
fn test_create_ad_budget_below_minimum() {
    let mut reg = registered();
    let r = reg.create_ad(
        AUTHORITY,
        "Test Ad Content".to_string(),
        framed_blob(),
        24 * 60 * 60,
        MIN_AD_BUDGET - 1,
        BALANCE,
        NOW + 1,
    );
    assert_eq!(r, Err(ErrorCode::InsufficientAdBudget));
    assert_eq!(reg.state.ad_count, 0);
    assert_eq!(reg.state.total_budget, 0);
    assert_eq!(reg.advertisers[0].ad_count, 0);
    assert_eq!(reg.advertisers[0].total_budget, 0);
    assert_eq!(reg, registered());
}

#[test]
fn test_create_ad_invalid_content() {
    let mut reg = registered();
    let r = reg.create_ad(
        AUTHORITY,
        String::new(),
        framed_blob(),
        24 * 60 * 60,
        MIN_AD_BUDGET,
        BALANCE,
        NOW,
    );
    assert_eq!(r, Err(ErrorCode::InvalidAdContent));
    let r = reg.create_ad(
        AUTHORITY,
        "c".repeat(1001),
        framed_blob(),
        24 * 60 * 60,
        MIN_AD_BUDGET,
        BALANCE,
        NOW,
    );
    assert_eq!(r, Err(ErrorCode::InvalidAdContent));
    assert_eq!(reg, registered());
}

#[test]
fn test_create_ad_invalid_duration() {
    let mut reg = registered();
    let r = reg.create_ad(
        AUTHORITY,
        "Test Ad Content".to_string(),
        framed_blob(),
        3599,
        MIN_AD_BUDGET,
        BALANCE,
        NOW,
    );
    assert_eq!(r, Err(ErrorCode::InvalidAdDuration));
    let r = reg.create_ad(
        AUTHORITY,
        "Test Ad Content".to_string(),
        framed_blob(),
        2_592_001,
        MIN_AD_BUDGET,
        BALANCE,
        NOW,
    );
    assert_eq!(r, Err(ErrorCode::InvalidAdDuration));
    assert_eq!(reg, registered());
}

#[test]
fn test_create_ad_unregistered_caller() {
    let mut reg = registered();
    let r = reg.create_ad(
        99,
        "Test Ad Content".to_string(),
        framed_blob(),
        24 * 60 * 60,
        MIN_AD_BUDGET,
        BALANCE,
        NOW,
    );
    assert_eq!(r, Err(ErrorCode::Unauthorized));
    assert_eq!(reg, registered());
}

#[test]
fn test_create_ad_malformed_traits() {
    let mut reg = registered();
    let r = reg.create_ad(
        AUTHORITY,
        "Test Ad Content".to_string(),
        vec![9, 9, 9],
        24 * 60 * 60,
        MIN_AD_BUDGET,
        BALANCE,
        NOW,
    );
    assert_eq!(r, Err(ErrorCode::MalformedCiphertext));
    // A well-formed encoding of the wrong cardinality.
    let short_blob: Vec<u8> = vec![1, 2, 0, 0, 0, 5, 6];
    let r = reg.create_ad(
        AUTHORITY,
        "Test Ad Content".to_string(),
        short_blob,
        24 * 60 * 60,
        MIN_AD_BUDGET,
        BALANCE,
        NOW,
    );
    assert_eq!(r, Err(ErrorCode::InvalidTraitVector));
    // Well-framed slots that are not ciphertexts are rejected at creation,
    // never stored.
    let r = reg.create_ad(
        AUTHORITY,
        "Test Ad Content".to_string(),
        framed_blob(),
        24 * 60 * 60,
        MIN_AD_BUDGET,
        BALANCE,
        NOW,
    );
    assert_eq!(r, Err(ErrorCode::MalformedCiphertext));
    assert!(reg.ads.is_empty());
    assert_eq!(reg, registered());
}

#[test]
fn test_create_ad_insufficient_funds() {
    let mut reg = registered();
    let r = reg.create_ad(
        AUTHORITY,
        "Test Ad Content".to_string(),
        fresh_blob(),
        24 * 60 * 60,
        MIN_AD_BUDGET,
        MIN_AD_BUDGET - 1,
        NOW,
    );
    assert_eq!(r, Err(ErrorCode::InsufficientFunds));
    assert_eq!(reg, registered());
}

#[test]
fn test_create_ad_overflow_global_count() {
    let mut reg = registered();
    reg.state.ad_count = u64::MAX;
    let r = reg.create_ad(
        AUTHORITY,
        "Test Ad Content".to_string(),
        fresh_blob(),
        24 * 60 * 60,
        MIN_AD_BUDGET,
        BALANCE,
        NOW,
    );
    assert_eq!(r, Err(ErrorCode::Overflow));
    assert_eq!(reg.state.ad_count, u64::MAX);
    assert_eq!(reg.state.total_budget, 0);
    assert_eq!(reg.advertisers[0].ad_count, 0);
    assert!(reg.ads.is_empty());
}

#[test]
fn test_create_ad_overflow_advertiser_count() {
    let mut reg = registered();
    reg.advertisers[0].ad_count = u64::MAX;
    let r = reg.create_ad(
        AUTHORITY,
        "Test Ad Content".to_string(),
        fresh_blob(),
        24 * 60 * 60,
        MIN_AD_BUDGET,
        BALANCE,
        NOW,
    );
    assert_eq!(r, Err(ErrorCode::Overflow));
    assert_eq!(reg.advertisers[0].ad_count, u64::MAX);
    assert_eq!(reg.state.ad_count, 0);
    assert!(reg.ads.is_empty());
}

#[test]
fn test_update_ad_status() {
    let mut reg = registered();
    let key = reg
        .create_ad(
            AUTHORITY,
            "Test Ad Content".to_string(),
            fresh_blob(),
            24 * 60 * 60,
            MIN_AD_BUDGET,
            BALANCE,
            NOW,
        )
        .unwrap();
    // Wrong caller.
    let r = reg.update_ad_status(key, 99, false, NOW + 5);
    assert_eq!(r, Err(ErrorCode::Unauthorized));
    assert!(reg.ads[0].is_active);
    // Missing ad.
    let missing = AdKey {
        advertiser: AUTHORITY,
        seq: 7,
    };
    let r = reg.update_ad_status(missing, AUTHORITY, false, NOW + 5);
    assert_eq!(r, Err(ErrorCode::Unauthorized));
    // The owner switches it off.
    reg.update_ad_status(key, AUTHORITY, false, NOW + 6).unwrap();
    assert!(!reg.ads[0].is_active);
    assert_eq!(reg.ads[0].last_updated, NOW + 6);
    assert_eq!(reg.ads[0].content, "Test Ad Content");
    assert_eq!(reg.state.ad_count, 1);
}

#[test]
fn test_submit_user_profile_counts_first_submission_only() {
    let mut reg = AdRegistry::initialize(1, NOW);
    let user: u64 = 77;
    reg.submit_user_profile(user, fresh_blob(), NOW + 1).unwrap();
    assert_eq!(reg.state.user_count, 1);
    assert_eq!(reg.profiles.len(), 1);
    assert_eq!(reg.profiles[0].submitted_at, NOW + 1);
    // The same identity submits again: overwritten, not recounted.
    reg.submit_user_profile(user, fresh_blob(), NOW + 2).unwrap();
    assert_eq!(reg.state.user_count, 1);
    assert_eq!(reg.profiles.len(), 1);
    assert_eq!(reg.profiles[0].submitted_at, NOW + 2);
    // A different identity is counted.
    reg.submit_user_profile(user + 1, fresh_blob(), NOW + 3).unwrap();
    assert_eq!(reg.state.user_count, 2);
    assert_eq!(reg.profiles.len(), 2);
}

#[test]
fn test_submit_user_profile_malformed() {
    let mut reg = AdRegistry::initialize(1, NOW);
    let r = reg.submit_user_profile(77, vec![1, 2, 3], NOW);
    assert_eq!(r, Err(ErrorCode::MalformedCiphertext));
    let r = reg.submit_user_profile(77, Vec::new(), NOW);
    assert_eq!(r, Err(ErrorCode::MalformedCiphertext));
    // Well-framed slots that are not ciphertexts are rejected too.
    let r = reg.submit_user_profile(77, framed_blob(), NOW);
    assert_eq!(r, Err(ErrorCode::MalformedCiphertext));
    assert_eq!(reg.state.user_count, 0);
    assert!(reg.profiles.is_empty());
    assert_eq!(reg, AdRegistry::initialize(1, NOW));
}
