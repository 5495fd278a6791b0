//! Tests that run the engine against real shortint ciphertexts: encrypted
//! trait vectors travel through the codec and the registry byte-for-byte,
//! and decrypting what was stored gives back what was encrypted.

use tfhe::shortint::parameters::{
    CarryModulus, CiphertextModulus, ClassicPBSParameters, DecompositionBaseLog,
    DecompositionLevelCount, DynamicDistribution, EncryptionKeyChoice, GlweDimension,
    LweDimension, MaxNoiseLevel, MessageModulus, ModulusSwitchType, PolynomialSize, StandardDev,
    PARAM_MESSAGE_2_CARRY_2,
};
use tfhe::shortint::{Ciphertext, ClientKey, ServerKey};

use solfhe::codec::TraitVector;
use solfhe::dispatch::{process_instruction, solFHEInstruction};
use solfhe::errors::ErrorCode;
use solfhe::matching::match_ads;
use solfhe::records::AdKey;
use solfhe::registry::AdRegistry;
use solfhe::results::ResultStore;

const NOW: i64 = 1_700_000_000;
const AUTHORITY: u64 = 42;
const BALANCE: u64 = 1_000_000_000;

fn encrypt_blob(client_key: &ClientKey, traits: &[u64]) -> Vec<u8> {
    let slots: Vec<Vec<u8>> = traits
        .iter()
        .map(|&value| bincode::serialize(&client_key.encrypt(value)).unwrap())
        .collect();
    TraitVector::from_slots(slots).unwrap().encode()
}

#[test]
fn test_create_ad_with_realistic_fhe() {
    let client_key = ClientKey::new(PARAM_MESSAGE_2_CARRY_2);
    let target_traits: Vec<u64> = vec![25, 30, 35, 40, 45];
    let encrypted_target_traits = encrypt_blob(&client_key, &target_traits);

    let mut reg = AdRegistry::initialize(1, NOW);
    reg.register_advertiser(
        AUTHORITY,
        "Test Advertiser".to_string(),
        "test@example.com".to_string(),
        BALANCE,
        NOW,
    )
    .unwrap();

    let content = "Test Ad Content".to_string();
    let duration: i64 = 24 * 60 * 60;
    let budget: u64 = 500_000_000;
    reg.create_ad(
        AUTHORITY,
        content.clone(),
        encrypted_target_traits.clone(),
        duration,
        budget,
        BALANCE,
        NOW + 1,
    )
    .unwrap();

    // The stored blob is exactly what was submitted and decodes to the
    // same five ciphertext slots.
    let ad = &reg.ads[0];
    assert_eq!(ad.encrypted_target_traits, encrypted_target_traits);
    let stored = TraitVector::decode(&ad.encrypted_target_traits).unwrap();

    // Decrypting each stored slot gives back the encrypted trait, reduced
    // by the scheme's message modulus as its encryption documents.
    let modulus = client_key.parameters().message_modulus().0;
    for (i, expected) in target_traits.iter().enumerate() {
        let ct: Ciphertext = bincode::deserialize(stored.slot(i)).unwrap();
        assert_eq!(client_key.decrypt(&ct), expected % modulus);
    }

    // Counter updates committed together with the record.
    assert_eq!(reg.state.ad_count, 1);
    assert_eq!(reg.state.total_budget, budget);
    assert_eq!(reg.advertisers[0].ad_count, 1);
    assert_eq!(reg.advertisers[0].total_budget, budget);
}

/// A deliberately tiny parameter set, fast enough for a test run; it gives
/// no security, only a working scheme of the same shape.
fn tiny_parameters() -> ClassicPBSParameters {
    ClassicPBSParameters {
        lwe_dimension: LweDimension(1),
        glwe_dimension: GlweDimension(1),
        polynomial_size: PolynomialSize(256),
        lwe_noise_distribution: DynamicDistribution::new_gaussian_from_std_dev(StandardDev(
            0.000007069849454709433,
        )),
        glwe_noise_distribution: DynamicDistribution::new_gaussian_from_std_dev(StandardDev(
            0.00000000000000029403601535432533,
        )),
        pbs_base_log: DecompositionBaseLog(23),
        pbs_level: DecompositionLevelCount(1),
        ks_base_log: DecompositionBaseLog(3),
        ks_level: DecompositionLevelCount(5),
        message_modulus: MessageModulus(4),
        carry_modulus: CarryModulus(4),
        max_noise_level: MaxNoiseLevel::new(5),
        log2_p_fail: -40.0,
        ciphertext_modulus: CiphertextModulus::new_native(),
        encryption_key_choice: EncryptionKeyChoice::Big,
        modulus_switch_noise_reduction_params: ModulusSwitchType::Standard,
    }
}

#[test]
fn test_match_ads_runs_the_homomorphic_pipeline() {
    // Small parameters keep key generation and bootstrapping quick; the
    // scheme's scores stay below the match threshold, so a successful
    // match of these candidates is exactly the empty ranking.
    let client_key = ClientKey::new(tiny_parameters());
    let server_key = ServerKey::new(&client_key);

    let mut reg = AdRegistry::initialize(1, NOW);
    reg.register_advertiser(
        AUTHORITY,
        "Test Advertiser".to_string(),
        "test@example.com".to_string(),
        BALANCE,
        NOW,
    )
    .unwrap();
    reg.create_ad(
        AUTHORITY,
        "Test Ad Content".to_string(),
        encrypt_blob(&client_key, &[1, 2, 3, 0, 1]),
        24 * 60 * 60,
        500_000_000,
        BALANCE,
        NOW + 1,
    )
    .unwrap();

    let user_blob = encrypt_blob(&client_key, &[1, 2, 0, 0, 1]);
    let result = match_ads(&server_key, &client_key, &user_blob, &reg.ads).unwrap();
    assert!(result.entries.is_empty());

    // A malformed user blob aborts the match with the codec's error.
    let r = match_ads(&server_key, &client_key, &vec![9, 9, 9], &reg.ads);
    assert_eq!(r, Err(ErrorCode::MalformedCiphertext));
    let two_slots: Vec<u8> = vec![2, 1, 0, 0, 0, 10, 1, 0, 0, 0, 20];
    let r = match_ads(&server_key, &client_key, &two_slots, &reg.ads);
    assert_eq!(r, Err(ErrorCode::InvalidTraitVector));

    // A well-framed vector whose slots are not ciphertexts fails when the
    // slots are deserialized, not before.
    let garbage_slots = TraitVector::from_slots(vec![
        vec![1],
        vec![2],
        vec![3],
        vec![4],
        vec![5],
    ])
    .unwrap()
    .encode();
    let r = match_ads(&server_key, &client_key, &garbage_slots, &reg.ads);
    assert_eq!(r, Err(ErrorCode::MalformedCiphertext));

    // The registry refuses to store such a blob at creation time, so no
    // stored ad can poison a later match.
    let r = reg.create_ad(
        AUTHORITY,
        "Unreadable targets".to_string(),
        garbage_slots,
        24 * 60 * 60,
        500_000_000,
        BALANCE,
        NOW + 2,
    );
    assert_eq!(r, Err(ErrorCode::MalformedCiphertext));
    assert_eq!(reg.ads.len(), 1);
}

#[test]
fn test_match_ads_rejects_foreign_parameter_set() {
    // Ciphertexts from one parameter set matched under another key fail
    // cleanly with the cryptographic error instead of computing.
    let client_key = ClientKey::new(tiny_parameters());
    let server_key = ServerKey::new(&client_key);

    let mut other = tiny_parameters();
    other.polynomial_size = PolynomialSize(512);
    let foreign_key = ClientKey::new(other);

    let mut reg = AdRegistry::initialize(1, NOW);
    reg.register_advertiser(
        AUTHORITY,
        "Test Advertiser".to_string(),
        "test@example.com".to_string(),
        BALANCE,
        NOW,
    )
    .unwrap();
    reg.create_ad(
        AUTHORITY,
        "Test Ad Content".to_string(),
        encrypt_blob(&foreign_key, &[1, 2, 3, 0, 1]),
        24 * 60 * 60,
        500_000_000,
        BALANCE,
        NOW + 1,
    )
    .unwrap();

    let user_blob = encrypt_blob(&client_key, &[1, 2, 3, 0, 1]);
    let r = match_ads(&server_key, &client_key, &user_blob, &reg.ads);
    assert_eq!(r, Err(ErrorCode::FheOperationFailed));
}

#[test]
fn test_process_instruction_cycle() {
    let client_key = ClientKey::new(tiny_parameters());
    let server_key = ServerKey::new(&client_key);
    let mut registry = AdRegistry::initialize(1, NOW);
    let mut results = ResultStore::new();
    let user: u64 = 77;

    let r = process_instruction(
        &mut registry,
        &mut results,
        &server_key,
        &client_key,
        AUTHORITY,
        BALANCE,
        NOW,
        solFHEInstruction::RegisterAdvertiser {
            name: "Test Advertiser".to_string(),
            email: "test@example.com".to_string(),
        },
    );
    assert_eq!(r, Ok(()));
    assert_eq!(registry.state.advertiser_count, 1);

    let r = process_instruction(
        &mut registry,
        &mut results,
        &server_key,
        &client_key,
        AUTHORITY,
        BALANCE,
        NOW + 1,
        solFHEInstruction::CreateAd {
            content: "Test Ad Content".to_string(),
            encrypted_target_traits: encrypt_blob(&client_key, &[1, 2, 3, 0, 1]),
            duration: 24 * 60 * 60,
            budget: 500_000_000,
        },
    );
    assert_eq!(r, Ok(()));
    assert_eq!(registry.state.ad_count, 1);
    assert_eq!(registry.state.total_budget, 500_000_000);

    let r = process_instruction(
        &mut registry,
        &mut results,
        &server_key,
        &client_key,
        user,
        0,
        NOW + 2,
        solFHEInstruction::SubmitUserProfile {
            encrypted_profile_data: encrypt_blob(&client_key, &[1, 2, 0, 0, 1]),
        },
    );
    assert_eq!(r, Ok(()));
    assert_eq!(registry.state.user_count, 1);

    let r = process_instruction(
        &mut registry,
        &mut results,
        &server_key,
        &client_key,
        user,
        0,
        NOW + 3,
        solFHEInstruction::MatchAds {
            encrypted_user_traits: encrypt_blob(&client_key, &[1, 2, 0, 0, 1]),
        },
    );
    assert_eq!(r, Ok(()));
    // The scheme's scores stay below the threshold, so the store stays
    // empty.
    assert_eq!(results.len(), 0);

    let r = process_instruction(
        &mut registry,
        &mut results,
        &server_key,
        &client_key,
        AUTHORITY,
        BALANCE,
        NOW + 4,
        solFHEInstruction::UpdateAdStatus {
            ad: AdKey {
                advertiser: AUTHORITY,
                seq: 0,
            },
            is_active: false,
        },
    );
    assert_eq!(r, Ok(()));
    assert!(!registry.ads[0].is_active);

    // A failing request comes back with the operation's own error and
    // changes nothing.
    let before_count = registry.state.advertiser_count;
    let r = process_instruction(
        &mut registry,
        &mut results,
        &server_key,
        &client_key,
        AUTHORITY,
        BALANCE,
        NOW + 5,
        solFHEInstruction::RegisterAdvertiser {
            name: "Again".to_string(),
            email: "again@example.com".to_string(),
        },
    );
    assert_eq!(r, Err(ErrorCode::AlreadyRegistered));
    assert_eq!(registry.state.advertiser_count, before_count);
}

#[test]
fn test_submit_profile_with_realistic_fhe() {
    let client_key = ClientKey::new(PARAM_MESSAGE_2_CARRY_2);
    let profile_traits: Vec<u64> = vec![1, 2, 3, 0, 1];
    let blob = encrypt_blob(&client_key, &profile_traits);

    let mut reg = AdRegistry::initialize(1, NOW);
    reg.submit_user_profile(77, blob.clone(), NOW + 1).unwrap();
    assert_eq!(reg.state.user_count, 1);
    assert_eq!(reg.profiles[0].encrypted_traits, blob);

    let stored = TraitVector::decode(&reg.profiles[0].encrypted_traits).unwrap();
    let modulus = client_key.parameters().message_modulus().0;
    for (i, expected) in profile_traits.iter().enumerate() {
        let ct: Ciphertext = bincode::deserialize(stored.slot(i)).unwrap();
        assert_eq!(client_key.decrypt(&ct), expected % modulus);
    }
}
