//! Boundary to the homomorphic-encryption scheme and its serialization.
//!
//! Ciphertexts and keys are opaque here: the engine moves them between the
//! codec and the scheme's operations without ever reading a plaintext
//! attribute.  Each trusted function below is the one place the engine
//! calls the named outside function; everything computed from their
//! results is verified against the contracts stated here.
//!
//! Every operation is total: before a scheme call each wrapper checks that
//! its ciphertexts belong to the key's parameter set and leave room for
//! the operation, and answers `FheOperationFailed` instead of calling when
//! they do not, so no input a caller can craft reaches a panicking path.

use vstd::prelude::*;

verus! {

use tfhe::shortint::atomic_pattern::AtomicPattern;
use tfhe::shortint::client_key::atomic_pattern::EncryptionAtomicPattern;

use crate::codec::{spec_decode, TraitVector};
use crate::errors::ErrorCode;
use crate::FHE_TRAITS_COUNT;

#[verifier::external_type_specification]
#[verifier::external_body]
pub struct ExCiphertext(tfhe::shortint::Ciphertext);

#[verifier::external_type_specification]
#[verifier::external_body]
pub struct ExAtomicPatternClientKey(
    tfhe::shortint::client_key::atomic_pattern::AtomicPatternClientKey,
);

#[verifier::external_type_specification]
#[verifier::external_body]
#[verifier::reject_recursive_types(AP)]
pub struct ExGenericClientKey<AP>(tfhe::shortint::client_key::GenericClientKey<AP>);

#[verifier::external_type_specification]
#[verifier::external_body]
pub struct ExAtomicPatternServerKey(tfhe::shortint::atomic_pattern::AtomicPatternServerKey);

#[verifier::external_type_specification]
#[verifier::external_body]
#[verifier::reject_recursive_types(AP)]
pub struct ExGenericServerKey<AP>(tfhe::shortint::server_key::GenericServerKey<AP>);

/// Whether these bytes are one serialized ciphertext: exactly the blobs
/// `parse_ciphertext` accepts.  Deserialization is a function of the bytes
/// alone, so the predicate names its outcome.
pub uninterp spec fn ciphertext_parses(bytes: Seq<u8>) -> bool;

/// Whether every slot of a trait vector is one serialized ciphertext.
pub open spec fn trait_slots_parse(slots: Seq<Seq<u8>>) -> bool {
    forall|i: int| 0 <= i < slots.len() ==> ciphertext_parses(#[trigger] slots[i])
}

/// Why an encoded trait blob is rejected, if it is: unparseable framing or
/// slots are `MalformedCiphertext`, a parseable vector of the wrong
/// cardinality is `InvalidTraitVector`.
pub open spec fn trait_blob_error(bytes: Seq<u8>) -> Option<ErrorCode> {
    if spec_decode(bytes) is None {
        Some(ErrorCode::MalformedCiphertext)
    } else if spec_decode(bytes)->Some_0.len() != FHE_TRAITS_COUNT {
        Some(ErrorCode::InvalidTraitVector)
    } else if !trait_slots_parse(spec_decode(bytes)->Some_0) {
        Some(ErrorCode::MalformedCiphertext)
    } else {
        None
    }
}

/// Relies on bincode::deserialize for tfhe::shortint::Ciphertext: parses one
/// serialized ciphertext out of an opaque slot, succeeding exactly on the
/// blobs the format accepts.
#[verifier::external_body]
pub(crate) fn parse_ciphertext(bytes: &Vec<u8>) -> (r: Result<tfhe::shortint::Ciphertext, ErrorCode>)
    ensures
        r is Ok <==> ciphertext_parses(bytes@),
        r matches Err(e) ==> e == ErrorCode::MalformedCiphertext,
{
    match bincode::deserialize(bytes.as_slice()) {
        Ok(ct) => Ok(ct),
        Err(_) => Err(ErrorCode::MalformedCiphertext),
    }
}

/// Parses the ciphertext in each slot of a decoded trait vector,
/// succeeding exactly when every slot is one serialized ciphertext.
pub(crate) fn parse_traits(tv: &TraitVector) -> (r: Result<
    Vec<tfhe::shortint::Ciphertext>,
    ErrorCode,
>)
    ensures
        tv@.len() == FHE_TRAITS_COUNT,
        r is Ok <==> trait_slots_parse(tv@),
        r matches Ok(v) ==> v@.len() == FHE_TRAITS_COUNT,
        r matches Err(e) ==> e == ErrorCode::MalformedCiphertext,
{
    proof {
        use_type_invariant(tv);
    }
    let mut out: Vec<tfhe::shortint::Ciphertext> = Vec::new();
    let mut i: usize = 0;
    while i < FHE_TRAITS_COUNT
        invariant
            0 <= i <= FHE_TRAITS_COUNT,
            out@.len() == i,
            tv@.len() == FHE_TRAITS_COUNT,
            forall|j: int| 0 <= j < i ==> ciphertext_parses(#[trigger] tv@[j]),
        decreases FHE_TRAITS_COUNT - i,
    {
        let ct = match parse_ciphertext(tv.slot(i)) {
            Ok(ct) => ct,
            Err(e) => {
                assert(!ciphertext_parses(tv@[i as int]));
                return Err(e);
            },
        };
        out.push(ct);
        i += 1;
    }
    Ok(out)
}

/// Relies on tfhe::shortint::ServerKey::checked_bitxor: the homomorphic
/// bitwise dissimilarity of two encrypted traits, computed without
/// decrypting either operand.  Operands outside the key's parameter set,
/// or without noise or carry room, are refused, never computed on.
/// Nothing is assumed of a returned ciphertext.
#[verifier::external_body]
pub(crate) fn fhe_xor(
    server_key: &tfhe::shortint::ServerKey,
    a: &tfhe::shortint::Ciphertext,
    b: &tfhe::shortint::Ciphertext,
) -> (r: Result<tfhe::shortint::Ciphertext, ErrorCode>)
    ensures
        r matches Err(e) ==> e == ErrorCode::FheOperationFailed,
{
    let fits = |ct: &tfhe::shortint::Ciphertext| ct.ct.lwe_size().to_lwe_dimension()
        == server_key.atomic_pattern.ciphertext_lwe_dimension()
        && ct.ct.ciphertext_modulus() == server_key.atomic_pattern.ciphertext_modulus()
        && ct.message_modulus == server_key.message_modulus
        && ct.carry_modulus == server_key.carry_modulus
        && ct.atomic_pattern == server_key.atomic_pattern.kind()
        && ct.degree.get() <= server_key.max_degree.get()
        && ct.noise_level().get() <= server_key.max_noise_level.get();
    if !fits(a) || !fits(b) {
        return Err(ErrorCode::FheOperationFailed);
    }
    server_key.checked_bitxor(a, b).map_err(|_| ErrorCode::FheOperationFailed)
}

/// Relies on tfhe::shortint::ServerKey::checked_add: the homomorphic sum
/// of two encrypted per-trait dissimilarities.  Operands outside the key's
/// parameter set, or without noise or carry room, are refused, never
/// computed on.  Nothing is assumed of a returned ciphertext.
#[verifier::external_body]
pub(crate) fn fhe_add(
    server_key: &tfhe::shortint::ServerKey,
    a: &tfhe::shortint::Ciphertext,
    b: &tfhe::shortint::Ciphertext,
) -> (r: Result<tfhe::shortint::Ciphertext, ErrorCode>)
    ensures
        r matches Err(e) ==> e == ErrorCode::FheOperationFailed,
{
    let fits = |ct: &tfhe::shortint::Ciphertext| ct.ct.lwe_size().to_lwe_dimension()
        == server_key.atomic_pattern.ciphertext_lwe_dimension()
        && ct.ct.ciphertext_modulus() == server_key.atomic_pattern.ciphertext_modulus()
        && ct.message_modulus == server_key.message_modulus
        && ct.carry_modulus == server_key.carry_modulus
        && ct.atomic_pattern == server_key.atomic_pattern.kind()
        && ct.degree.get() <= server_key.max_degree.get()
        && ct.noise_level().get() <= server_key.max_noise_level.get();
    if !fits(a) || !fits(b) {
        return Err(ErrorCode::FheOperationFailed);
    }
    server_key.checked_add(a, b).map_err(|_| ErrorCode::FheOperationFailed)
}

/// Relies on tfhe::shortint::ServerKey::unchecked_scalar_div, which divides
/// an encrypted value by a clear scalar, truncating toward zero, and panics
/// on a zero divisor: the divisor is required to be nonzero.  A ciphertext
/// outside the key's parameter set is refused, never computed on.
#[verifier::external_body]
pub(crate) fn fhe_scalar_div(
    server_key: &tfhe::shortint::ServerKey,
    ct: &tfhe::shortint::Ciphertext,
    divisor: u8,
) -> (r: Result<tfhe::shortint::Ciphertext, ErrorCode>)
    requires
        divisor != 0,
    ensures
        r matches Err(e) ==> e == ErrorCode::FheOperationFailed,
{
    let fits = ct.ct.lwe_size().to_lwe_dimension()
        == server_key.atomic_pattern.ciphertext_lwe_dimension()
        && ct.ct.ciphertext_modulus() == server_key.atomic_pattern.ciphertext_modulus()
        && ct.message_modulus == server_key.message_modulus
        && ct.carry_modulus == server_key.carry_modulus
        && ct.atomic_pattern == server_key.atomic_pattern.kind()
        && ct.degree.get() <= server_key.max_degree.get()
        && ct.noise_level().get() <= server_key.max_noise_level.get();
    if !fits {
        return Err(ErrorCode::FheOperationFailed);
    }
    Ok(server_key.unchecked_scalar_div(ct, divisor))
}

/// Relies on tfhe::shortint::ClientKey::decrypt: reveals only the final
/// aggregate score, never an individual trait.  A ciphertext that does not
/// match the key's encryption dimension and message modulus is refused.
/// The value depends on the key, so nothing is assumed of it.
#[verifier::external_body]
pub(crate) fn fhe_decrypt(
    secret_key: &tfhe::shortint::ClientKey,
    ct: &tfhe::shortint::Ciphertext,
) -> (r: Result<u64, ErrorCode>)
    ensures
        r matches Err(e) ==> e == ErrorCode::FheOperationFailed,
{
    let fits = ct.ct.lwe_size().to_lwe_dimension()
        == secret_key.atomic_pattern.encryption_key().lwe_dimension()
        && ct.message_modulus == secret_key.parameters().message_modulus();
    if !fits {
        return Err(ErrorCode::FheOperationFailed);
    }
    Ok(secret_key.decrypt(ct))
}

} // verus!
