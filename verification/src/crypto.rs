//! The cryptographic primitives behind the identity lifecycle.
//!
//! Keys, principals and signatures are computed by k256, ic-agent and candid;
//! this module gives their results names that the rest of the library's
//! contracts are stated over.  A secret key is carried as its exported JSON
//! Web Key string, a principal as its canonical text, a public key as its
//! DER-encoded SPKI bytes.
use crate::AuthError;
use vstd::prelude::*;

verus! {

/// Whether `s` is a canonical principal text: exactly the strings that
/// candid's `Principal::from_text` accepts.
pub uninterp spec fn is_principal_text(s: Seq<char>) -> bool;

/// Whether k256's `SecretKey::from_jwk_str` accepts the string as a
/// secp256k1 JSON Web Key.
pub uninterp spec fn jwk_valid(jwk: Seq<char>) -> bool;

/// The canonical principal text derived from the key a valid JWK string
/// encodes (the self-authenticating principal of its public key).
pub uninterp spec fn principal_of_jwk(jwk: Seq<char>) -> Seq<char>;

/// The DER-encoded SPKI public key of the key a valid JWK string encodes.
pub uninterp spec fn pubkey_of_jwk(jwk: Seq<char>) -> Seq<u8>;

/// Relies on k256's `SecretKey::random` and `to_jwk_string`: a freshly
/// generated secret key exports to a JWK string, and `from_jwk_str` accepts
/// the string such an export produces.  The key is random: nothing else
/// holds of the result.
#[verifier::external_body]
pub(crate) fn generate_key_jwk() -> (r: String)
    ensures
        jwk_valid(r@),
{
    let secret = k256::SecretKey::random(&mut k256::elliptic_curve::rand_core::OsRng);
    let jwk = secret.to_jwk_string();
    String::clone(&jwk)
}

/// Relies on k256's `SecretKey::from_jwk_str` (succeeds exactly on valid
/// JWK strings), ic-agent's `Secp256k1Identity::from_private_key` and
/// `Identity::sender` (always `Ok` for a secp256k1 identity), and candid's
/// `Principal::to_text` (a function of the principal whose output
/// `Principal::from_text` accepts and which is lowercase base32 groups
/// joined by dashes, so free of double quotes).
#[verifier::external_body]
pub fn principal_text_of_jwk(jwk: &str) -> (r: Result<String, AuthError>)
    ensures
        r matches Ok(t) ==> jwk_valid(jwk@) && t@ == principal_of_jwk(jwk@)
            && is_principal_text(t@) && crate::strutil::quote_free(t@),
        jwk_valid(jwk@) ==> r is Ok,
{
    let Ok(secret) = k256::SecretKey::from_jwk_str(jwk) else {
        return Err(AuthError::KeyDecode);
    };
    let identity = ic_agent::identity::Secp256k1Identity::from_private_key(secret);
    match ic_agent::Identity::sender(&identity) {
        Ok(principal) => Ok(principal.to_text()),
        Err(_) => Err(AuthError::KeyDecode),
    }
}

/// Relies on k256's `SecretKey::from_jwk_str` and ic-agent's
/// `Secp256k1Identity::from_private_key` and `Identity::public_key`: the
/// DER-encoded public key is a function of the key alone and is always
/// `Some` for a secp256k1 identity.
#[verifier::external_body]
pub fn public_key_der_of_jwk(jwk: &str) -> (r: Result<Vec<u8>, AuthError>)
    ensures
        r matches Ok(k) ==> jwk_valid(jwk@) && k@ == pubkey_of_jwk(jwk@),
        jwk_valid(jwk@) ==> r is Ok,
{
    let Ok(secret) = k256::SecretKey::from_jwk_str(jwk) else {
        return Err(AuthError::KeyDecode);
    };
    let identity = ic_agent::identity::Secp256k1Identity::from_private_key(secret);
    match ic_agent::Identity::public_key(&identity) {
        Some(der) => Ok(der),
        None => Err(AuthError::KeyDecode),
    }
}

/// Relies on ic-agent's `Identity::sign_delegation` for `Secp256k1Identity`:
/// it ECDSA-signs the delegation's domain-separated representation-
/// independent hash with the base key and returns the 64-byte `r || s`
/// signature; for a well-formed secp256k1 key it does not fail.  The
/// delegation signed is `{pubkey, expiration, targets: None}`.
#[verifier::external_body]
pub(crate) fn sign_delegation_jwk(
    base_jwk: &str,
    session_pubkey_der: &Vec<u8>,
    expiration_ns: u64,
) -> (r: Result<Vec<u8>, AuthError>)
    ensures
        r matches Ok(sig) ==> jwk_valid(base_jwk@) && sig@.len() == 64,
        jwk_valid(base_jwk@) ==> r is Ok,
{
    let Ok(secret) = k256::SecretKey::from_jwk_str(base_jwk) else {
        return Err(AuthError::KeyDecode);
    };
    let identity = ic_agent::identity::Secp256k1Identity::from_private_key(secret);
    let delegation = ic_agent::identity::Delegation {
        pubkey: session_pubkey_der.clone(),
        expiration: expiration_ns,
        targets: None,
        permissions: None,
    };
    match ic_agent::Identity::sign_delegation(&identity, &delegation) {
        Ok(sig) => sig.signature.ok_or(AuthError::Signing),
        Err(_) => Err(AuthError::Signing),
    }
}

/// Relies on candid's `Principal::from_text`: acceptance depends on the
/// string alone.
#[verifier::external_body]
pub fn principal_text_valid(s: &str) -> (r: bool)
    ensures
        r == is_principal_text(s@),
{
    candid::Principal::from_text(s).is_ok()
}

} // verus!
