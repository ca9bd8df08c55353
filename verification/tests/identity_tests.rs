//! Tests for base identities, delegation bundles and the real cryptography
//! behind them.
use delegated_auth::delegation::DelegatedIdentityWire;
use delegated_auth::identity::BaseIdentity;
use delegated_auth::DELEGATION_EXPIRY_NS;
use k256::ecdsa::signature::Verifier;
use k256::pkcs8::DecodePublicKey;

const NOW_NS: u64 = 1_700_000_000_000_000_000;

/// Checks a wire bundle's delegation signature with plain k256 against the
/// DER public key the bundle carries.
fn assert_signature_verifies(wire: &DelegatedIdentityWire) {
    let signed = &wire.delegation_chain[0];
    let delegation = ic_agent::identity::Delegation {
        pubkey: signed.delegation.pubkey.clone(),
        expiration: signed.delegation.expiration,
        targets: None,
        permissions: None,
    };
    let message = delegation.signable();
    let public_key = k256::PublicKey::from_public_key_der(&wire.from_key).unwrap();
    let verifying_key = k256::ecdsa::VerifyingKey::from(&public_key);
    let signature = k256::ecdsa::Signature::from_slice(&signed.signature).unwrap();
    verifying_key.verify(&message, &signature).unwrap();
}

#[test]
fn exported_key_roundtrips_to_same_principal() {
    let a = BaseIdentity::generate();
    let exported = a.export_private_key().clone();
    let b = BaseIdentity::from_jwk(&exported).unwrap();
    assert_eq!(a.principal_text(), b.principal_text());
    assert_eq!(a.public_key_der(), b.public_key_der());
}

#[test]
fn principal_text_matches_ic_agent_derivation() {
    // the library's stored principal must agree with what ic-agent itself
    // derives from the same exported key
    let a = BaseIdentity::generate();
    let secret = k256::SecretKey::from_jwk_str(a.export_private_key()).unwrap();
    let identity = ic_agent::identity::Secp256k1Identity::from_private_key(secret);
    let sender = ic_agent::Identity::sender(&identity).unwrap();
    assert_eq!(a.principal_text().as_str(), sender.to_text());
    assert_eq!(
        candid::Principal::self_authenticating(a.public_key_der()).to_text(),
        a.principal_text().as_str()
    );
}

#[test]
fn from_jwk_rejects_garbage() {
    assert!(BaseIdentity::from_jwk("not a jwk").is_err());
    assert!(BaseIdentity::from_jwk("{\"kty\":\"EC\"}").is_err());
}

#[test]
fn delegation_expiry_is_exactly_seven_days() {
    let base = BaseIdentity::generate();
    let wire = DelegatedIdentityWire::delegate(&base, NOW_NS);
    assert_eq!(wire.delegation_chain.len(), 1);
    let delegation = &wire.delegation_chain[0].delegation;
    assert_eq!(delegation.expiration, NOW_NS + DELEGATION_EXPIRY_NS);
    assert_eq!(delegation.expiration, NOW_NS + 7 * 24 * 60 * 60 * 1_000_000_000);
    assert!(delegation.targets.is_none());
}

#[test]
fn delegation_signature_verifies_against_base_key() {
    let base = BaseIdentity::generate();
    let wire = DelegatedIdentityWire::delegate(&base, NOW_NS);
    assert_eq!(&wire.from_key, base.public_key_der());
    assert_signature_verifies(&wire);
}

#[test]
fn two_delegations_are_distinct_and_both_valid() {
    let base = BaseIdentity::generate();
    let w1 = DelegatedIdentityWire::delegate(&base, NOW_NS);
    let w2 = DelegatedIdentityWire::delegate(&base, NOW_NS + 5_000_000_000);
    // fresh randomness: distinct session keys
    assert_ne!(w1.to_secret, w2.to_secret);
    assert_ne!(
        w1.delegation_chain[0].delegation.pubkey,
        w2.delegation_chain[0].delegation.pubkey
    );
    // distinct instants: distinct expirations, so distinct bundles
    assert_ne!(
        w1.delegation_chain[0].delegation.expiration,
        w2.delegation_chain[0].delegation.expiration
    );
    assert_signature_verifies(&w1);
    assert_signature_verifies(&w2);
}

#[test]
fn session_key_differs_from_base_key() {
    let base = BaseIdentity::generate();
    let wire = DelegatedIdentityWire::delegate(&base, NOW_NS);
    // the transmitted secret is the session key, never the base key
    assert_ne!(&wire.to_secret, base.export_private_key());
}
