//! Scenario tests for the per-request identity lifecycle and the
//! key-value store behind it.
use delegated_auth::identity::BaseIdentity;
use delegated_auth::kv::KVStore;
use delegated_auth::metadata::UserMetadata;
use delegated_auth::resolver::{
    extract_or_generate_identity_impl, generate_and_save_identity, get_user_metadata_impl,
    set_user_metadata_impl, try_extract_identity, update_user_identity,
};
use delegated_auth::token;
use delegated_auth::{AuthError, NS_PER_MS, REFRESH_EXPIRY_MS};

const NOW_NS: u64 = 1_700_000_000_000_000_000;
const NOW_MS: u64 = NOW_NS / NS_PER_MS;

fn meta(fields: &[(&str, bool)]) -> UserMetadata {
    UserMetadata {
        entries: fields.iter().map(|(k, v)| (k.to_string(), *v)).collect(),
    }
}

#[test]
fn kv_write_then_read_roundtrips_key_material() {
    let mut kv = KVStore::new();
    let base = BaseIdentity::generate();
    kv.write(
        base.principal_text().clone(),
        base.export_private_key().clone(),
    );
    let stored = kv.read(base.principal_text()).unwrap();
    let imported = BaseIdentity::from_jwk(&stored).unwrap();
    assert_eq!(imported.principal_text(), base.principal_text());
}

#[test]
fn kv_read_missing_key_is_none() {
    let kv = KVStore::new();
    assert!(kv.read("aaaaa-aa").is_none());
}

#[test]
fn kv_last_write_wins() {
    let mut kv = KVStore::new();
    kv.write("k".to_string(), "v1".to_string());
    kv.write("k".to_string(), "v2".to_string());
    assert_eq!(kv.read("k").as_deref(), Some("v2"));
}

#[test]
fn no_cookie_generates_and_persists_one_identity() {
    let mut kv = KVStore::new();
    let (wire, cookie) = extract_or_generate_identity_impl(&mut kv, None, NOW_NS).unwrap();
    // exactly one new store entry
    assert_eq!(kv.secrets_len(), 1);
    // the refresh cookie names the principal the new entry is keyed by
    let principal = token::decode(&cookie, NOW_MS).unwrap();
    let stored = kv.read(&principal).expect("entry keyed by the cookie's principal");
    let imported = BaseIdentity::from_jwk(&stored).unwrap();
    assert_eq!(imported.principal_text().as_str(), principal);
    // and the bundle's from_key derives that same principal
    assert_eq!(
        candid::Principal::self_authenticating(&wire.from_key).to_text(),
        principal
    );
}

#[test]
fn valid_cookie_reuses_identity_without_writing() {
    let mut kv = KVStore::new();
    let (w1, c1) = extract_or_generate_identity_impl(&mut kv, None, NOW_NS).unwrap();
    assert_eq!(kv.secrets_len(), 1);
    let later = NOW_NS + 3_600_000_000_000;
    let (w2, c2) = extract_or_generate_identity_impl(&mut kv, Some(&c1), later).unwrap();
    // no new store write
    assert_eq!(kv.secrets_len(), 1);
    // the same base identity keeps signing
    assert_eq!(w1.from_key, w2.from_key);
    // the cookie is re-issued for the same principal with a fresh expiry
    let p1 = token::decode(&c1, NOW_MS).unwrap();
    let p2 = token::decode(&c2, later / NS_PER_MS).unwrap();
    assert_eq!(p1, p2);
}

#[test]
fn expired_cookie_is_treated_like_no_cookie() {
    let mut kv = KVStore::new();
    let (w1, _) = extract_or_generate_identity_impl(&mut kv, None, NOW_NS).unwrap();
    // a cookie for the stored principal whose expiry is 1 ms in the past
    let base_jwk = {
        let p = candid::Principal::self_authenticating(&w1.from_key).to_text();
        kv.read(&p).unwrap()
    };
    let principal = BaseIdentity::from_jwk(&base_jwk).unwrap();
    let stale = token::encode(principal.principal_text(), NOW_MS - 1);
    let (w2, _) = extract_or_generate_identity_impl(&mut kv, Some(&stale), NOW_NS).unwrap();
    // a second identity was generated and persisted
    assert_eq!(kv.secrets_len(), 2);
    assert_ne!(w1.from_key, w2.from_key);
}

#[test]
fn resolver_misses_on_absent_expired_or_unknown() {
    let kv = KVStore::new();
    assert!(try_extract_identity(None, &kv, NOW_MS).unwrap().is_none());
    // valid but unknown principal
    let unknown = token::encode("aaaaa-aa", NOW_MS + 10);
    assert!(try_extract_identity(Some(&unknown), &kv, NOW_MS).unwrap().is_none());
    // expired
    let expired = token::encode("aaaaa-aa", NOW_MS - 1);
    assert!(try_extract_identity(Some(&expired), &kv, NOW_MS).unwrap().is_none());
}

#[test]
fn corrupt_stored_key_is_a_loud_error() {
    let mut kv = KVStore::new();
    kv.write("aaaaa-aa".to_string(), "corrupt key material".to_string());
    let cookie = token::encode("aaaaa-aa", NOW_MS + 10);
    let err = try_extract_identity(Some(&cookie), &kv, NOW_MS).unwrap_err();
    assert_eq!(err, AuthError::KeyDecode);
    let err2 = extract_or_generate_identity_impl(&mut kv, Some(&cookie), NOW_NS).unwrap_err();
    assert_eq!(err2, AuthError::KeyDecode);
}

#[test]
fn update_user_identity_reissues_full_window_cookie() {
    let mut kv = KVStore::new();
    let base = generate_and_save_identity(&mut kv);
    let (wire, cookie) = update_user_identity(&base, NOW_NS);
    assert_eq!(
        cookie,
        token::encode(base.principal_text(), NOW_MS + REFRESH_EXPIRY_MS)
    );
    assert_eq!(&wire.from_key, base.public_key_der());
    // still decodable one millisecond before the 30-day window closes
    assert!(token::decode(&cookie, NOW_MS + REFRESH_EXPIRY_MS).is_some());
    assert!(token::decode(&cookie, NOW_MS + REFRESH_EXPIRY_MS + 1).is_none());
}

#[test]
fn metadata_roundtrips_per_principal() {
    let mut kv = KVStore::new();
    let p = BaseIdentity::generate();
    let q = BaseIdentity::generate();
    set_user_metadata_impl(
        &mut kv,
        p.principal_text().clone(),
        &meta(&[("nsfw", true)]),
    );
    assert_eq!(
        get_user_metadata_impl(&kv, p.principal_text()).unwrap(),
        Some(meta(&[("nsfw", true)]))
    );
    // an untouched principal has no metadata
    assert_eq!(get_user_metadata_impl(&kv, q.principal_text()).unwrap(), None);
}

#[test]
fn metadata_overwrite_wins() {
    let mut kv = KVStore::new();
    set_user_metadata_impl(&mut kv, "aaaaa-aa".to_string(), &meta(&[("nsfw", true)]));
    set_user_metadata_impl(&mut kv, "aaaaa-aa".to_string(), &meta(&[("nsfw", false)]));
    // each set is exactly one journal write
    assert_eq!(kv.metadata_len(), 2);
    assert_eq!(
        get_user_metadata_impl(&kv, "aaaaa-aa").unwrap(),
        Some(meta(&[("nsfw", false)]))
    );
}

#[test]
fn malformed_stored_metadata_is_a_decode_error() {
    let mut kv = KVStore::new();
    kv.write_metadata_raw("aaaaa-aa".to_string(), "{\"nsfw\":maybe}".to_string());
    let err = get_user_metadata_impl(&kv, "aaaaa-aa").unwrap_err();
    assert_eq!(err, AuthError::MetadataDecode);
}

#[test]
fn metadata_and_secrets_namespaces_are_disjoint() {
    let mut kv = KVStore::new();
    set_user_metadata_impl(&mut kv, "aaaaa-aa".to_string(), &meta(&[("nsfw", true)]));
    assert!(kv.read("aaaaa-aa").is_none());
    assert_eq!(kv.secrets_len(), 0);
    assert_eq!(kv.metadata_len(), 1);
}
