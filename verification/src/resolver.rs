//! Identity resolution and the per-request composition root.
//!
//! Resolution collapses "no cookie", "expired cookie" and "cookie present
//! but no stored key" into one miss, so a caller branches on exactly two
//! cases: recovered, or must generate.  Storage corruption — a stored key
//! that does not parse — is surfaced loudly instead.
use crate::crypto::{jwk_valid, principal_of_jwk};
use crate::delegation::DelegatedIdentityWire;
use crate::identity::BaseIdentity;
use crate::kv::KVStore;
use crate::metadata::{encode_meta_spec, spec_decode_meta, UserMetadata};
use crate::token;
use crate::{AuthError, DELEGATION_EXPIRY_NS, NS_PER_MS, REFRESH_EXPIRY_MS};
use vstd::prelude::*;

verus! {

/// The view of an optional cookie value.
pub open spec fn cookie_view(cookie: Option<&str>) -> Option<Seq<char>> {
    match cookie {
        Some(s) => Some(s@),
        None => None,
    }
}

/// The principal named by a decodable, unexpired refresh-token cookie.
pub open spec fn spec_cookie_principal(cookie: Option<Seq<char>>, now_ms: u64) -> Option<
    Seq<char>,
> {
    match cookie {
        Some(s) => token::spec_decode(s, now_ms),
        None => None,
    }
}

/// The stored key material resolution reaches: what the store holds under
/// the principal a valid cookie names, if both exist.
pub open spec fn spec_resolved_jwk(
    cookie: Option<Seq<char>>,
    kv: &KVStore,
    now_ms: u64,
) -> Option<Seq<char>> {
    match spec_cookie_principal(cookie, now_ms) {
        Some(p) => kv.secret_at(p),
        None => None,
    }
}

/// The store's secret-key namespace is consistent: every journal entry is
/// a valid exported key, keyed by the canonical principal of that very
/// key.  The library's own writes keep it (they only file a key under its
/// own principal), so under it a cookie hit returns exactly the principal
/// the store was indexed by.
pub open spec fn store_consistent(kv: &KVStore) -> bool {
    forall|t: int|
        0 <= t < kv.secrets_log().len() ==> (#[trigger] kv.secrets_log()[t]).0@
            == principal_of_jwk(kv.secrets_log()[t].1@) && jwk_valid(kv.secrets_log()[t].1@)
}

/// In a consistent store, a present binding's key is its value's own
/// principal, and the value is a valid key.
pub proof fn lemma_consistent_binding(kv: &KVStore, p: Seq<char>)
    requires
        store_consistent(kv),
        kv.secret_at(p) is Some,
    ensures
        p == principal_of_jwk(kv.secret_at(p)->Some_0),
        jwk_valid(kv.secret_at(p)->Some_0),
{
    crate::kv::lemma_secret_at_entry(kv, p);
    let t = choose|t: int|
        0 <= t < kv.secrets_log().len() && (#[trigger] kv.secrets_log()[t]).0@ == p
            && kv.secrets_log()[t].1@ == kv.secret_at(p)->Some_0;
    assert(kv.secrets_log()[t].0@ == principal_of_jwk(kv.secrets_log()[t].1@));
}

/// Recovers the base identity a request's refresh-token cookie points at:
/// `Ok(None)` on a missing, expired or malformed cookie and on a store
/// miss; an error only when the stored key material is corrupt — which a
/// consistent store never holds.
pub fn try_extract_identity(cookie_value: Option<&str>, kv: &KVStore, now_ms: u64) -> (r:
    Result<Option<BaseIdentity>, AuthError>)
    ensures
        ({
            let stored = spec_resolved_jwk(cookie_view(cookie_value), kv, now_ms);
            match r {
                Ok(Some(b)) => b.wf() && stored == Some(b.jwk_spec()),
                Ok(None) => stored is None,
                Err(e) => e == AuthError::KeyDecode && (stored matches Some(j)
                    && !jwk_valid(j)),
            }
        }),
        store_consistent(kv) ==> !(r is Err),
        r matches Ok(Some(b)) ==> (store_consistent(kv) ==> spec_cookie_principal(
            cookie_view(cookie_value),
            now_ms,
        ) == Some(b.principal_spec())),
{
    let cv = match cookie_value {
        Some(s) => s,
        None => {
            return Ok(None);
        },
    };
    let principal = match token::decode(cv, now_ms) {
        Some(p) => p,
        None => {
            return Ok(None);
        },
    };
    let stored = match kv.read(principal.as_str()) {
        Some(s) => s,
        None => {
            return Ok(None);
        },
    };
    match BaseIdentity::from_jwk(stored.as_str()) {
        Ok(b) => {
            proof {
                if store_consistent(kv) {
                    lemma_consistent_binding(kv, principal@);
                }
            }
            Ok(Some(b))
        },
        Err(_) => {
            proof {
                if store_consistent(kv) {
                    lemma_consistent_binding(kv, principal@);
                }
            }
            Err(AuthError::KeyDecode)
        },
    }
}

/// Generates a new base identity and persists its exported key under its
/// principal's text: exactly one new entry in the secret-key namespace.
pub fn generate_and_save_identity(kv: &mut KVStore) -> (r: BaseIdentity)
    ensures
        r.wf(),
        final(kv).metadata_log() == old(kv).metadata_log(),
        final(kv).secrets_log().len() == old(kv).secrets_log().len() + 1,
        final(kv).secrets_log().drop_last() == old(kv).secrets_log(),
        final(kv).secrets_log().last().0@ == r.principal_spec(),
        final(kv).secrets_log().last().1@ == r.jwk_spec(),
        final(kv).secret_at(r.principal_spec()) == Some(r.jwk_spec()),
        forall|k2: Seq<char>| k2 != r.principal_spec() ==> final(kv).secret_at(k2) == old(
            kv,
        ).secret_at(k2),
        store_consistent(old(kv)) ==> store_consistent(final(kv)),
{
    let base = BaseIdentity::generate();
    let key = base.principal_text().clone();
    let value = base.export_private_key().clone();
    kv.write(key, value);
    proof {
        assert(kv.secrets_log().drop_last() =~= old(kv).secrets_log());
        if store_consistent(old(kv)) {
            assert forall|t: int| 0 <= t < kv.secrets_log().len() implies (
            #[trigger] kv.secrets_log()[t]).0@ == principal_of_jwk(kv.secrets_log()[t].1@)
                && jwk_valid(kv.secrets_log()[t].1@) by {
                if t < kv.secrets_log().len() - 1 {
                    assert(kv.secrets_log()[t] == old(kv).secrets_log()[t]);
                }
            }
        }
    }
    base
}

/// Computes a fresh refresh-token cookie value for `identity` — expiring
/// `REFRESH_EXPIRY_MS` after now, fully replacing any earlier token — and
/// mints a delegation bundle.  The caller attaches the returned value to
/// the outbound response as the `REFRESH_TOKEN_COOKIE` cookie.
pub fn update_user_identity(identity: &BaseIdentity, now_epoch_ns: u64) -> (r: (
    DelegatedIdentityWire,
    String,
))
    requires
        identity.wf(),
        now_epoch_ns + DELEGATION_EXPIRY_NS <= u64::MAX,
    ensures
        r.0.wf_for(identity.jwk_spec(), now_epoch_ns),
        r.1@ == token::encode_spec(
            identity.principal_spec(),
            (now_epoch_ns / NS_PER_MS + REFRESH_EXPIRY_MS) as u64,
        ),
{
    proof {
        vstd::arithmetic::div_mod::lemma_div_is_ordered(
            now_epoch_ns as int,
            u64::MAX as int,
            NS_PER_MS as int,
        );
    }
    let now_ms = now_epoch_ns / NS_PER_MS;
    let expiry = now_ms + REFRESH_EXPIRY_MS;
    let cookie_value = token::encode(identity.principal_text().as_str(), expiry);
    let wire = DelegatedIdentityWire::delegate(identity, now_epoch_ns);
    (wire, cookie_value)
}

/// The composition root, run once per request: recover the base identity
/// the cookie points at, or generate and persist a new one; then re-issue
/// the refresh cookie and delegate to a fresh session identity.
///
/// On a hit the store is left untouched; on a miss exactly one entry is
/// added, keyed by the new identity's principal.  The secret-key namespace
/// is the only one touched.
pub fn extract_or_generate_identity_impl(
    kv: &mut KVStore,
    cookie_value: Option<&str>,
    now_epoch_ns: u64,
) -> (r: Result<(DelegatedIdentityWire, String), AuthError>)
    requires
        now_epoch_ns + DELEGATION_EXPIRY_NS <= u64::MAX,
    ensures
        final(kv).metadata_log() == old(kv).metadata_log(),
        store_consistent(old(kv)) ==> store_consistent(final(kv)),
        store_consistent(old(kv)) ==> !(r is Err),
        ({
            let now_ms = (now_epoch_ns / NS_PER_MS) as u64;
            let expiry = (now_epoch_ns / NS_PER_MS + REFRESH_EXPIRY_MS) as u64;
            let stored = spec_resolved_jwk(cookie_view(cookie_value), old(kv), now_ms);
            match r {
                Ok(out) => match stored {
                    Some(jwk) => {
                        &&& *final(kv) == *old(kv)
                        &&& jwk_valid(jwk)
                        &&& out.0.wf_for(jwk, now_epoch_ns)
                        &&& out.1@ == token::encode_spec(principal_of_jwk(jwk), expiry)
                        &&& (store_consistent(old(kv)) ==> spec_cookie_principal(
                            cookie_view(cookie_value),
                            now_ms,
                        ) == Some(principal_of_jwk(jwk)) && final(kv).secret_at(
                            principal_of_jwk(jwk),
                        ) == Some(jwk))
                    },
                    None => {
                        &&& final(kv).secrets_log().len() == old(kv).secrets_log().len() + 1
                        &&& final(kv).secrets_log().drop_last() == old(kv).secrets_log()
                        &&& jwk_valid(final(kv).secrets_log().last().1@)
                        &&& final(kv).secrets_log().last().0@ == principal_of_jwk(
                            final(kv).secrets_log().last().1@,
                        )
                        &&& final(kv).secret_at(final(kv).secrets_log().last().0@) == Some(
                            final(kv).secrets_log().last().1@,
                        )
                        &&& (forall|k2: Seq<char>|
                            k2 != final(kv).secrets_log().last().0@ ==> final(kv).secret_at(k2)
                                == old(kv).secret_at(k2))
                        &&& out.0.wf_for(final(kv).secrets_log().last().1@, now_epoch_ns)
                        &&& out.1@ == token::encode_spec(
                            final(kv).secrets_log().last().0@,
                            expiry,
                        )
                    },
                },
                Err(e) => e == AuthError::KeyDecode && *final(kv) == *old(kv) && (
                stored matches Some(j) && !jwk_valid(j)),
            }
        }),
{
    let now_ms = now_epoch_ns / NS_PER_MS;
    let base = match try_extract_identity(cookie_value, kv, now_ms) {
        Ok(Some(b)) => b,
        Ok(None) => generate_and_save_identity(kv),
        Err(e) => {
            return Err(e);
        },
    };
    Ok(update_user_identity(&base, now_epoch_ns))
}

/// Round trip through the store: key material persisted under a
/// principal and read back imports to an identity with that same derived
/// principal and public key.  `a` is the identity that was persisted
/// (`KVStore::write` left its exported key under its principal), `b` any
/// identity imported from what the store returns for that principal.
pub proof fn lemma_store_roundtrip_same_principal(kv: KVStore, a: BaseIdentity, b: BaseIdentity)
    requires
        a.wf(),
        b.wf(),
        kv.secret_at(a.principal_spec()) == Some(a.jwk_spec()),
        kv.secret_at(a.principal_spec()) == Some(b.jwk_spec()),
    ensures
        b.principal_spec() == a.principal_spec(),
        b.pubkey_spec() == a.pubkey_spec(),
{
    crate::identity::lemma_export_import_same_principal(a, b);
}

/// Overwrites the metadata document stored for `principal_text`.
///
/// Deliberately unauthenticated here: a caller must first verify a
/// delegation proving control of `principal_text` before accepting a
/// write on a visitor's behalf.
pub fn set_user_metadata_impl(kv: &mut KVStore, principal_text: String, metadata: &UserMetadata)
    ensures
        final(kv).secrets_log() == old(kv).secrets_log(),
        final(kv).metadata_log().len() == old(kv).metadata_log().len() + 1,
        final(kv).metadata_log().drop_last() == old(kv).metadata_log(),
        final(kv).metadata_log().last().0@ == principal_text@,
        final(kv).metadata_log().last().1@ == encode_meta_spec(metadata.view_entries()),
        final(kv).metadata_at(principal_text@) == Some(encode_meta_spec(metadata.view_entries())),
        forall|k2: Seq<char>| k2 != principal_text@ ==> final(kv).metadata_at(k2) == old(
            kv,
        ).metadata_at(k2),
{
    kv.write_json_metadata(principal_text, metadata);
}

/// Reads the metadata document stored for `principal_text`: `Ok(None)`
/// for a principal nothing was stored for.
pub fn get_user_metadata_impl(kv: &KVStore, principal_text: &str) -> (r: Result<
    Option<UserMetadata>,
    AuthError,
>)
    ensures
        match r {
            Ok(Some(m)) => kv.metadata_at(principal_text@) matches Some(t)
                && spec_decode_meta(t) == Some(m.view_entries()),
            Ok(None) => kv.metadata_at(principal_text@) is None,
            Err(e) => e == AuthError::MetadataDecode && (kv.metadata_at(principal_text@)
                matches Some(t) && spec_decode_meta(t) is None),
        },
{
    kv.read_json_metadata(principal_text)
}

} // verus!
