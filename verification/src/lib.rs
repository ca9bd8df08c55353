//! Delegated-identity lifecycle for anonymous web visitors.
//!
//! A long-lived *base identity* (a secp256k1 keypair bound to a stable
//! principal) is persisted server-side in a key-value store; each request
//! derives an ephemeral *session identity* that receives time-boxed signing
//! authority through a signed delegation chain.  A signed refresh-token
//! cookie ties a browser session back to its principal across requests.
use vstd::prelude::*;

pub mod crypto;
pub mod delegation;
pub mod digits;
pub mod identity;
pub mod kv;
pub mod metadata;
pub mod resolver;
pub mod strutil;
pub mod token;

verus! {

/// Failures surfaced by the identity subsystem.
///
/// A missing or expired refresh token is *not* an error: it is a normal
/// branch that triggers regeneration of a base identity.
#[derive(Clone, Copy, Debug, PartialEq, Eq, Structural)]
pub enum AuthError {
    /// Stored key material could not be parsed back into a secret key.
    KeyDecode,
    /// The base identity could not produce a signature.
    Signing,
    /// Stored metadata is not valid JSON of the expected shape.
    MetadataDecode,
}

/// Lifetime of a signed delegation: 7 days, in nanoseconds.
pub const DELEGATION_EXPIRY_NS: u64 = 604_800_000_000_000;

/// Lifetime of a refresh token: 30 days, in milliseconds.
pub const REFRESH_EXPIRY_MS: u64 = 2_592_000_000;

/// Nanoseconds in a millisecond.
pub const NS_PER_MS: u64 = 1_000_000;

/// Name of the cookie that carries the signed refresh token.
pub const REFRESH_TOKEN_COOKIE: &'static str = "user-identity";

} // verus!
