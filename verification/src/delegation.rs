//! Session delegation: minting an ephemeral keypair and granting it
//! time-boxed signing authority from a base identity.
use crate::crypto::{
    generate_key_jwk, jwk_valid, pubkey_of_jwk, public_key_der_of_jwk, sign_delegation_jwk,
};
use crate::identity::BaseIdentity;
use crate::DELEGATION_EXPIRY_NS;
use vstd::pervasive::unreached;
use vstd::prelude::*;

verus! {

/// A time-boxed grant of signing authority to a session key.  `targets`
/// is a restriction list of principal texts; `None` means the delegation
/// is valid against any target.
#[derive(Clone, Debug)]
pub struct Delegation {
    /// DER-encoded public key of the delegated-to session identity.
    pub pubkey: Vec<u8>,
    /// Absolute expiration, nanoseconds since the epoch.  Strictly in the
    /// future at signing time.
    pub expiration: u64,
    /// Optional target restriction, by principal text.
    pub targets: Option<Vec<String>>,
}

/// A delegation together with the signature the delegating identity
/// produced over it.
#[derive(Clone, Debug)]
pub struct SignedDelegation {
    pub delegation: Delegation,
    pub signature: Vec<u8>,
}

/// The bundle transmitted to the client: the base identity's public key,
/// the *session* identity's exported private key — never the base key —
/// and the delegation chain that ties them together.
#[derive(Clone, Debug)]
pub struct DelegatedIdentityWire {
    /// DER-encoded public key of the delegating base identity.
    pub from_key: Vec<u8>,
    /// The session private key, as a JSON Web Key string.
    pub to_secret: String,
    /// The signed delegations establishing the session's authority.
    pub delegation_chain: Vec<SignedDelegation>,
}

impl DelegatedIdentityWire {
    /// What `delegate` guarantees of a bundle minted from the identity
    /// whose exported key is `base_jwk` at instant `now_epoch_ns`.
    pub open spec fn wf_for(&self, base_jwk: Seq<char>, now_epoch_ns: u64) -> bool {
        &&& self.from_key@ == pubkey_of_jwk(base_jwk)
        &&& jwk_valid(self.to_secret@)
        &&& self.delegation_chain@.len() == 1
        &&& self.delegation_chain@[0].delegation.pubkey@ == pubkey_of_jwk(self.to_secret@)
        &&& self.delegation_chain@[0].delegation.expiration == now_epoch_ns + DELEGATION_EXPIRY_NS
        &&& self.delegation_chain@[0].delegation.targets is None
        &&& self.delegation_chain@[0].signature@.len() == 64
    }

    /// Mints a fresh session keypair and packages a delegation to it,
    /// signed by `from` and expiring exactly `DELEGATION_EXPIRY_NS` after
    /// `now_epoch_ns`.
    pub fn delegate(from: &BaseIdentity, now_epoch_ns: u64) -> (r: DelegatedIdentityWire)
        requires
            from.wf(),
            now_epoch_ns + DELEGATION_EXPIRY_NS <= u64::MAX,
        ensures
            r.wf_for(from.jwk_spec(), now_epoch_ns),
    {
        let session_jwk = generate_key_jwk();
        let session_pub = match public_key_der_of_jwk(session_jwk.as_str()) {
            Ok(k) => k,
            Err(_) => unreached(),
        };
        let expiration = now_epoch_ns + DELEGATION_EXPIRY_NS;
        let signature = match sign_delegation_jwk(
            from.export_private_key().as_str(),
            &session_pub,
            expiration,
        ) {
            Ok(sg) => sg,
            Err(_) => unreached(),
        };
        let delegation = Delegation { pubkey: session_pub, expiration, targets: None };
        let chain = vec![SignedDelegation { delegation, signature }];
        DelegatedIdentityWire { from_key: copy_bytes(from.public_key_der()), to_secret: session_jwk, delegation_chain: chain }
    }
}

/// A verified byte-for-byte copy.
fn copy_bytes(v: &Vec<u8>) -> (r: Vec<u8>)
    ensures
        r@ == v@,
{
    let mut r: Vec<u8> = Vec::new();
    let mut i: usize = 0;
    while i < v.len()
        invariant
            0 <= i <= v@.len(),
            r@ == v@.subrange(0, i as int),
        decreases v@.len() - i,
    {
        r.push(v[i]);
        proof {
            assert(r@ =~= v@.subrange(0, i as int + 1));
        }
        i = i + 1;
    }
    proof {
        assert(r@ =~= v@);
    }
    r
}

/// Bundles minted from the same base identity at different instants are
/// distinct: their delegations expire at different instants, whatever the
/// randomly drawn session keys were.
pub proof fn lemma_wires_distinct(
    w1: DelegatedIdentityWire,
    w2: DelegatedIdentityWire,
    base_jwk: Seq<char>,
    t1: u64,
    t2: u64,
)
    requires
        w1.wf_for(base_jwk, t1),
        w2.wf_for(base_jwk, t2),
        t1 != t2,
        t1 + DELEGATION_EXPIRY_NS <= u64::MAX,
        t2 + DELEGATION_EXPIRY_NS <= u64::MAX,
    ensures
        w1.delegation_chain@[0].delegation.expiration
            != w2.delegation_chain@[0].delegation.expiration,
        w1.delegation_chain@ != w2.delegation_chain@,
{
    assert(w1.delegation_chain@[0].delegation.expiration == t1 + DELEGATION_EXPIRY_NS);
    assert(w2.delegation_chain@[0].delegation.expiration == t2 + DELEGATION_EXPIRY_NS);
}

} // verus!
