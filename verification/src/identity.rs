//! The base identity: a long-lived secp256k1 keypair representing a
//! visitor, persisted server-side and never transmitted to the client.
use crate::crypto::{
    generate_key_jwk, is_principal_text, jwk_valid, principal_of_jwk, principal_text_of_jwk,
    pubkey_of_jwk, public_key_der_of_jwk,
};
use crate::strutil::quote_free;
use crate::AuthError;
use vstd::pervasive::unreached;
use vstd::prelude::*;

verus! {

/// A visitor's long-lived keypair, carried as its exported JSON Web Key
/// together with the principal text and DER public key derived from it.
/// The secret never leaves the server; only the session key of a
/// delegation bundle is sent out.
#[derive(Debug)]
pub struct BaseIdentity {
    jwk: String,
    principal_text: String,
    public_key_der: Vec<u8>,
}

impl BaseIdentity {
    /// The exported private key.
    pub closed spec fn jwk_spec(&self) -> Seq<char> {
        self.jwk@
    }

    /// The canonical text of the derived principal.
    pub closed spec fn principal_spec(&self) -> Seq<char> {
        self.principal_text@
    }

    /// The DER-encoded public key.
    pub closed spec fn pubkey_spec(&self) -> Seq<u8> {
        self.public_key_der@
    }

    /// The fields cohere: every part is derived from the one secret key.
    pub open spec fn wf(&self) -> bool {
        &&& jwk_valid(self.jwk_spec())
        &&& self.principal_spec() == principal_of_jwk(self.jwk_spec())
        &&& is_principal_text(self.principal_spec())
        &&& quote_free(self.principal_spec())
        &&& self.pubkey_spec() == pubkey_of_jwk(self.jwk_spec())
    }

    /// Generates a fresh base identity with a cryptographically secure RNG.
    pub fn generate() -> (r: BaseIdentity)
        ensures
            r.wf(),
    {
        let jwk = generate_key_jwk();
        let principal_text = match principal_text_of_jwk(jwk.as_str()) {
            Ok(t) => t,
            Err(_) => unreached(),
        };
        let public_key_der = match public_key_der_of_jwk(jwk.as_str()) {
            Ok(k) => k,
            Err(_) => unreached(),
        };
        BaseIdentity { jwk, principal_text, public_key_der }
    }

    /// Imports the identity that exported `jwk`.  Fails exactly on key
    /// material that is not a valid secp256k1 JSON Web Key: a corrupt
    /// stored key is a data-integrity problem, not a cache miss.
    pub fn from_jwk(jwk: &str) -> (r: Result<BaseIdentity, AuthError>)
        ensures
            r matches Ok(b) ==> b.wf() && b.jwk_spec() == jwk@,
            r is Ok <==> jwk_valid(jwk@),
            r matches Err(e) ==> e == AuthError::KeyDecode,
    {
        let principal_text = match principal_text_of_jwk(jwk) {
            Ok(t) => t,
            Err(_) => {
                return Err(AuthError::KeyDecode);
            },
        };
        let public_key_der = match public_key_der_of_jwk(jwk) {
            Ok(k) => k,
            Err(_) => unreached(),
        };
        Ok(BaseIdentity { jwk: jwk.to_owned(), principal_text, public_key_der })
    }

    /// The canonical text of this identity's principal.
    pub fn principal_text(&self) -> (r: &String)
        ensures
            r@ == self.principal_spec(),
    {
        &self.principal_text
    }

    /// The private key in its interoperable exported form, for persistence.
    pub fn export_private_key(&self) -> (r: &String)
        ensures
            r@ == self.jwk_spec(),
    {
        &self.jwk
    }

    /// The DER-encoded public key.
    pub fn public_key_der(&self) -> (r: &Vec<u8>)
        ensures
            r@ == self.pubkey_spec(),
    {
        &self.public_key_der
    }
}

/// Exporting a base identity's private key and importing it again yields a
/// functionally identical signer: the same derived principal and the same
/// public key.
pub proof fn lemma_export_import_same_principal(a: BaseIdentity, b: BaseIdentity)
    requires
        a.wf(),
        b.wf(),
        a.jwk_spec() == b.jwk_spec(),
    ensures
        a.principal_spec() == b.principal_spec(),
        a.pubkey_spec() == b.pubkey_spec(),
{
}

} // verus!
