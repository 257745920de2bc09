//! Ed25519 signatures and BLAKE3 digests, through `ed25519-dalek` and `blake3`.
//!
//! Nothing here is proved about the cryptography itself: each outside call
//! stands behind a trusted item whose result is named by a spec function of the
//! call's arguments.
use vstd::prelude::*;
use ed25519_dalek::{Signer, Verifier};

verus! {

/// The Ed25519 public key (compressed point, 32 bytes) of the secret key `seed`.
pub uninterp spec fn ed25519_public(seed: Seq<u8>) -> Seq<u8>;

/// The Ed25519 signature (64 bytes) of `msg` under the secret key `seed`.
pub uninterp spec fn ed25519_signature(seed: Seq<u8>, msg: Seq<u8>) -> Seq<u8>;

/// Whether the 32 bytes `key` decompress to a point that `ed25519-dalek`
/// accepts as a verifying key.
pub uninterp spec fn ed25519_key_accepted(key: Seq<u8>) -> bool;

/// Whether `ed25519-dalek` accepts `key` as a verifying key and, under it,
/// accepts `sig` as a signature of `msg`.
pub uninterp spec fn ed25519_verifies(key: Seq<u8>, msg: Seq<u8>, sig: Seq<u8>) -> bool;

/// The BLAKE3 digest (32 bytes) of `data`.
pub uninterp spec fn blake3_digest(data: Seq<u8>) -> Seq<u8>;

#[verifier::external_type_specification]
#[verifier::external_body]
pub struct ExVerifyingKey(ed25519_dalek::VerifyingKey);

/// An Ed25519 verifying key together with the 32 bytes it was decoded from.
/// Only `PublicKey::from_bytes` builds one, from those same bytes.
pub struct PublicKey {
    bytes: [u8; 32],
    key: ed25519_dalek::VerifyingKey,
}

impl PublicKey {
    /// The bytes this key was decoded from.
    pub closed spec fn spec_bytes(&self) -> Seq<u8> {
        self.bytes@
    }

    /// `VerifyingKey::from_bytes`: decompresses the point, and fails exactly
    /// when `ed25519-dalek` rejects the bytes. The error is the
    /// `SignatureError` message, whose wording is not stated here.
    #[verifier::external_body]
    pub(crate) fn from_bytes(bytes: &[u8]) -> (r: Result<PublicKey, String>)
        requires
            bytes@.len() == 32,
        ensures
            r is Ok <==> ed25519_key_accepted(bytes@),
            r matches Ok(k) ==> k.spec_bytes() == bytes@,
            forall|msg: Seq<u8>, sig: Seq<u8>| #[trigger] ed25519_verifies(bytes@, msg, sig) ==> r is Ok,
    {
        let bytes: [u8; 32] = bytes.try_into().unwrap();
        match ed25519_dalek::VerifyingKey::from_bytes(&bytes) {
            Ok(key) => Ok(PublicKey { bytes, key }),
            Err(e) => Err(e.to_string()),
        }
    }

    /// `Verifier::verify` of `VerifyingKey` on the signature whose 64 bytes are
    /// `sig`: succeeds exactly when `ed25519-dalek` accepts the signature. The
    /// error is the `SignatureError` message, whose wording is not stated here.
    #[verifier::external_body]
    pub(crate) fn verify(&self, msg: &[u8], sig: &[u8]) -> (r: Result<(), String>)
        requires
            sig@.len() == 64,
        ensures
            r is Ok <==> ed25519_verifies(self.spec_bytes(), msg@, sig@),
    {
        let sig: [u8; 64] = sig.try_into().unwrap();
        match self.key.verify(msg, &ed25519_dalek::Signature::from_bytes(&sig)) {
            Ok(()) => Ok(()),
            Err(e) => Err(e.to_string()),
        }
    }
}

/// `Signer::sign` of the `SigningKey` whose secret key is `seed`, as 64 bytes.
/// As the crate documents, the signature verifies under the key's own
/// verifying key.
#[verifier::external_body]
pub(crate) fn ed25519_sign(seed: &[u8; 32], msg: &[u8]) -> (sig: Vec<u8>)
    ensures
        sig@ == ed25519_signature(seed@, msg@),
        sig@.len() == 64,
        ed25519_verifies(ed25519_public(seed@), msg@, sig@),
{
    ed25519_dalek::SigningKey::from_bytes(seed).sign(msg).to_bytes().to_vec()
}

/// `SigningKey::verifying_key` of the `SigningKey` whose secret key is `seed`,
/// as the 32 bytes `VerifyingKey::to_bytes` gives: its public key.
#[verifier::external_body]
pub(crate) fn ed25519_public_key(seed: &[u8; 32]) -> (pk: [u8; 32])
    ensures
        pk@ == ed25519_public(seed@),
{
    ed25519_dalek::SigningKey::from_bytes(seed).verifying_key().to_bytes()
}

/// `blake3::hash`, as its 32 bytes.
#[verifier::external_body]
pub(crate) fn blake3_hash(data: &[u8]) -> (digest: Vec<u8>)
    ensures
        digest@ == blake3_digest(data@),
        digest@.len() == 32,
{
    ::blake3::hash(data).as_bytes().to_vec()
}

} // verus!
