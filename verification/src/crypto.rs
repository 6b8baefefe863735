//! The cryptographic primitives the library relies on: BLAKE3 hashing,
//! unpadded base32 text and Ed25519 keys and signatures.  Each function here
//! makes one call into the crate that implements the primitive; what the
//! library states of the primitive is the contract written on that function.
use ed25519_dalek::{Signer, Verifier};
use vstd::prelude::*;

verus! {

/// The 32-byte BLAKE3 digest of `data`.
pub uninterp spec fn blake3_digest(data: Seq<u8>) -> Seq<u8>;

/// The RFC 4648 base32 text of `data`, upper case, without padding.
pub uninterp spec fn base32_nopad(data: Seq<u8>) -> Seq<char>;

/// The Ed25519 public key that belongs to the 32-byte signing secret `secret`.
pub uninterp spec fn ed25519_public_key(secret: Seq<u8>) -> Seq<u8>;

/// The deterministic Ed25519 signature that `secret` makes over `message`.
pub uninterp spec fn ed25519_signature(secret: Seq<u8>, message: Seq<u8>) -> Seq<u8>;

/// Whether the 32 bytes `public_key` decode to an Ed25519 curve point.
pub uninterp spec fn ed25519_valid_key(public_key: Seq<u8>) -> bool;

/// Whether `signature` is accepted for `message` under the Ed25519 key `public_key`.
pub uninterp spec fn ed25519_verifies(public_key: Seq<u8>, message: Seq<u8>, signature: Seq<u8>) -> bool;

/// `blake3::Hasher`, BLAKE3's incremental state.
#[verifier::external_type_specification]
#[verifier::external_body]
pub struct ExBlake3Hasher(blake3::Hasher);

/// The bytes a BLAKE3 hasher has absorbed, in order.
pub uninterp spec fn blake3_absorbed(hasher: blake3::Hasher) -> Seq<u8>;

/// `blake3::Hasher::new`: a hasher that has absorbed nothing.
#[verifier::external_body]
pub(crate) fn blake3_hasher_new() -> (hasher: blake3::Hasher)
    ensures
        blake3_absorbed(hasher) == Seq::<u8>::empty(),
{
    blake3::Hasher::new()
}

/// `blake3::Hasher::update`: the hasher goes on to absorb `data` after what
/// it held.
#[verifier::external_body]
pub(crate) fn blake3_hasher_update(hasher: &mut blake3::Hasher, data: &[u8])
    ensures
        blake3_absorbed(*final(hasher)) == blake3_absorbed(*old(hasher)) + data@,
{
    hasher.update(data);
}

/// `blake3::Hasher::finalize`: the digest of everything absorbed, the same
/// as `blake3::hash` of those bytes in one piece.  (It asserts that the
/// hasher was not given an input offset through blake3's `hazmat` API; the
/// hashers here are only ever made by `blake3_hasher_new`.)
#[verifier::external_body]
pub(crate) fn blake3_hasher_finalize(hasher: &blake3::Hasher) -> (digest: [u8; 32])
    ensures
        digest@ == blake3_digest(blake3_absorbed(*hasher)),
{
    *hasher.finalize().as_bytes()
}

/// `blake3::hash`: the digest is a function of the input bytes alone.
#[verifier::external_body]
pub(crate) fn blake3_hash(data: &[u8]) -> (digest: [u8; 32])
    ensures
        digest@ == blake3_digest(data@),
{
    *blake3::hash(data).as_bytes()
}

/// `data_encoding::BASE32_NOPAD.encode`: the text is a function of the input bytes alone.
#[verifier::external_body]
pub(crate) fn base32_encode(data: &[u8]) -> (text: String)
    ensures
        text@ == base32_nopad(data@),
{
    data_encoding::BASE32_NOPAD.encode(data)
}

/// `SigningKey::from_bytes(..).verifying_key().to_bytes()`: the public key of a
/// secret, which is always a decodable curve point.
#[verifier::external_body]
pub(crate) fn ed25519_public_key_of(secret: &[u8; 32]) -> (public_key: [u8; 32])
    ensures
        public_key@ == ed25519_public_key(secret@),
        ed25519_valid_key(public_key@),
{
    ed25519_dalek::SigningKey::from_bytes(secret).verifying_key().to_bytes()
}

/// `SigningKey::sign`: Ed25519 signing is deterministic, and the signature it
/// makes is accepted under the secret's own public key.
#[verifier::external_body]
pub(crate) fn ed25519_sign(secret: &[u8; 32], message: &[u8]) -> (signature: [u8; 64])
    ensures
        signature@ == ed25519_signature(secret@, message@),
        ed25519_verifies(ed25519_public_key(secret@), message@, signature@),
{
    ed25519_dalek::SigningKey::from_bytes(secret).sign(message).to_bytes()
}

/// `VerifyingKey::from_bytes(..).is_ok()`.
#[verifier::external_body]
pub(crate) fn ed25519_key_is_valid(public_key: &[u8; 32]) -> (valid: bool)
    ensures
        valid == ed25519_valid_key(public_key@),
{
    ed25519_dalek::VerifyingKey::from_bytes(public_key).is_ok()
}

/// `Verifier::verify` of a decoded `VerifyingKey`; a key that does not decode
/// accepts nothing.
#[verifier::external_body]
pub(crate) fn ed25519_verify(public_key: &[u8; 32], message: &[u8], signature: &[u8; 64]) -> (accepted: bool)
    ensures
        accepted == (ed25519_valid_key(public_key@) && ed25519_verifies(public_key@, message@, signature@)),
{
    match ed25519_dalek::VerifyingKey::from_bytes(public_key) {
        Ok(key) => key.verify(message, &ed25519_dalek::Signature::from_bytes(signature)).is_ok(),
        Err(_) => false,
    }
}

/// `RngCore::try_fill_bytes` on `OsRng`: 32 bytes from the operating system's
/// random source, the draw that `SigningKey::generate` makes for a secret.
/// `None` when the source reports an error; nothing is known of the bytes.
#[verifier::external_body]
pub(crate) fn random_signing_secret() -> (secret: Option<[u8; 32]>) {
    let mut bytes = [0u8; 32];
    match rand_core::RngCore::try_fill_bytes(&mut rand_core::OsRng, &mut bytes) {
        Ok(()) => Some(bytes),
        Err(_) => None,
    }
}

/// The 32-byte array holding the digest `d`.
#[verifier::opaque]
pub open spec fn digest_array(d: Seq<u8>) -> [u8; 32] {
    choose|a: [u8; 32]| a@ == d
}

/// The BLAKE3 digest of a stream of bytes, built up piece by piece.  Its
/// view is the bytes absorbed so far.
pub struct StreamDigest {
    hasher: blake3::Hasher,
}

impl View for StreamDigest {
    type V = Seq<u8>;

    closed spec fn view(&self) -> Seq<u8> {
        blake3_absorbed(self.hasher)
    }
}

impl StreamDigest {
    /// A digest of nothing yet.
    pub fn new() -> (d: Self)
        ensures
            d@ == Seq::<u8>::empty(),
    {
        StreamDigest { hasher: blake3_hasher_new() }
    }

    /// Goes on with `data` after what was absorbed.
    pub fn absorb(&mut self, data: &[u8])
        ensures
            final(self)@ == old(self)@ + data@,
    {
        blake3_hasher_update(&mut self.hasher, data);
    }

    /// The BLAKE3 digest of everything absorbed.
    pub fn digest(&self) -> (d: [u8; 32])
        ensures
            d@ == blake3_digest(self@),
    {
        blake3_hasher_finalize(&self.hasher)
    }
}

} // verus!
