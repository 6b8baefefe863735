//! Device identity and pairing cryptography, protocol version 1: device IDs,
//! the canonical pairing transcript, mutual Ed25519 proofs, the six-digit
//! short authentication string, and the pairing confirmation state machine.
use crate::bytes::{be_u16, be_u32, lex_less, push_be_u16, push_be_u32, push_bytes, bytes_less, bytes_equal, u32_of_be};
use crate::crypto::{
    base32_encode, base32_nopad, blake3_digest, blake3_hash, ed25519_key_is_valid,
    ed25519_public_key, ed25519_public_key_of, ed25519_sign, ed25519_signature, ed25519_valid_key,
    ed25519_verifies, ed25519_verify, random_signing_secret,
};
use vstd::prelude::*;
use vstd::utf8::encode_utf8;

verus! {

pub const PAIRING_PROTOCOL_VERSION: u16 = 1;

/// `b"fileporter/device-id/v1"`.
pub open spec fn id_domain() -> Seq<u8> {
    seq![102u8, 105, 108, 101, 112, 111, 114, 116, 101, 114, 47, 100, 101, 118, 105, 99, 101, 45, 105, 100, 47, 118, 49]
}

/// `b"fileporter/pairing-signature/v1"`.
pub open spec fn signing_domain() -> Seq<u8> {
    seq![102u8, 105, 108, 101, 112, 111, 114, 116, 101, 114, 47, 112, 97, 105, 114, 105, 110, 103, 45, 115, 105, 103, 110, 97, 116, 117, 114, 101, 47, 118, 49]
}

/// `b"fileporter/pairing-sas/v1"`.
pub open spec fn sas_domain() -> Seq<u8> {
    seq![102u8, 105, 108, 101, 112, 111, 114, 116, 101, 114, 47, 112, 97, 105, 114, 105, 110, 103, 45, 115, 97, 115, 47, 118, 49]
}

/// `b"fileporter/pairing-transcript/v1"`.
pub open spec fn transcript_domain() -> Seq<u8> {
    seq![102u8, 105, 108, 101, 112, 111, 114, 116, 101, 114, 47, 112, 97, 105, 114, 105, 110, 103, 45, 116, 114, 97, 110, 115, 99, 114, 105, 112, 116, 47, 118, 49]
}

fn id_domain_bytes() -> (v: Vec<u8>)
    ensures
        v@ == id_domain(),
{
    let v = vec![102u8, 105, 108, 101, 112, 111, 114, 116, 101, 114, 47, 100, 101, 118, 105, 99, 101, 45, 105, 100, 47, 118, 49];
    assert(v@ =~= id_domain());
    v
}

pub(crate) fn signing_domain_bytes() -> (v: Vec<u8>)
    ensures
        v@ == signing_domain(),
{
    let v = vec![102u8, 105, 108, 101, 112, 111, 114, 116, 101, 114, 47, 112, 97, 105, 114, 105, 110, 103, 45, 115, 105, 103, 110, 97, 116, 117, 114, 101, 47, 118, 49];
    assert(v@ =~= signing_domain());
    v
}

fn sas_domain_bytes() -> (v: Vec<u8>)
    ensures
        v@ == sas_domain(),
{
    let v = vec![102u8, 105, 108, 101, 112, 111, 114, 116, 101, 114, 47, 112, 97, 105, 114, 105, 110, 103, 45, 115, 97, 115, 47, 118, 49];
    assert(v@ =~= sas_domain());
    v
}

fn transcript_domain_bytes() -> (v: Vec<u8>)
    ensures
        v@ == transcript_domain(),
{
    let v = vec![102u8, 105, 108, 101, 112, 111, 114, 116, 101, 114, 47, 112, 97, 105, 114, 105, 110, 103, 45, 116, 114, 97, 110, 115, 99, 114, 105, 112, 116, 47, 118, 49];
    assert(v@ =~= transcript_domain());
    v
}

/// The device ID of a public key: unpadded base32 of the BLAKE3 digest of the
/// ID domain followed by the key.
pub open spec fn device_id_of(public_key: Seq<u8>) -> Seq<char> {
    base32_nopad(blake3_digest(id_domain() + public_key))
}

/// A message bound to a signing domain: the domain's length as a big-endian
/// `u32`, the domain, then the message.
pub open spec fn domain_message_of(domain: Seq<u8>, message: Seq<u8>) -> Seq<u8> {
    be_u32(domain.len() as u32) + domain + message
}

pub fn domain_message(domain: &[u8], message: &[u8]) -> (bytes: Vec<u8>)
    ensures
        bytes@ == domain_message_of(domain@, message@),
{
    let mut bytes: Vec<u8> = Vec::new();
    push_be_u32(&mut bytes, domain.len() as u32);
    push_bytes(&mut bytes, domain);
    push_bytes(&mut bytes, message);
    assert(bytes@ =~= domain_message_of(domain@, message@));
    bytes
}

/// The device ID of a 32-byte Ed25519 public key.
pub fn device_id_for_public_key(public_key: &[u8; 32]) -> (id: String)
    ensures
        id@ == device_id_of(public_key@),
{
    let mut input = id_domain_bytes();
    push_bytes(&mut input, public_key);
    let digest = blake3_hash(input.as_slice());
    base32_encode(&digest)
}

/// A device's long-term Ed25519 signing secret.
#[derive(Clone)]
pub struct DeviceIdentity {
    secret: [u8; 32],
}

impl View for DeviceIdentity {
    type V = Seq<u8>;

    closed spec fn view(&self) -> Seq<u8> {
        self.secret@
    }
}

impl DeviceIdentity {
    /// A fresh identity from the operating system's random source, or `None`
    /// when that source cannot be read.
    pub fn generate() -> (identity: Option<Self>) {
        match random_signing_secret() {
            Some(secret) => Some(DeviceIdentity { secret }),
            None => None,
        }
    }

    pub fn from_secret_bytes(secret: [u8; 32]) -> (identity: Self)
        ensures
            identity@ == secret@,
    {
        DeviceIdentity { secret }
    }

    pub fn export_secret_bytes(&self) -> (secret: [u8; 32])
        ensures
            secret@ == self@,
    {
        self.secret
    }

    pub fn public_identity(&self) -> (public: DevicePublicIdentity)
        ensures
            public.public_key@ == ed25519_public_key(self@),
            ed25519_valid_key(public.public_key@),
    {
        DevicePublicIdentity { public_key: ed25519_public_key_of(&self.secret) }
    }

    /// Signs `message` bound to `domain`.
    pub fn sign_domain_separated(&self, domain: &[u8], message: &[u8]) -> (signature: [u8; 64])
        ensures
            signature@ == ed25519_signature(self@, domain_message_of(domain@, message@)),
            ed25519_verifies(
                ed25519_public_key(self@),
                domain_message_of(domain@, message@),
                signature@,
            ),
    {
        let bytes = domain_message(domain, message);
        ed25519_sign(&self.secret, bytes.as_slice())
    }

    /// This identity's proof over the canonical bytes of `transcript`.
    pub fn sign_pairing_transcript(&self, transcript: &PairingTranscript) -> (proof: PairingProof)
        ensures
            proof.public_key@ == ed25519_public_key(self@),
            proof.signature@ == ed25519_signature(self@, proof_message(*transcript)),
            ed25519_valid_key(proof.public_key@),
            ed25519_verifies(proof.public_key@, proof_message(*transcript), proof.signature@),
    {
        let public_key = self.public_identity().public_key;
        let domain = signing_domain_bytes();
        let bytes = transcript.canonical_bytes();
        let signature = self.sign_domain_separated(domain.as_slice(), bytes.as_slice());
        PairingProof { public_key, signature }
    }
}

/// A device's public Ed25519 key.
#[derive(Debug, Clone, PartialEq, Eq, Hash)]
pub struct DevicePublicIdentity {
    pub public_key: [u8; 32],
}

impl DevicePublicIdentity {
    /// Accepts only keys that decode to an Ed25519 point.
    pub fn from_public_key(public_key: [u8; 32]) -> (result: Result<Self, IdentityError>)
        ensures
            match result {
                Ok(identity) => ed25519_valid_key(public_key@) && identity.public_key == public_key,
                Err(e) => !ed25519_valid_key(public_key@) && e == IdentityError::InvalidPublicKey,
            },
    {
        if ed25519_key_is_valid(&public_key) {
            Ok(DevicePublicIdentity { public_key })
        } else {
            Err(IdentityError::InvalidPublicKey)
        }
    }

    pub fn device_id(&self) -> (id: String)
        ensures
            id@ == device_id_of(self.public_key@),
    {
        device_id_for_public_key(&self.public_key)
    }

    /// Checks `signature` over `message` bound to `domain`.
    pub fn verify_domain_separated(&self, domain: &[u8], message: &[u8], signature: &[u8; 64]) -> (result: Result<(), IdentityError>)
        ensures
            result == verification_result(
                self.public_key@,
                domain_message_of(domain@, message@),
                signature@,
            ),
    {
        if !ed25519_key_is_valid(&self.public_key) {
            return Err(IdentityError::InvalidPublicKey);
        }
        let bytes = domain_message(domain, message);
        if ed25519_verify(&self.public_key, bytes.as_slice(), signature) {
            Ok(())
        } else {
            Err(IdentityError::InvalidSignature)
        }
    }
}

/// What checking `signature` over `message` under `public_key` reports.
pub open spec fn verification_result(public_key: Seq<u8>, message: Seq<u8>, signature: Seq<u8>) -> Result<(), IdentityError> {
    if !ed25519_valid_key(public_key) {
        Err(IdentityError::InvalidPublicKey)
    } else if !ed25519_verifies(public_key, message, signature) {
        Err(IdentityError::InvalidSignature)
    } else {
        Ok(())
    }
}

#[derive(Debug, Clone, Copy, PartialEq, Eq, Structural)]
pub enum IdentityError {
    InvalidPublicKey,
    InvalidSignature,
    DeviceIdMismatch,
    DuplicateParticipant,
    UnknownProofSigner,
    IncompleteProofs,
}

/// The text of each `IdentityError`.
pub open spec fn identity_error_text(value: IdentityError) -> &'static str {
    match value {
        IdentityError::InvalidPublicKey => "invalid Ed25519 public key",
        IdentityError::InvalidSignature => "signature verification failed",
        IdentityError::DeviceIdMismatch => "participant device ID does not match public key",
        IdentityError::DuplicateParticipant => "duplicate pairing participant",
        IdentityError::UnknownProofSigner => "pairing proof belongs to an unknown participant",
        IdentityError::IncompleteProofs => "pairing proofs are incomplete",
    }
}

impl IdentityError {
    /// The error's message text.
    pub fn message(&self) -> (text: &'static str)
        ensures
            text == identity_error_text(*self),
    {
        match self {
            IdentityError::InvalidPublicKey => "invalid Ed25519 public key",
            IdentityError::InvalidSignature => "signature verification failed",
            IdentityError::DeviceIdMismatch => "participant device ID does not match public key",
            IdentityError::DuplicateParticipant => "duplicate pairing participant",
            IdentityError::UnknownProofSigner => "pairing proof belongs to an unknown participant",
            IdentityError::IncompleteProofs => "pairing proofs are incomplete",
        }
    }
}

#[derive(Debug, Copy, Clone, PartialEq, Eq, PartialOrd, Ord, Structural)]
pub enum PairingRole {
    Initiator,
    Responder,
}

pub open spec fn role_byte(role: PairingRole) -> u8 {
    match role {
        PairingRole::Initiator => 1,
        PairingRole::Responder => 2,
    }
}

impl PairingRole {
    fn byte(self) -> (b: u8)
        ensures
            b == role_byte(self),
    {
        match self {
            PairingRole::Initiator => 1,
            PairingRole::Responder => 2,
        }
    }
}

#[derive(Debug, Clone, PartialEq, Eq)]
pub struct PairingParticipant {
    pub role: PairingRole,
    pub identity: DevicePublicIdentity,
    pub device_id: String,
    pub certificate_fingerprint: [u8; 32],
    pub nonce: [u8; 32],
}

impl PairingParticipant {
    pub fn new(role: PairingRole, identity: DevicePublicIdentity, certificate_fingerprint: [u8; 32], nonce: [u8; 32]) -> (participant: Self)
        ensures
            participant.role == role,
            participant.identity == identity,
            participant.device_id@ == device_id_of(identity.public_key@),
            participant.certificate_fingerprint == certificate_fingerprint,
            participant.nonce == nonce,
    {
        let device_id = identity.device_id();
        PairingParticipant { role, identity, device_id, certificate_fingerprint, nonce }
    }
}

/// The participant's device ID is the one its public key determines.
pub open spec fn identity_matches(p: PairingParticipant) -> bool {
    p.device_id@ == device_id_of(p.identity.public_key@)
}

#[derive(Debug, Clone, PartialEq, Eq)]
pub struct PairingTranscript {
    pub protocol_version: u16,
    pub initiator: PairingParticipant,
    pub responder: PairingParticipant,
}

/// A length-prefixed string: its UTF-8 length as a big-endian `u32`, then its bytes.
pub open spec fn string_record(text: Seq<char>) -> Seq<u8> {
    be_u32(encode_utf8(text).len() as u32) + encode_utf8(text)
}

/// One participant's part of the canonical transcript.
pub open spec fn participant_record(p: PairingParticipant) -> Seq<u8> {
    seq![role_byte(p.role)] + p.identity.public_key@ + string_record(p.device_id@)
        + p.certificate_fingerprint@ + p.nonce@
}

/// The participant whose key sorts first, and the other one; a tie keeps the
/// initiator first.
pub open spec fn key_ordered(t: PairingTranscript) -> (PairingParticipant, PairingParticipant) {
    if lex_less(t.responder.identity.public_key@, t.initiator.identity.public_key@) {
        (t.responder, t.initiator)
    } else {
        (t.initiator, t.responder)
    }
}

/// The canonical transcript bytes: the transcript domain (length-prefixed),
/// the protocol version, then both participants in key order.
pub open spec fn canonical_of(t: PairingTranscript) -> Seq<u8> {
    let (first, second) = key_ordered(t);
    be_u16(transcript_domain().len() as u16) + transcript_domain() + be_u16(t.protocol_version)
        + participant_record(first) + participant_record(second)
}

/// The message a pairing proof signs.
pub open spec fn proof_message(t: PairingTranscript) -> Seq<u8> {
    domain_message_of(signing_domain(), canonical_of(t))
}

impl PairingTranscript {
    pub fn new(initiator: PairingParticipant, responder: PairingParticipant) -> (result: Result<Self, IdentityError>)
        ensures
            match result {
                Ok(t) => {
                    &&& initiator.role == PairingRole::Initiator
                    &&& responder.role == PairingRole::Responder
                    &&& initiator.identity.public_key != responder.identity.public_key
                    &&& identity_matches(initiator) && identity_matches(responder)
                    &&& t == PairingTranscript { protocol_version: PAIRING_PROTOCOL_VERSION, initiator, responder }
                },
                Err(e) => if initiator.role != PairingRole::Initiator
                    || responder.role != PairingRole::Responder
                    || initiator.identity.public_key == responder.identity.public_key {
                    e == IdentityError::DuplicateParticipant
                } else {
                    e == IdentityError::DeviceIdMismatch
                        && !(identity_matches(initiator) && identity_matches(responder))
                },
            },
    {
        let same_key = bytes_equal(&initiator.identity.public_key, &responder.identity.public_key);
        proof {
            if initiator.identity.public_key@ == responder.identity.public_key@ {
                assert(initiator.identity.public_key =~= responder.identity.public_key);
            }
        }
        if initiator.role != PairingRole::Initiator || responder.role != PairingRole::Responder || same_key {
            return Err(IdentityError::DuplicateParticipant);
        }
        let transcript = PairingTranscript { protocol_version: PAIRING_PROTOCOL_VERSION, initiator, responder };
        match transcript.validate_identities() {
            Ok(()) => Ok(transcript),
            Err(e) => Err(e),
        }
    }

    /// The canonical bytes both participants sign.
    pub fn canonical_bytes(&self) -> (bytes: Vec<u8>)
        ensures
            bytes@ == canonical_of(*self),
    {
        let responder_first = bytes_less(&self.responder.identity.public_key, &self.initiator.identity.public_key);
        let domain = transcript_domain_bytes();
        let mut result: Vec<u8> = Vec::new();
        push_be_u16(&mut result, domain.len() as u16);
        push_bytes(&mut result, domain.as_slice());
        push_be_u16(&mut result, self.protocol_version);
        if responder_first {
            push_participant(&mut result, &self.responder);
            push_participant(&mut result, &self.initiator);
        } else {
            push_participant(&mut result, &self.initiator);
            push_participant(&mut result, &self.responder);
        }
        assert(result@ =~= canonical_of(*self));
        result
    }

    pub fn validate_identities(&self) -> (result: Result<(), IdentityError>)
        ensures
            result is Ok <==> identity_matches(self.initiator) && identity_matches(self.responder),
            result is Err ==> result == Err::<(), IdentityError>(IdentityError::DeviceIdMismatch),
    {
        if self.initiator.device_id != self.initiator.identity.device_id() {
            return Err(IdentityError::DeviceIdMismatch);
        }
        if self.responder.device_id != self.responder.identity.device_id() {
            return Err(IdentityError::DeviceIdMismatch);
        }
        Ok(())
    }
}

fn push_string(output: &mut Vec<u8>, value: &str)
    ensures
        final(output)@ == old(output)@ + string_record(value@),
{
    let bytes = value.as_bytes();
    let n = bytes.len();
    assert(bytes@ == encode_utf8(value@));
    push_be_u32(output, n as u32);
    push_bytes(output, bytes);
}

fn push_participant(output: &mut Vec<u8>, p: &PairingParticipant)
    ensures
        final(output)@ == old(output)@ + participant_record(*p),
{
    let ghost start = output@;
    output.push(p.role.byte());
    push_bytes(output, &p.identity.public_key);
    push_string(output, p.device_id.as_str());
    push_bytes(output, &p.certificate_fingerprint);
    push_bytes(output, &p.nonce);
    assert(output@ =~= start + participant_record(*p));
}

#[derive(Debug, Clone, PartialEq, Eq)]
pub struct PairingProof {
    pub public_key: [u8; 32],
    pub signature: [u8; 64],
}

/// The bytes a proof contributes to the short-authentication-string input.
pub open spec fn proof_record(p: PairingProof) -> Seq<u8> {
    p.public_key@ + p.signature@
}

/// The first proof, in order, that carries `key`.
pub open spec fn find_proof(proofs: Seq<PairingProof>, key: Seq<u8>) -> Option<PairingProof>
    decreases proofs.len(),
{
    if proofs.len() == 0 {
        None
    } else if proofs[0].public_key@ == key {
        Some(proofs[0])
    } else {
        find_proof(proofs.drop_first(), key)
    }
}

/// What checking one participant's proof reports.
pub open spec fn participant_proof_result(p: PairingParticipant, proofs: Seq<PairingProof>, message: Seq<u8>) -> Result<(), IdentityError> {
    match find_proof(proofs, p.identity.public_key@) {
        None => Err(IdentityError::IncompleteProofs),
        Some(proof) => verification_result(p.identity.public_key@, message, proof.signature@),
    }
}

/// Every proof is signed by one of the two participants.
pub open spec fn signers_known(t: PairingTranscript, proofs: Seq<PairingProof>) -> bool {
    forall|i: int|
        0 <= i < proofs.len() ==> #[trigger] proofs[i].public_key@ == t.initiator.identity.public_key@
            || proofs[i].public_key@ == t.responder.identity.public_key@
}

/// What `verify_mutual_proofs` reports for `t` and `proofs`, in the order the
/// checks are made.
pub open spec fn mutual_proofs_result(t: PairingTranscript, proofs: Seq<PairingProof>) -> Result<(), IdentityError> {
    if !(identity_matches(t.initiator) && identity_matches(t.responder)) {
        Err(IdentityError::DeviceIdMismatch)
    } else if proofs.len() != 2 {
        Err(IdentityError::IncompleteProofs)
    } else {
        match participant_proof_result(t.initiator, proofs, proof_message(t)) {
            Err(e) => Err(e),
            Ok(_) => match participant_proof_result(t.responder, proofs, proof_message(t)) {
                Err(e) => Err(e),
                Ok(_) => if signers_known(t, proofs) {
                    Ok(())
                } else {
                    Err(IdentityError::UnknownProofSigner)
                },
            },
        }
    }
}

/// The two proofs in key order; a tie keeps their order.
pub open spec fn proofs_in_key_order(proofs: Seq<PairingProof>) -> Seq<PairingProof> {
    if lex_less(proofs[1].public_key@, proofs[0].public_key@) {
        seq![proofs[1], proofs[0]]
    } else {
        proofs
    }
}

/// The input from which the short authentication string is derived.
pub open spec fn sas_input_of(t: PairingTranscript, proofs: Seq<PairingProof>) -> Seq<u8> {
    let ordered = proofs_in_key_order(proofs);
    canonical_of(t) + proof_record(ordered[0]) + proof_record(ordered[1])
}

/// `((1 << 32) / 1_000_000) * 1_000_000`: four-byte values below it are
/// uniformly distributed modulo one million.
pub open spec fn sas_limit() -> u64 {
    4_294_000_000
}

/// The digest examined for retry `counter`.
pub open spec fn sas_block(input: Seq<u8>, counter: u32) -> Seq<u8> {
    blake3_digest(sas_domain() + input + be_u32(counter))
}

/// The first of the eight big-endian four-byte values of `block`, from the
/// `j`-th on, that lies below the limit, reduced modulo one million.
pub open spec fn block_candidate(block: Seq<u8>, j: nat) -> Option<u32>
    decreases 8 - j,
{
    if j >= 8 {
        None
    } else {
        let value = u32_of_be(block.subrange(4 * j as int, 4 * j as int + 4));
        if (value as u64) < sas_limit() {
            Some((value % 1_000_000) as u32)
        } else {
            block_candidate(block, j + 1)
        }
    }
}

/// The six-digit value found by trying retry counters from `counter` on;
/// `None` when every `u32` counter has been tried without success.
pub open spec fn sas_search(input: Seq<u8>, counter: nat) -> Option<u32>
    decreases 0x1_0000_0000 - counter,
{
    if counter >= 0x1_0000_0000 {
        None
    } else {
        match block_candidate(sas_block(input, counter as u32), 0) {
            Some(v) => Some(v),
            None => sas_search(input, counter + 1),
        }
    }
}

proof fn lemma_block_candidate_bound(block: Seq<u8>, j: nat)
    ensures
        block_candidate(block, j) matches Some(v) ==> v < 1_000_000,
    decreases 8 - j,
{
    if j < 8 {
        lemma_block_candidate_bound(block, j + 1);
    }
}

proof fn lemma_sas_search_bound(input: Seq<u8>, counter: nat)
    ensures
        sas_search(input, counter) matches Some(v) ==> v < 1_000_000,
    decreases 0x1_0000_0000 - counter,
{
    if counter < 0x1_0000_0000 {
        lemma_block_candidate_bound(sas_block(input, counter as u32), 0);
        lemma_sas_search_bound(input, counter + 1);
    }
}

/// The first acceptable candidate of a 32-byte block.
fn block_candidate_of(block: &[u8; 32]) -> (found: Option<u32>)
    ensures
        found == block_candidate(block@, 0),
{
    let mut j: usize = 0;
    while j < 8
        invariant
            j <= 8,
            block_candidate(block@, 0) == block_candidate(block@, j as nat),
        decreases 8 - j,
    {
        let value = crate::bytes::read_be_u32(block, 4 * j);
        if (value as u64) < 4_294_000_000u64 {
            return Some(value % 1_000_000);
        }
        j = j + 1;
    }
    None
}

/// Derives a uniformly distributed six-digit value from `input` by rejection
/// sampling over BLAKE3 output; `None` only if every retry counter fails.
fn unbiased_six_digits(input: &[u8]) -> (value: Option<u32>)
    ensures
        value == sas_search(input@, 0),
{
    let domain = sas_domain_bytes();
    let mut counter: u32 = 0;
    loop
        invariant
            domain@ == sas_domain(),
            sas_search(input@, 0) == sas_search(input@, counter as nat),
        decreases 0xffff_ffff - counter,
    {
        let mut block_input = domain.clone();
        push_bytes(&mut block_input, input);
        push_be_u32(&mut block_input, counter);
        let block = blake3_hash(block_input.as_slice());
        assert(block_input@ == sas_domain() + input@ + be_u32(counter));
        if let Some(v) = block_candidate_of(&block) {
            return Some(v);
        }
        if counter == 0xffff_ffff {
            assert(sas_search(input@, 0x1_0000_0000) is None);
            return None;
        }
        counter = counter + 1;
    }
}

#[derive(Debug, Clone, Copy, PartialEq, Eq)]
pub struct SasCode(u32);

impl View for SasCode {
    type V = u32;

    closed spec fn view(&self) -> u32 {
        self.0
    }
}

/// The displayed form of a code: the thousands and the units, each as three
/// zero-padded digits, separated by a space.
pub open spec fn sas_text(value: u32) -> Seq<char> {
    crate::text::zero_padded((value / 1000) as nat, 3) + seq![' '] + crate::text::zero_padded(
        (value % 1000) as nat,
        3,
    )
}

impl SasCode {
    pub fn value(self) -> (v: u32)
        ensures
            v == self@,
    {
        self.0
    }

    pub fn formatted(self) -> (text: String)
        ensures
            text@ == sas_text(self@),
    {
        let high = crate::text::zero_padded_chars((self.0 / 1000) as u128, 3);
        let low = crate::text::zero_padded_chars((self.0 % 1000) as u128, 3);
        let mut out = String::new();
        crate::text::push_chars(&mut out, &high);
        out.push(' ');
        crate::text::push_chars(&mut out, &low);
        assert(out@ =~= sas_text(self@));
        out
    }
}

impl PairingTranscript {
    /// Checks that each participant signed the canonical transcript and that
    /// no proof comes from a third key.
    pub fn verify_mutual_proofs(&self, proofs: &[PairingProof]) -> (result: Result<(), IdentityError>)
        ensures
            result == mutual_proofs_result(*self, proofs@),
    {
        match self.validate_identities() {
            Ok(()) => {},
            Err(e) => return Err(e),
        }
        if proofs.len() != 2 {
            return Err(IdentityError::IncompleteProofs);
        }
        let domain = signing_domain_bytes();
        let bytes = self.canonical_bytes();
        let message = domain_message(domain.as_slice(), bytes.as_slice());
        assert(message@ == proof_message(*self));
        match check_participant_proof(&self.initiator, proofs, message.as_slice()) {
            Ok(()) => {},
            Err(e) => return Err(e),
        }
        match check_participant_proof(&self.responder, proofs, message.as_slice()) {
            Ok(()) => {},
            Err(e) => return Err(e),
        }
        let mut i: usize = 0;
        while i < proofs.len()
            invariant
                i <= proofs@.len(),
                identity_matches(self.initiator) && identity_matches(self.responder),
                proofs@.len() == 2,
                participant_proof_result(self.initiator, proofs@, proof_message(*self)) is Ok,
                participant_proof_result(self.responder, proofs@, proof_message(*self)) is Ok,
                forall|k: int|
                    0 <= k < i ==> #[trigger] proofs@[k].public_key@ == self.initiator.identity.public_key@
                        || proofs@[k].public_key@ == self.responder.identity.public_key@,
            decreases proofs@.len() - i,
        {
            let known_initiator = bytes_equal(&proofs[i].public_key, &self.initiator.identity.public_key);
            let known_responder = bytes_equal(&proofs[i].public_key, &self.responder.identity.public_key);
            if !known_initiator && !known_responder {
                proof {
                    let k = i as int;
                    assert(!(proofs@[k].public_key@ == self.initiator.identity.public_key@
                        || proofs@[k].public_key@ == self.responder.identity.public_key@));
                    assert(!signers_known(*self, proofs@));
                }
                return Err(IdentityError::UnknownProofSigner);
            }
            i = i + 1;
        }
        Ok(())
    }

    /// The short authentication string both devices display, after the
    /// mutual proofs have been checked.
    pub fn sas(&self, proofs: &[PairingProof]) -> (result: Result<SasCode, IdentityError>)
        requires
            mutual_proofs_result(*self, proofs@) is Ok ==> sas_search(sas_input_of(*self, proofs@), 0) is Some,
        ensures
            match mutual_proofs_result(*self, proofs@) {
                Err(e) => result == Err::<SasCode, IdentityError>(e),
                Ok(_) => result matches Ok(code) && Some(code@) == sas_search(sas_input_of(*self, proofs@), 0),
            },
            result matches Ok(code) ==> code@ < 1_000_000,
    {
        match self.sas_if_derivable(proofs) {
            Some(result) => result,
            None => {
                proof {
                    assert(false);
                }
                Err(IdentityError::IncompleteProofs)
            },
        }
    }

    /// As `sas`, for any proofs: `None` exactly when the proofs verify but no
    /// retry counter yields an acceptable value.
    pub fn sas_if_derivable(&self, proofs: &[PairingProof]) -> (result: Option<Result<SasCode, IdentityError>>)
        ensures
            match mutual_proofs_result(*self, proofs@) {
                Err(e) => result == Some(Err::<SasCode, IdentityError>(e)),
                Ok(_) => match sas_search(sas_input_of(*self, proofs@), 0) {
                    Some(v) => result matches Some(Ok(code)) && code@ == v,
                    None => result is None,
                },
            },
            result matches Some(Ok(code)) ==> code@ < 1_000_000,
    {
        match self.verify_mutual_proofs(proofs) {
            Ok(()) => {},
            Err(e) => return Some(Err(e)),
        }
        let swap = bytes_less(&proofs[1].public_key, &proofs[0].public_key);
        let (first, second) = if swap { (1usize, 0usize) } else { (0usize, 1usize) };
        let mut input = self.canonical_bytes();
        push_bytes(&mut input, &proofs[first].public_key);
        push_bytes(&mut input, &proofs[first].signature);
        push_bytes(&mut input, &proofs[second].public_key);
        push_bytes(&mut input, &proofs[second].signature);
        proof {
            let ordered = proofs_in_key_order(proofs@);
            assert(ordered[0] == proofs@[first as int]);
            assert(ordered[1] == proofs@[second as int]);
            assert(input@ =~= sas_input_of(*self, proofs@));
            lemma_sas_search_bound(input@, 0);
        }
        match unbiased_six_digits(input.as_slice()) {
            Some(v) => Some(Ok(SasCode(v))),
            None => None,
        }
    }
}

/// Looks up `p`'s proof and checks its signature over `message`.
fn check_participant_proof(p: &PairingParticipant, proofs: &[PairingProof], message: &[u8]) -> (result: Result<(), IdentityError>)
    ensures
        result == participant_proof_result(*p, proofs@, message@),
{
    let mut i: usize = 0;
    assert(proofs@.subrange(0, proofs@.len() as int) =~= proofs@);
    while i < proofs.len()
        invariant
            i <= proofs@.len(),
            find_proof(proofs@, p.identity.public_key@) == find_proof(proofs@.subrange(i as int, proofs@.len() as int), p.identity.public_key@),
        decreases proofs@.len() - i,
    {
        let ghost rest = proofs@.subrange(i as int, proofs@.len() as int);
        assert(rest[0] == proofs@[i as int]);
        assert(rest.drop_first() =~= proofs@.subrange(i + 1, proofs@.len() as int));
        if bytes_equal(&proofs[i].public_key, &p.identity.public_key) {
            return p.identity.verify_domain_separated_message(message, &proofs[i].signature);
        }
        i = i + 1;
    }
    Err(IdentityError::IncompleteProofs)
}

impl DevicePublicIdentity {
    /// Checks `signature` over an already domain-bound `message`.
    fn verify_domain_separated_message(&self, message: &[u8], signature: &[u8; 64]) -> (result: Result<(), IdentityError>)
        ensures
            result == verification_result(self.public_key@, message@, signature@),
    {
        if !ed25519_key_is_valid(&self.public_key) {
            return Err(IdentityError::InvalidPublicKey);
        }
        if ed25519_verify(&self.public_key, message, signature) {
            Ok(())
        } else {
            Err(IdentityError::InvalidSignature)
        }
    }
}

#[derive(Debug, Copy, Clone, PartialEq, Eq, Structural)]
pub enum PairingState {
    Pending,
    LocalConfirmed,
    RemoteConfirmed,
    Confirmed,
    Rejected,
    Expired,
}

#[derive(Debug, Copy, Clone, PartialEq, Eq, Structural)]
pub enum PairingError {
    Expired,
    Rejected,
    InvalidState,
}

/// The text of each `PairingError`.
pub open spec fn pairing_error_text(value: PairingError) -> &'static str {
    match value {
        PairingError::Expired => "pairing session has expired",
        PairingError::Rejected => "pairing session was rejected",
        PairingError::InvalidState => "pairing confirmation is invalid in the current state",
    }
}

impl PairingError {
    /// The error's message text.
    pub fn message(&self) -> (text: &'static str)
        ensures
            text == pairing_error_text(*self),
    {
        match self {
            PairingError::Expired => "pairing session has expired",
            PairingError::Rejected => "pairing session was rejected",
            PairingError::InvalidState => "pairing confirmation is invalid in the current state",
        }
    }
}

/// The state after the expiry check at time `now`: an open session whose
/// deadline has been reached becomes `Expired`.
pub open spec fn expired_state(state: PairingState, expires_at: u128, now: u128) -> PairingState {
    if now >= expires_at && !(state == PairingState::Confirmed || state == PairingState::Rejected) {
        PairingState::Expired
    } else {
        state
    }
}

/// What one confirmation (`local` or remote) reports from `state`.
pub open spec fn confirmation_result(state: PairingState, local: bool) -> Result<PairingState, PairingError> {
    match state {
        PairingState::Expired => Err(PairingError::Expired),
        PairingState::Rejected => Err(PairingError::Rejected),
        PairingState::Confirmed => Err(PairingError::InvalidState),
        PairingState::Pending => Ok(
            if local {
                PairingState::LocalConfirmed
            } else {
                PairingState::RemoteConfirmed
            },
        ),
        PairingState::LocalConfirmed => if !local {
            Ok(PairingState::Confirmed)
        } else {
            Err(PairingError::InvalidState)
        },
        PairingState::RemoteConfirmed => if local {
            Ok(PairingState::Confirmed)
        } else {
            Err(PairingError::InvalidState)
        },
    }
}

/// The state after a confirmation at time `now`.
pub open spec fn confirmed_state(state: PairingState, expires_at: u128, now: u128, local: bool) -> PairingState {
    let checked = expired_state(state, expires_at, now);
    match confirmation_result(checked, local) {
        Ok(next) => next,
        Err(_) => checked,
    }
}

/// A pairing session: both sides must confirm before the deadline.  Times
/// are nanoseconds since the Unix epoch.
#[derive(Debug, Clone)]
pub struct PairingSession {
    expires_at: u128,
    state: PairingState,
}

impl PairingSession {
    pub closed spec fn deadline(&self) -> u128 {
        self.expires_at
    }

    pub closed spec fn current(&self) -> PairingState {
        self.state
    }

    pub fn new(expires_at: u128) -> (session: Self)
        ensures
            session.deadline() == expires_at,
            session.current() == PairingState::Pending,
    {
        PairingSession { expires_at, state: PairingState::Pending }
    }

    pub fn state(&self) -> (state: PairingState)
        ensures
            state == self.current(),
    {
        self.state
    }

    pub fn confirm_local(&mut self, now: u128) -> (result: Result<PairingState, PairingError>)
        ensures
            result == confirmation_result(expired_state(old(self).current(), old(self).deadline(), now), true),
            final(self).current() == confirmed_state(old(self).current(), old(self).deadline(), now, true),
            final(self).deadline() == old(self).deadline(),
    {
        self.confirm(now, true)
    }

    pub fn confirm_remote(&mut self, now: u128) -> (result: Result<PairingState, PairingError>)
        ensures
            result == confirmation_result(expired_state(old(self).current(), old(self).deadline(), now), false),
            final(self).current() == confirmed_state(old(self).current(), old(self).deadline(), now, false),
            final(self).deadline() == old(self).deadline(),
    {
        self.confirm(now, false)
    }

    pub fn reject(&mut self)
        ensures
            final(self).current() == PairingState::Rejected,
            final(self).deadline() == old(self).deadline(),
    {
        self.state = PairingState::Rejected;
    }

    pub fn expire_if_needed(&mut self, now: u128) -> (state: PairingState)
        ensures
            state == expired_state(old(self).current(), old(self).deadline(), now),
            final(self).current() == state,
            final(self).deadline() == old(self).deadline(),
    {
        if now >= self.expires_at && !(self.state == PairingState::Confirmed || self.state == PairingState::Rejected) {
            self.state = PairingState::Expired;
        }
        self.state
    }

    fn confirm(&mut self, now: u128, local: bool) -> (result: Result<PairingState, PairingError>)
        ensures
            result == confirmation_result(expired_state(old(self).current(), old(self).deadline(), now), local),
            final(self).current() == confirmed_state(old(self).current(), old(self).deadline(), now, local),
            final(self).deadline() == old(self).deadline(),
    {
        self.expire_if_needed(now);
        match self.state {
            PairingState::Expired => Err(PairingError::Expired),
            PairingState::Rejected => Err(PairingError::Rejected),
            PairingState::Confirmed => Err(PairingError::InvalidState),
            PairingState::Pending => {
                self.state = if local {
                    PairingState::LocalConfirmed
                } else {
                    PairingState::RemoteConfirmed
                };
                Ok(self.state)
            },
            PairingState::LocalConfirmed => {
                if !local {
                    self.state = PairingState::Confirmed;
                    Ok(self.state)
                } else {
                    Err(PairingError::InvalidState)
                }
            },
            PairingState::RemoteConfirmed => {
                if local {
                    self.state = PairingState::Confirmed;
                    Ok(self.state)
                } else {
                    Err(PairingError::InvalidState)
                }
            },
        }
    }
}

/// Confirmed, rejected and expired sessions are final: every later
/// confirmation fails and leaves the state as it was.
pub proof fn lemma_final_states_stay(state: PairingState, expires_at: u128, now: u128, local: bool)
    requires
        state == PairingState::Confirmed || state == PairingState::Rejected || state
            == PairingState::Expired,
    ensures
        confirmation_result(expired_state(state, expires_at, now), local) is Err,
        confirmed_state(state, expires_at, now, local) == state,
{
}

/// No confirmation succeeds once the deadline has been reached.
pub proof fn lemma_no_confirmation_after_deadline(state: PairingState, expires_at: u128, now: u128, local: bool)
    requires
        now >= expires_at,
    ensures
        confirmation_result(expired_state(state, expires_at, now), local) is Err,
{
}

/// The state reached by a sequence of confirmations, each a side (`true` for
/// local) and a time.
pub open spec fn state_after(state: PairingState, expires_at: u128, steps: Seq<(bool, u128)>) -> PairingState
    decreases steps.len(),
{
    if steps.len() == 0 {
        state
    } else {
        state_after(
            confirmed_state(state, expires_at, steps[0].1, steps[0].0),
            expires_at,
            steps.drop_first(),
        )
    }
}

/// The confirmations already recorded in `state`.
pub open spec fn records_local(state: PairingState) -> bool {
    state == PairingState::LocalConfirmed || state == PairingState::Confirmed
}

pub open spec fn records_remote(state: PairingState) -> bool {
    state == PairingState::RemoteConfirmed || state == PairingState::Confirmed
}

proof fn lemma_state_after_needs_both(state: PairingState, expires_at: u128, steps: Seq<(bool, u128)>)
    ensures
        records_local(state_after(state, expires_at, steps)) ==> records_local(state) || exists|i: int|
            0 <= i < steps.len() && #[trigger] steps[i].0,
        records_remote(state_after(state, expires_at, steps)) ==> records_remote(state) || exists|i: int|
            0 <= i < steps.len() && !(#[trigger] steps[i].0),
    decreases steps.len(),
{
    if steps.len() > 0 {
        let next = confirmed_state(state, expires_at, steps[0].1, steps[0].0);
        lemma_state_after_needs_both(next, expires_at, steps.drop_first());
        let tail = steps.drop_first();
        if exists|i: int| 0 <= i < tail.len() && #[trigger] tail[i].0 {
            let i = choose|i: int| 0 <= i < tail.len() && #[trigger] tail[i].0;
            assert(steps[i + 1] == tail[i]);
        }
        if exists|i: int| 0 <= i < tail.len() && !(#[trigger] tail[i].0) {
            let i = choose|i: int| 0 <= i < tail.len() && !(#[trigger] tail[i].0);
            assert(steps[i + 1] == tail[i]);
        }
        if records_local(next) && !records_local(state) {
            assert(steps[0].0);
        }
        if records_remote(next) && !records_remote(state) {
            assert(!steps[0].0);
        }
    }
}

/// A pending session becomes `Confirmed` only through at least one local and
/// at least one remote confirmation.
pub proof fn lemma_confirmed_needs_both_sides(expires_at: u128, steps: Seq<(bool, u128)>)
    requires
        state_after(PairingState::Pending, expires_at, steps) == PairingState::Confirmed,
    ensures
        exists|i: int| 0 <= i < steps.len() && #[trigger] steps[i].0,
        exists|i: int| 0 <= i < steps.len() && !(#[trigger] steps[i].0),
{
    lemma_state_after_needs_both(PairingState::Pending, expires_at, steps);
}

/// Swapping which device initiated, while keeping each device's role, key,
/// name, fingerprint and nonce, leaves the canonical bytes unchanged when the
/// keys differ: the transcript is ordered by key, not by position.
pub proof fn lemma_canonical_bytes_are_key_ordered(t: PairingTranscript, u: PairingTranscript)
    requires
        u.protocol_version == t.protocol_version,
        u.initiator == t.responder,
        u.responder == t.initiator,
        t.initiator.identity.public_key@ != t.responder.identity.public_key@,
        t.initiator.identity.public_key@.len() == t.responder.identity.public_key@.len(),
    ensures
        canonical_of(u) == canonical_of(t),
{
    let a = t.initiator.identity.public_key@;
    let b = t.responder.identity.public_key@;
    lemma_lex_total(a, b);
}

/// Two distinct byte strings of one length are ordered one way exactly.
pub proof fn lemma_lex_total(a: Seq<u8>, b: Seq<u8>)
    requires
        a.len() == b.len(),
        a != b,
    ensures
        lex_less(a, b) != lex_less(b, a),
{
    let d = choose|i: int| 0 <= i < a.len() && a[i] != b[i];
    assert(exists|i: int| 0 <= i < a.len() && a[i] != b[i]) by {
        if !(exists|i: int| 0 <= i < a.len() && a[i] != b[i]) {
            assert(a =~= b);
        }
    }
    lemma_first_difference(a, b, d);
}

proof fn lemma_first_difference(a: Seq<u8>, b: Seq<u8>, d: int)
    requires
        a.len() == b.len(),
        0 <= d < a.len(),
        a[d] != b[d],
    ensures
        lex_less(a, b) != lex_less(b, a),
    decreases d,
{
    if exists|j: int| 0 <= j < d && a[j] != b[j] {
        let j = choose|j: int| 0 <= j < d && a[j] != b[j];
        lemma_first_difference(a, b, j);
    } else {
        assert(a.subrange(0, d) =~= b.subrange(0, d));
        if a[d] < b[d] {
            assert(lex_less(a, b));
            assert forall|i: int|
                0 <= i < b.len() && i < a.len() && b.subrange(0, i) == a.subrange(0, i) implies !(b[i] < a[i]) by {
                if i > d {
                    assert(b.subrange(0, i)[d] == a.subrange(0, i)[d]);
                }
                if i < d {
                    assert(a[i] == b[i]);
                }
            }
        } else {
            assert(lex_less(b, a));
            assert forall|i: int|
                0 <= i < a.len() && i < b.len() && a.subrange(0, i) == b.subrange(0, i) implies !(a[i] < b[i]) by {
                if i > d {
                    assert(b.subrange(0, i)[d] == a.subrange(0, i)[d]);
                }
                if i < d {
                    assert(a[i] == b[i]);
                }
            }
        }
    }
}

/// The role of each participant is part of what is signed: exchanging the
/// two roles changes the canonical bytes.
pub proof fn lemma_canonical_bytes_are_role_aware(t: PairingTranscript, u: PairingTranscript)
    requires
        u.protocol_version == t.protocol_version,
        u.initiator == (PairingParticipant { role: t.initiator.role, ..t.responder }),
        u.responder == (PairingParticipant { role: t.responder.role, ..t.initiator }),
        t.initiator.role != t.responder.role,
        t.initiator.identity.public_key@ != t.responder.identity.public_key@,
        t.initiator.identity.public_key@.len() == t.responder.identity.public_key@.len(),
    ensures
        canonical_of(u) != canonical_of(t),
{
    let a = t.initiator.identity.public_key@;
    let b = t.responder.identity.public_key@;
    lemma_lex_total(a, b);
    let at = (be_u16(transcript_domain().len() as u16) + transcript_domain() + be_u16(t.protocol_version)).len() as int;
    let (tf, ts) = key_ordered(t);
    let (uf, us) = key_ordered(u);
    assert(tf.identity == uf.identity);
    assert(tf.role != uf.role);
    assert(canonical_of(t)[at] == role_byte(tf.role));
    assert(canonical_of(u)[at] == role_byte(uf.role));
}

/// When both participants' device IDs match their keys, the keys differ, and
/// each participant's proof is a valid signature over the canonical proof
/// message under its own key, the mutual proofs are accepted in either order.
pub proof fn lemma_mutual_proofs_accepted(t: PairingTranscript, initiator_proof: PairingProof, responder_proof: PairingProof)
    requires
        identity_matches(t.initiator),
        identity_matches(t.responder),
        t.initiator.identity.public_key@ != t.responder.identity.public_key@,
        initiator_proof.public_key@ == t.initiator.identity.public_key@,
        responder_proof.public_key@ == t.responder.identity.public_key@,
        ed25519_valid_key(initiator_proof.public_key@),
        ed25519_valid_key(responder_proof.public_key@),
        ed25519_verifies(initiator_proof.public_key@, proof_message(t), initiator_proof.signature@),
        ed25519_verifies(responder_proof.public_key@, proof_message(t), responder_proof.signature@),
    ensures
        mutual_proofs_result(t, seq![initiator_proof, responder_proof]) is Ok,
        mutual_proofs_result(t, seq![responder_proof, initiator_proof]) is Ok,
{
    let p = seq![initiator_proof, responder_proof];
    let q = seq![responder_proof, initiator_proof];
    assert(p.drop_first() =~= seq![responder_proof]);
    assert(q.drop_first() =~= seq![initiator_proof]);
    assert(find_proof(p, t.initiator.identity.public_key@) == Some(initiator_proof));
    assert(find_proof(p.drop_first(), t.responder.identity.public_key@) == Some(responder_proof));
    assert(find_proof(p, t.responder.identity.public_key@) == Some(responder_proof));
    assert(find_proof(q.drop_first(), t.initiator.identity.public_key@) == Some(initiator_proof));
    assert(find_proof(q, t.initiator.identity.public_key@) == Some(initiator_proof));
    assert(find_proof(q, t.responder.identity.public_key@) == Some(responder_proof));
}

} // verus!

verus! {

proof fn lemma_find_in_pair(p: PairingProof, q: PairingProof, key: Seq<u8>)
    requires
        p.public_key@ != q.public_key@,
    ensures
        find_proof(seq![p, q], key) == find_proof(seq![q, p], key),
{
    reveal_with_fuel(find_proof, 3);
    assert(seq![p, q].drop_first() =~= seq![q]);
    assert(seq![q, p].drop_first() =~= seq![p]);
    assert(seq![q].drop_first() =~= Seq::<PairingProof>::empty());
    assert(seq![p].drop_first() =~= Seq::<PairingProof>::empty());
}

/// The order in which the two proofs are handed over does not matter:
/// proofs from two different keys verify alike and give one comparison
/// code in either order.  (With one key in both proofs they are not the
/// two participants' proofs.)
pub proof fn lemma_sas_ignores_proof_order(t: PairingTranscript, p: PairingProof, q: PairingProof)
    requires
        p.public_key@ != q.public_key@,
    ensures
        mutual_proofs_result(t, seq![p, q]) == mutual_proofs_result(t, seq![q, p]),
        sas_input_of(t, seq![p, q]) == sas_input_of(t, seq![q, p]),
{
    lemma_find_in_pair(p, q, t.initiator.identity.public_key@);
    lemma_find_in_pair(p, q, t.responder.identity.public_key@);
    let pq = seq![p, q];
    let qp = seq![q, p];
    assert(signers_known(t, pq) == signers_known(t, qp)) by {
        if signers_known(t, pq) {
            assert forall|i: int| 0 <= i < qp.len() implies #[trigger] qp[i].public_key@ == t.initiator.identity.public_key@
                || qp[i].public_key@ == t.responder.identity.public_key@ by {
                assert(pq[1 - i] == qp[i]);
            }
        }
        if signers_known(t, qp) {
            assert forall|i: int| 0 <= i < pq.len() implies #[trigger] pq[i].public_key@ == t.initiator.identity.public_key@
                || pq[i].public_key@ == t.responder.identity.public_key@ by {
                assert(qp[1 - i] == pq[i]);
            }
        }
    }
    lemma_lex_total(p.public_key@, q.public_key@);
    assert(proofs_in_key_order(pq) =~= proofs_in_key_order(qp));
}

/// For any two proofs, the order they are handed over in does not change
/// whether they verify, nor the code derived from them: with two keys the
/// outcome is the same either way; with one key in both they are not the
/// two participants' proofs and fail either way.
pub proof fn lemma_sas_outcome_ignores_proof_order(t: PairingTranscript, p: PairingProof, q: PairingProof)
    requires
        t.initiator.identity.public_key != t.responder.identity.public_key,
    ensures
        mutual_proofs_result(t, seq![p, q]) is Ok <==> mutual_proofs_result(t, seq![q, p]) is Ok,
        mutual_proofs_result(t, seq![p, q]) is Ok ==> sas_input_of(t, seq![p, q]) == sas_input_of(t, seq![q, p]),
{
    if p.public_key@ != q.public_key@ {
        lemma_sas_ignores_proof_order(t, p, q);
    } else {
        assert(t.initiator.identity.public_key@ != t.responder.identity.public_key@) by {
            if t.initiator.identity.public_key@ == t.responder.identity.public_key@ {
                assert(t.initiator.identity.public_key =~= t.responder.identity.public_key);
            }
        }
        reveal_with_fuel(find_proof, 3);
        let pq = seq![p, q];
        let qp = seq![q, p];
        assert(pq.drop_first() =~= seq![q]);
        assert(qp.drop_first() =~= seq![p]);
        assert(seq![q].drop_first() =~= Seq::<PairingProof>::empty());
        assert(seq![p].drop_first() =~= Seq::<PairingProof>::empty());
        if p.public_key@ != t.initiator.identity.public_key@ {
            assert(find_proof(pq, t.initiator.identity.public_key@) is None);
            assert(find_proof(qp, t.initiator.identity.public_key@) is None);
        } else {
            assert(find_proof(pq, t.responder.identity.public_key@) is None);
            assert(find_proof(qp, t.responder.identity.public_key@) is None);
        }
    }
}

/// The displayed code has seven characters: three digits, a space and
/// three digits, which read back as the thousands and the units of the
/// code, so the display gives the code back.
pub proof fn lemma_sas_text_shape(value: u32)
    requires
        value < 1_000_000,
    ensures
        sas_text(value).len() == 7,
        sas_text(value)[3] == ' ',
        forall|i: int| 0 <= i < 7 && i != 3 ==> crate::text::is_digit_char(#[trigger] sas_text(value)[i]),
        sas_text(value).subrange(0, 3) == crate::text::zero_padded((value / 1000) as nat, 3),
        sas_text(value).subrange(4, 7) == crate::text::zero_padded((value % 1000) as nat, 3),
        crate::text::three_digit_value(sas_text(value).subrange(0, 3)) * 1000 + crate::text::three_digit_value(
            sas_text(value).subrange(4, 7),
        ) == value,
{
    crate::text::lemma_zero_padded_value((value / 1000) as nat);
    crate::text::lemma_zero_padded_value((value % 1000) as nat);
    crate::text::lemma_zero_padded_digits((value / 1000) as nat, 3);
    crate::text::lemma_zero_padded_digits((value % 1000) as nat, 3);
    let hi = crate::text::zero_padded((value / 1000) as nat, 3);
    let lo = crate::text::zero_padded((value % 1000) as nat, 3);
    assert(sas_text(value) == hi + seq![' '] + lo);
    assert(sas_text(value).subrange(0, 3) =~= hi);
    assert(sas_text(value).subrange(4, 7) =~= lo);
    assert forall|i: int| 0 <= i < 7 && i != 3 implies crate::text::is_digit_char(#[trigger] sas_text(value)[i]) by {
        if i < 3 {
            assert(sas_text(value)[i] == hi[i]);
        } else {
            assert(sas_text(value)[i] == lo[i - 4]);
        }
    }
}

} // verus!
