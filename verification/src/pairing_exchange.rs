//! The steps of the pairing exchange that runs over an authenticated,
//! pairing-only session: each side sends a request with its name and a
//! nonce, both build the same role-aware transcript, exchange proofs over
//! it, and derive the comparison code.  Sending and receiving the frames is
//! the caller's; every check is here.
use crate::crypto::blake3_digest;
use crate::identity::{
    canonical_of, mutual_proofs_result, sas_input_of, sas_search, sas_text, DeviceIdentity, DevicePublicIdentity,
    PairingParticipant, PairingProof, PairingRole, PairingTranscript,
};
use crate::network::{PeerBinding, TrustedPeerPin};
use crate::protocol::{ControlMessage, PairProof, PairRequest};
use crate::text::{chars_of, hex_decode, hex_decoded, hex_encode, hex_lower, string_from_chars, trim, trimmed};
use vstd::prelude::*;

verus! {

/// Why a pairing exchange stops.
#[derive(Debug, Clone, Copy, PartialEq, Eq, Structural)]
pub enum PairingFailure {
    UnexpectedRequestFrame,
    InvalidRequest,
    InvalidNonce,
    InvalidTranscript,
    UnexpectedProofFrame,
    ProofMismatch,
    InvalidProof,
    VerificationFailed,
}

/// The text of each `PairingFailure`.
pub open spec fn pairing_failure_text(value: PairingFailure) -> &'static str {
    match value {
        PairingFailure::UnexpectedRequestFrame => "only pairing request frames are accepted",
        PairingFailure::InvalidRequest => "invalid pairing request",
        PairingFailure::InvalidNonce => "invalid pairing nonce",
        PairingFailure::InvalidTranscript => "invalid transcript",
        PairingFailure::UnexpectedProofFrame => "only pairing proof frames are accepted",
        PairingFailure::ProofMismatch => "pairing proof replay or transcript mismatch",
        PairingFailure::InvalidProof => "invalid pairing proof",
        PairingFailure::VerificationFailed => "pairing proof verification failed",
    }
}

impl PairingFailure {
    /// The failure's message text.
    pub fn message(&self) -> (text: &'static str)
        ensures
            text == pairing_failure_text(*self),
    {
        match self {
            PairingFailure::UnexpectedRequestFrame => "only pairing request frames are accepted",
            PairingFailure::InvalidRequest => "invalid pairing request",
            PairingFailure::InvalidNonce => "invalid pairing nonce",
            PairingFailure::InvalidTranscript => "invalid transcript",
            PairingFailure::UnexpectedProofFrame => "only pairing proof frames are accepted",
            PairingFailure::ProofMismatch => "pairing proof replay or transcript mismatch",
            PairingFailure::InvalidProof => "invalid pairing proof",
            PairingFailure::VerificationFailed => "pairing proof verification failed",
        }
    }
}

/// What a completed exchange yields: the peer's pin, the comparison code
/// both users compare, the session and the peer's name.  It authorizes no
/// transfer.
#[derive(Debug, Clone, PartialEq, Eq)]
pub struct PairingExchange {
    pub peer: TrustedPeerPin,
    pub sas: String,
    pub session_id: [u8; 16],
    pub remote_name: String,
}

/// The request a side sends: its session, name and nonce, open for 120
/// seconds.
pub fn pairing_request(session_id: [u8; 16], device_name: &str, nonce: &[u8; 32]) -> (message: ControlMessage)
    ensures
        message matches ControlMessage::PairRequest(r) && r.session_id == session_id
            && r.device_name@ == device_name@ && r.nonce@ == hex_lower(nonce@) && r.expires_at@ == "120"@,
{
    let hex = hex_encode(nonce);
    ControlMessage::PairRequest(PairRequest {
        session_id,
        device_name: device_name.to_owned(),
        nonce: string_from_chars(&hex),
        expires_at: "120".to_owned(),
    })
}

/// A peer's request, checked: a pairing request whose name is not blank and
/// at most 128 bytes, open for 120 seconds, with a 32-byte hexadecimal nonce.
pub open spec fn request_check(message: ControlMessage) -> Result<Seq<u8>, PairingFailure> {
    match message {
        ControlMessage::PairRequest(r) => if trimmed(r.device_name@).len() == 0
            || vstd::utf8::encode_utf8(r.device_name@).len() > 128 || r.expires_at@ != "120"@ {
            Err(PairingFailure::InvalidRequest)
        } else {
            match hex_decoded(r.nonce@) {
                Some(n) => if n.len() == 32 {
                    Ok(n)
                } else {
                    Err(PairingFailure::InvalidNonce)
                },
                None => Err(PairingFailure::InvalidNonce),
            }
        },
        _ => Err(PairingFailure::UnexpectedRequestFrame),
    }
}

fn nonce_array(v: &Vec<u8>) -> (a: [u8; 32])
    requires
        v@.len() == 32,
    ensures
        a@ == v@,
{
    let mut a = [0u8; 32];
    let mut i: usize = 0;
    while i < 32
        invariant
            i <= 32,
            v@.len() == 32,
            forall|j: int| 0 <= j < i ==> a@[j] == v@[j],
        decreases 32 - i,
    {
        a[i] = v[i];
        i = i + 1;
    }
    assert(a@ =~= v@);
    a
}

/// Checks a peer's request and gives its nonce.
pub fn check_pair_request(message: &ControlMessage) -> (result: Result<[u8; 32], PairingFailure>)
    ensures
        match result {
            Ok(n) => request_check(*message) == Ok::<Seq<u8>, PairingFailure>(n@),
            Err(f) => request_check(*message) == Err::<Seq<u8>, PairingFailure>(f),
        },
{
    let r = match message {
        ControlMessage::PairRequest(r) => r,
        _ => return Err(PairingFailure::UnexpectedRequestFrame),
    };
    let name = trim(r.device_name.as_str());
    let expires = chars_of(r.expires_at.as_str());
    proof {
        reveal_strlit("120");
    }
    let expires_ok = expires.len() == 3 && expires[0] == '1' && expires[1] == '2' && expires[2] == '0';
    proof {
        if expires_ok {
            assert(expires@ =~= "120"@);
        }
        if r.expires_at@ == "120"@ {
            assert(expires@[0] == '1' && expires@[1] == '2' && expires@[2] == '0');
        }
    }
    if name.as_str().unicode_len() == 0 || r.device_name.as_str().as_bytes().len() > 128 || !expires_ok {
        return Err(PairingFailure::InvalidRequest);
    }
    let nonce_chars = chars_of(r.nonce.as_str());
    match hex_decode(&nonce_chars) {
        Some(bytes) => if bytes.len() == 32 {
            Ok(nonce_array(&bytes))
        } else {
            Err(PairingFailure::InvalidNonce)
        },
        None => Err(PairingFailure::InvalidNonce),
    }
}

/// The participants of the exchange in transcript order: the initiator
/// first, whichever side this device plays.
pub open spec fn participants_for(
    role: PairingRole,
    local: DevicePublicIdentity,
    local_fingerprint: Seq<u8>,
    local_nonce: Seq<u8>,
    peer: PeerBinding,
    remote_nonce: Seq<u8>,
    t: PairingTranscript,
) -> bool {
    let mine = |p: PairingParticipant| p.identity == local && p.certificate_fingerprint@ == local_fingerprint
        && p.nonce@ == local_nonce;
    let theirs = |p: PairingParticipant| p.identity == peer.identity && p.certificate_fingerprint@
        == peer.certificate_fingerprint@ && p.nonce@ == remote_nonce;
    match role {
        PairingRole::Initiator => mine(t.initiator) && theirs(t.responder),
        PairingRole::Responder => theirs(t.initiator) && mine(t.responder),
    }
}

/// The transcript of an exchange in which this device plays `role`.
pub fn exchange_transcript(
    role: PairingRole,
    local: &DevicePublicIdentity,
    local_fingerprint: &[u8; 32],
    local_nonce: &[u8; 32],
    peer: &PeerBinding,
    remote_nonce: &[u8; 32],
) -> (result: Result<PairingTranscript, PairingFailure>)
    ensures
        match result {
            Ok(t) => participants_for(role, *local, local_fingerprint@, local_nonce@, *peer, remote_nonce@, t)
                && t.initiator.role == PairingRole::Initiator && t.responder.role == PairingRole::Responder
                && t.initiator.identity.public_key != t.responder.identity.public_key
                && t.protocol_version == crate::identity::PAIRING_PROTOCOL_VERSION
                && crate::identity::identity_matches(t.initiator) && crate::identity::identity_matches(t.responder),
            Err(f) => f == PairingFailure::InvalidTranscript && local.public_key == peer.identity.public_key,
        },
{
    let (initiator, responder) = match role {
        PairingRole::Initiator => (
            PairingParticipant::new(PairingRole::Initiator, DevicePublicIdentity { public_key: local.public_key }, *local_fingerprint, *local_nonce),
            PairingParticipant::new(PairingRole::Responder, DevicePublicIdentity { public_key: peer.identity.public_key }, peer.certificate_fingerprint, *remote_nonce),
        ),
        PairingRole::Responder => (
            PairingParticipant::new(PairingRole::Initiator, DevicePublicIdentity { public_key: peer.identity.public_key }, peer.certificate_fingerprint, *remote_nonce),
            PairingParticipant::new(PairingRole::Responder, DevicePublicIdentity { public_key: local.public_key }, *local_fingerprint, *local_nonce),
        ),
    };
    let ghost (i, r) = (initiator, responder);
    match PairingTranscript::new(initiator, responder) {
        Ok(t) => Ok(t),
        Err(_) => {
            assert(crate::identity::identity_matches(i) && crate::identity::identity_matches(r));
            Err(PairingFailure::InvalidTranscript)
        },
    }
}

/// The lower-case hexadecimal BLAKE3 digest of the transcript's canonical
/// bytes, as proofs name the transcript.
pub open spec fn transcript_hash_of(t: PairingTranscript) -> Seq<char> {
    hex_lower(blake3_digest(canonical_of(t)))
}

fn transcript_hash(t: &PairingTranscript) -> (hash: String)
    ensures
        hash@ == transcript_hash_of(*t),
{
    let bytes = t.canonical_bytes();
    let digest = crate::crypto::blake3_hash(bytes.as_slice());
    let hex = hex_encode(&digest);
    string_from_chars(&hex)
}

/// This device's proof over the transcript, and the frame that carries it
/// for `session_id`.
pub fn local_proof(identity: &DeviceIdentity, transcript: &PairingTranscript, session_id: [u8; 16]) -> (out: (PairingProof, ControlMessage))
    ensures
        out.0.public_key@ == crate::crypto::ed25519_public_key(identity@),
        out.0.signature@ == crate::crypto::ed25519_signature(identity@, crate::identity::proof_message(*transcript)),
        crate::crypto::ed25519_valid_key(out.0.public_key@),
        crate::crypto::ed25519_verifies(out.0.public_key@, crate::identity::proof_message(*transcript), out.0.signature@),
        out.1 matches ControlMessage::PairProof(p) && p.session_id == session_id
            && p.transcript_hash@ == transcript_hash_of(*transcript) && p.signature@ == hex_lower(out.0.signature@),
{
    let proof = identity.sign_pairing_transcript(transcript);
    let signature_hex = hex_encode(&proof.signature);
    let message = ControlMessage::PairProof(PairProof {
        session_id,
        transcript_hash: transcript_hash(transcript),
        signature: string_from_chars(&signature_hex),
    });
    (proof, message)
}

/// What the peer's proof gives, once both requests named `session_id`: the
/// peer's signature, when it is a proof for this session over this
/// transcript.
pub open spec fn proof_check(remote_session: [u8; 16], session_id: [u8; 16], message: ControlMessage, t: PairingTranscript) -> Result<Seq<u8>, PairingFailure> {
    match message {
        ControlMessage::PairProof(p) => if remote_session@ != session_id@ || p.session_id@ != session_id@
            || p.transcript_hash@ != transcript_hash_of(t) {
            Err(PairingFailure::ProofMismatch)
        } else {
            match hex_decoded(p.signature@) {
                Some(s) => if s.len() == 64 {
                    Ok(s)
                } else {
                    Err(PairingFailure::InvalidProof)
                },
                None => Err(PairingFailure::InvalidProof),
            }
        },
        _ => Err(PairingFailure::UnexpectedProofFrame),
    }
}

fn signature_array(v: &Vec<u8>) -> (a: [u8; 64])
    requires
        v@.len() == 64,
    ensures
        a@ == v@,
{
    let mut a = [0u8; 64];
    let mut i: usize = 0;
    while i < 64
        invariant
            i <= 64,
            v@.len() == 64,
            forall|j: int| 0 <= j < i ==> a@[j] == v@[j],
        decreases 64 - i,
    {
        a[i] = v[i];
        i = i + 1;
    }
    assert(a@ =~= v@);
    a
}

/// What finishing an exchange with both proofs `proofs` gives: the peer's
/// pin and the comparison code when both proofs verify and a code is
/// found; a verification failure otherwise.
#[verifier::opaque]
pub open spec fn exchange_outcome(
    result: Result<PairingExchange, PairingFailure>,
    transcript: PairingTranscript,
    proofs: Seq<PairingProof>,
    session_id: [u8; 16],
    remote_name: Seq<char>,
    peer: PeerBinding,
) -> bool {
    match result {
        Ok(x) => mutual_proofs_result(transcript, proofs) is Ok && (sas_search(sas_input_of(transcript, proofs), 0)
            matches Some(v) && x.sas@ == sas_text(v)) && x.session_id == session_id && x.remote_name@ == remote_name
            && x.peer.device_id@ == peer.device_id@ && x.peer.public_key@ == peer.identity.public_key@
            && x.peer.certificate_fingerprint@ == peer.certificate_fingerprint@,
        Err(f) => f == PairingFailure::VerificationFailed && (mutual_proofs_result(transcript, proofs) is Err
            || sas_search(sas_input_of(transcript, proofs), 0) is None),
    }
}

/// What finishing an exchange gives, as `finish_exchange` states it: the
/// failure `proof_check` names, or, for the peer's signature it reads, the
/// outcome of checking both proofs.
pub open spec fn finish_outcome(
    remote_session: [u8; 16],
    session_id: [u8; 16],
    remote_proof: ControlMessage,
    transcript: PairingTranscript,
    own_proof: PairingProof,
    peer: PeerBinding,
    remote_name: Seq<char>,
    result: Result<PairingExchange, PairingFailure>,
) -> bool {
    match proof_check(remote_session, session_id, remote_proof, transcript) {
        Err(f) => result == Err::<PairingExchange, PairingFailure>(f),
        Ok(sig) => exists|theirs: PairingProof|
            #![trigger theirs.signature]
            theirs.public_key == peer.identity.public_key && theirs.signature@ == sig && exchange_outcome(
                result,
                transcript,
                seq![own_proof, theirs],
                session_id,
                remote_name,
                peer,
            ),
    }
}

/// Finishes an exchange: checks the peer's proof frame, verifies both
/// proofs, and derives the comparison code.  `remote_session` is the
/// session the peer's request named; `session_id` is this exchange's.
pub fn finish_exchange(
    remote_session: [u8; 16],
    session_id: [u8; 16],
    remote_proof: &ControlMessage,
    transcript: &PairingTranscript,
    own_proof: PairingProof,
    peer: &PeerBinding,
    remote_name: String,
) -> (result: Result<PairingExchange, PairingFailure>)
    ensures
        finish_outcome(remote_session, session_id, *remote_proof, *transcript, own_proof, *peer, remote_name@, result),
{
    let signature = check_proof_frame(remote_session, session_id, remote_proof, transcript)?;
    let theirs = PairingProof { public_key: peer.identity.public_key, signature };
    let proofs = vec![own_proof, theirs];
    assert(proofs@ =~= seq![own_proof, theirs]);
    let ghost name = remote_name@;
    let result = match transcript.sas_if_derivable(proofs.as_slice()) {
        Some(Ok(code)) => Ok(PairingExchange {
            peer: TrustedPeerPin::from_binding(peer),
            sas: code.formatted(),
            session_id,
            remote_name,
        }),
        _ => Err(PairingFailure::VerificationFailed),
    };
    assert(exchange_outcome(result, *transcript, seq![own_proof, theirs], session_id, name, *peer)) by {
        reveal(exchange_outcome);
    }
    result
}

/// The peer's signature from its proof frame, as `proof_check` says.
fn check_proof_frame(remote_session: [u8; 16], session_id: [u8; 16], remote_proof: &ControlMessage, transcript: &PairingTranscript) -> (result: Result<[u8; 64], PairingFailure>)
    ensures
        match result {
            Ok(s) => proof_check(remote_session, session_id, *remote_proof, *transcript) == Ok::<Seq<u8>, PairingFailure>(s@),
            Err(f) => proof_check(remote_session, session_id, *remote_proof, *transcript) == Err::<Seq<u8>, PairingFailure>(f),
        },
{
    let p = match remote_proof {
        ControlMessage::PairProof(p) => p,
        _ => return Err(PairingFailure::UnexpectedProofFrame),
    };
    let expected_hash = transcript_hash(transcript);
    if !crate::bytes::bytes_equal(&remote_session, &session_id) || !crate::bytes::bytes_equal(&p.session_id, &session_id)
        || !crate::text::str_equal(p.transcript_hash.as_str(), expected_hash.as_str()) {
        return Err(PairingFailure::ProofMismatch);
    }
    let signature_chars = chars_of(p.signature.as_str());
    let bytes = match hex_decode(&signature_chars) {
        Some(bytes) => bytes,
        None => return Err(PairingFailure::InvalidProof),
    };
    if bytes.len() != 64 {
        return Err(PairingFailure::InvalidProof);
    }
    Ok(signature_array(&bytes))
}

/// Two devices that pair with each other build one transcript: when one
/// plays the initiator and the other the responder, each binding names the
/// other device's key and certificate, and each side's nonce is the one the
/// other received, both sides sign the same message, check the two proofs
/// alike, and derive the comparison code from the same input.
pub proof fn lemma_peers_agree(
    a: DevicePublicIdentity,
    a_fingerprint: Seq<u8>,
    a_nonce: Seq<u8>,
    b: DevicePublicIdentity,
    b_fingerprint: Seq<u8>,
    b_nonce: Seq<u8>,
    binding_of_a: PeerBinding,
    binding_of_b: PeerBinding,
    at_a: PairingTranscript,
    at_b: PairingTranscript,
    proof_of_a: PairingProof,
    proof_of_b: PairingProof,
)
    requires
        binding_of_a.identity == a && binding_of_a.certificate_fingerprint@ == a_fingerprint,
        binding_of_b.identity == b && binding_of_b.certificate_fingerprint@ == b_fingerprint,
        participants_for(PairingRole::Initiator, a, a_fingerprint, a_nonce, binding_of_b, b_nonce, at_a),
        participants_for(PairingRole::Responder, b, b_fingerprint, b_nonce, binding_of_a, a_nonce, at_b),
        at_a.initiator.role == PairingRole::Initiator && at_a.responder.role == PairingRole::Responder,
        at_b.initiator.role == PairingRole::Initiator && at_b.responder.role == PairingRole::Responder,
        at_a.protocol_version == at_b.protocol_version,
        crate::identity::identity_matches(at_a.initiator) && crate::identity::identity_matches(at_a.responder),
        crate::identity::identity_matches(at_b.initiator) && crate::identity::identity_matches(at_b.responder),
        proof_of_a.public_key@ != proof_of_b.public_key@,
    ensures
        canonical_of(at_a) == canonical_of(at_b),
        crate::identity::proof_message(at_a) == crate::identity::proof_message(at_b),
        mutual_proofs_result(at_a, seq![proof_of_a, proof_of_b]) == mutual_proofs_result(
            at_b,
            seq![proof_of_b, proof_of_a],
        ),
        sas_input_of(at_a, seq![proof_of_a, proof_of_b]) == sas_input_of(at_b, seq![proof_of_b, proof_of_a]),
{
    assert(at_a.initiator.device_id@ == at_b.initiator.device_id@);
    assert(at_a.responder.device_id@ == at_b.responder.device_id@);
    assert(crate::identity::participant_record(at_a.initiator) == crate::identity::participant_record(at_b.initiator));
    assert(crate::identity::participant_record(at_a.responder) == crate::identity::participant_record(at_b.responder));
    assert(canonical_of(at_a) == canonical_of(at_b));
    crate::identity::lemma_sas_ignores_proof_order(at_b, proof_of_a, proof_of_b);
    let pq = seq![proof_of_a, proof_of_b];
    assert(crate::identity::participant_proof_result(at_a.initiator, pq, crate::identity::proof_message(at_a))
        == crate::identity::participant_proof_result(at_b.initiator, pq, crate::identity::proof_message(at_b)));
    assert(crate::identity::participant_proof_result(at_a.responder, pq, crate::identity::proof_message(at_a))
        == crate::identity::participant_proof_result(at_b.responder, pq, crate::identity::proof_message(at_b)));
    assert(crate::identity::signers_known(at_a, pq) == crate::identity::signers_known(at_b, pq));
}

} // verus!
