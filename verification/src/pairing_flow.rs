//! The pairing exchange as each device runs it, as a state machine.  The
//! initiator sends its request first and reads the peer's; the responder
//! reads the peer's request first, adopts the session it names, and
//! answers with its own request for that session.  Both then build the
//! transcript and sign it; the initiator sends its proof before reading the
//! peer's, the responder reads the peer's proof before sending its own.
//! Sending and reading frames is the caller's; every decision is here.
use crate::crypto::{blake3_digest, ed25519_public_key, ed25519_signature};
use crate::identity::{proof_message, DeviceIdentity, DevicePublicIdentity, PairingProof, PairingRole, PairingTranscript};
use crate::network::{LocalCertificate, PeerBinding};
use crate::pairing_exchange::{
    check_pair_request, exchange_transcript, finish_exchange, finish_outcome, local_proof, pairing_request,
    participants_for, request_check, transcript_hash_of, PairingExchange, PairingFailure,
};
use crate::protocol::{ControlMessage, PairRequest};
use crate::text::{hex_lower, trimmed};
use vstd::prelude::*;

verus! {

/// What a device brings to an exchange: the identity that signs, its public
/// half and the fingerprint of its certificate, the peer's binding read
/// from the authenticated session, the name it announces and its nonce.
pub struct PairingSetup {
    pub identity: DeviceIdentity,
    pub local: DevicePublicIdentity,
    pub fingerprint: [u8; 32],
    pub peer: PeerBinding,
    pub device_name: String,
    pub nonce: [u8; 32],
}

impl PairingSetup {
    /// The setup of a device whose credential is `local`.
    pub fn new(local: &LocalCertificate, peer: PeerBinding, device_name: &str, nonce: [u8; 32]) -> (setup: Self)
        ensures
            setup.identity@ == local.identity_bytes(),
            setup.local == local.bound().identity,
            setup_keyed(setup),
            setup.fingerprint@ == blake3_digest(local.certificate_bytes()),
            setup.peer == peer,
            setup.device_name@ == device_name@,
            setup.nonce == nonce,
    {
        let binding = local.binding();
        let public = DevicePublicIdentity { public_key: binding.identity.public_key };
        PairingSetup {
            identity: local.identity_for_pairing(),
            local: public,
            fingerprint: local.fingerprint(),
            peer,
            device_name: device_name.to_owned(),
            nonce,
        }
    }
}

/// The setup's public identity is that of the identity that signs.
pub open spec fn setup_keyed(setup: PairingSetup) -> bool {
    setup.local.public_key@ == ed25519_public_key(setup.identity@)
}

/// Where an exchange stands.
pub enum ExchangeState {
    /// The initiator's request for `session_id` is being sent.
    Requesting { setup: PairingSetup, session_id: [u8; 16] },
    /// Waiting for the peer's request.
    AwaitRequest { role: PairingRole, setup: PairingSetup, session_id: [u8; 16] },
    /// The responder answers the request `remote` with its own request for
    /// the session `remote` names.
    Answering { setup: PairingSetup, remote: PairRequest },
    /// The initiator's proof over `transcript` is being sent.
    Proving {
        setup: PairingSetup,
        session_id: [u8; 16],
        remote: PairRequest,
        transcript: PairingTranscript,
        own_proof: PairingProof,
    },
    /// Waiting for the peer's proof; the responder still holds the frame of
    /// its own proof, which it sends once the peer's has arrived.
    AwaitProof {
        role: PairingRole,
        setup: PairingSetup,
        session_id: [u8; 16],
        remote: PairRequest,
        transcript: PairingTranscript,
        own_proof: PairingProof,
        own_frame: Option<ControlMessage>,
    },
    /// The responder's proof is being sent; `result` is what the exchange
    /// gives.
    Closing { result: Result<PairingExchange, PairingFailure> },
    /// The exchange is over.
    Over,
}

/// What happened since the last step.
pub enum ExchangeEvent {
    /// The frame of the last `Send` was written.
    Sent,
    /// A frame was read.
    Frame(ControlMessage),
    /// The stream failed.
    Broken,
}

/// What the caller does next.
pub enum ExchangeAction {
    /// Write this frame, then report `Sent`.
    Send(ControlMessage),
    /// Read a frame, then report it.
    Read,
    /// The exchange is over with this outcome.
    Finish(Result<PairingExchange, PairingFailure>),
    /// The exchange stops without an outcome of its own: the stream failed,
    /// or an event came that the state does not wait for.
    Abort,
}

/// `m` is the request a device with `name` and `nonce` sends for `session_id`.
pub open spec fn request_for(m: ControlMessage, session_id: [u8; 16], name: Seq<char>, nonce: Seq<u8>) -> bool {
    m matches ControlMessage::PairRequest(r) && r.session_id == session_id && r.device_name@ == name
        && r.nonce@ == hex_lower(nonce) && r.expires_at@ == "120"@
}

/// `m` is the frame of the proof `p` over `t` for `session_id`.
pub open spec fn proof_frame_for(m: ControlMessage, session_id: [u8; 16], t: PairingTranscript, p: PairingProof) -> bool {
    m matches ControlMessage::PairProof(f) && f.session_id == session_id && f.transcript_hash@ == transcript_hash_of(t)
        && f.signature@ == hex_lower(p.signature@)
}

/// `t` is the transcript of an exchange in which the device of `setup`
/// plays `role` and the peer's nonce is `remote_nonce`, and `p` is that
/// device's proof over it.
pub open spec fn signed_transcript(
    role: PairingRole,
    setup: PairingSetup,
    remote_nonce: Seq<u8>,
    t: PairingTranscript,
    p: PairingProof,
) -> bool {
    &&& participants_for(role, setup.local, setup.fingerprint@, setup.nonce@, setup.peer, remote_nonce, t)
    &&& t.initiator.role == PairingRole::Initiator && t.responder.role == PairingRole::Responder
    &&& t.initiator.identity.public_key != t.responder.identity.public_key
    &&& t.protocol_version == crate::identity::PAIRING_PROTOCOL_VERSION
    &&& crate::identity::identity_matches(t.initiator) && crate::identity::identity_matches(t.responder)
    &&& p.public_key@ == ed25519_public_key(setup.identity@)
    &&& p.signature@ == ed25519_signature(setup.identity@, proof_message(t))
    &&& crate::crypto::ed25519_valid_key(p.public_key@)
    &&& crate::crypto::ed25519_verifies(p.public_key@, proof_message(t), p.signature@)
}

/// What follows the peer's request `remote` once the device of `setup`,
/// playing `role` in the exchange `session_id`, has it: the failure the
/// request check names; a transcript failure when both sides hold one key;
/// otherwise the signed transcript, whose proof frame names the session
/// `remote` names.  The initiator sends that frame now; the responder holds
/// it and reads the peer's proof first.
pub open spec fn after_request(
    role: PairingRole,
    setup: PairingSetup,
    session_id: [u8; 16],
    remote: PairRequest,
    next: (ExchangeState, ExchangeAction),
) -> bool {
    match request_check(ControlMessage::PairRequest(remote)) {
        Err(f) => next.0 is Over && next.1 == ExchangeAction::Finish(Err(f)),
        Ok(remote_nonce) => if setup.local.public_key == setup.peer.identity.public_key {
            next.0 is Over && next.1 == ExchangeAction::Finish(Err(PairingFailure::InvalidTranscript))
        } else {
            match role {
                PairingRole::Initiator => next.0 matches ExchangeState::Proving { setup: s, session_id: id, remote: r, transcript, own_proof }
                    && (s == setup && id == session_id && r == remote && signed_transcript(role, setup, remote_nonce, transcript, own_proof)
                    && (next.1 matches ExchangeAction::Send(m) && proof_frame_for(m, remote.session_id, transcript, own_proof))),
                PairingRole::Responder => {
                    &&& next.0 matches ExchangeState::AwaitProof { role: q, setup: s, session_id: id, remote: r, transcript, own_proof, own_frame }
                        && (q == role && s == setup && id == session_id && r == remote
                        && signed_transcript(role, setup, remote_nonce, transcript, own_proof)
                        && (own_frame matches Some(m) && proof_frame_for(m, remote.session_id, transcript, own_proof)))
                    &&& next.1 is Read
                },
            }
        },
    }
}

/// What a step does.
pub open spec fn exchange_moves(s: ExchangeState, e: ExchangeEvent, next: (ExchangeState, ExchangeAction)) -> bool {
    match e {
        ExchangeEvent::Broken => next.0 is Over && next.1 is Abort,
        ExchangeEvent::Sent => match s {
            ExchangeState::Requesting { setup, session_id } => next.0 == (ExchangeState::AwaitRequest {
                role: PairingRole::Initiator,
                setup,
                session_id,
            }) && next.1 is Read,
            ExchangeState::Answering { setup, remote } => after_request(PairingRole::Responder, setup, remote.session_id, remote, next),
            ExchangeState::Proving { setup, session_id, remote, transcript, own_proof } => next.0 == (ExchangeState::AwaitProof {
                role: PairingRole::Initiator,
                setup,
                session_id,
                remote,
                transcript,
                own_proof,
                own_frame: None,
            }) && next.1 is Read,
            ExchangeState::Closing { result } => next.0 is Over && next.1 == ExchangeAction::Finish(result),
            _ => next.0 is Over && next.1 is Abort,
        },
        ExchangeEvent::Frame(m) => match s {
            ExchangeState::AwaitRequest { role, setup, session_id } => match m {
                ControlMessage::PairRequest(r) => match role {
                    PairingRole::Initiator => after_request(role, setup, session_id, r, next),
                    PairingRole::Responder => {
                        &&& next.0 == (ExchangeState::Answering { setup, remote: r })
                        &&& next.1 matches ExchangeAction::Send(answer) && request_for(answer, r.session_id, setup.device_name@, setup.nonce@)
                    },
                },
                _ => next.0 is Over && next.1 == ExchangeAction::Finish(Err(PairingFailure::UnexpectedRequestFrame)),
            },
            ExchangeState::AwaitProof { role, setup, session_id, remote, transcript, own_proof, own_frame } => match role {
                PairingRole::Initiator => next.0 is Over && (next.1 matches ExchangeAction::Finish(result) && finish_outcome(
                    remote.session_id,
                    session_id,
                    m,
                    transcript,
                    own_proof,
                    setup.peer,
                    remote.device_name@,
                    result,
                )),
                PairingRole::Responder => match own_frame {
                    Some(f) => next.0 matches ExchangeState::Closing { result } && finish_outcome(
                        remote.session_id,
                        session_id,
                        m,
                        transcript,
                        own_proof,
                        setup.peer,
                        remote.device_name@,
                        result,
                    ) && next.1 == ExchangeAction::Send(f),
                    None => next.0 is Over && next.1 is Abort,
                },
            },
            _ => next.0 is Over && next.1 is Abort,
        },
    }
}

/// How a device starts the exchange `session_id` in `role`: the initiator
/// sends its request; the responder reads the peer's first.
pub fn exchange_start(role: PairingRole, setup: PairingSetup, session_id: [u8; 16]) -> (next: (ExchangeState, ExchangeAction))
    ensures
        role == PairingRole::Initiator ==> next.0 == (ExchangeState::Requesting { setup, session_id })
            && (next.1 matches ExchangeAction::Send(m) && request_for(m, session_id, setup.device_name@, setup.nonce@)),
        role == PairingRole::Responder ==> next.0 == (ExchangeState::AwaitRequest { role, setup, session_id })
            && next.1 is Read,
{
    match role {
        PairingRole::Initiator => {
            let request = pairing_request(session_id, setup.device_name.as_str(), &setup.nonce);
            (ExchangeState::Requesting { setup, session_id }, ExchangeAction::Send(request))
        },
        PairingRole::Responder => (ExchangeState::AwaitRequest { role, setup, session_id }, ExchangeAction::Read),
    }
}

fn take_request(role: PairingRole, setup: PairingSetup, session_id: [u8; 16], remote: PairRequest) -> (next: (
    ExchangeState,
    ExchangeAction,
))
    ensures
        after_request(role, setup, session_id, remote, next),
{
    let ghost received = remote;
    let message = ControlMessage::PairRequest(remote);
    let remote_nonce = match check_pair_request(&message) {
        Ok(n) => n,
        Err(f) => return (ExchangeState::Over, ExchangeAction::Finish(Err(f))),
    };
    let remote = match message {
        ControlMessage::PairRequest(r) => r,
        _ => return (ExchangeState::Over, ExchangeAction::Abort),
    };
    assert(remote == received);
    let transcript = match exchange_transcript(role, &setup.local, &setup.fingerprint, &setup.nonce, &setup.peer, &remote_nonce) {
        Ok(t) => t,
        Err(f) => return (ExchangeState::Over, ExchangeAction::Finish(Err(f))),
    };
    let (own_proof, frame) = local_proof(&setup.identity, &transcript, remote.session_id);
    match role {
        PairingRole::Initiator => (
            ExchangeState::Proving { setup, session_id, remote, transcript, own_proof },
            ExchangeAction::Send(frame),
        ),
        PairingRole::Responder => (
            ExchangeState::AwaitProof { role, setup, session_id, remote, transcript, own_proof, own_frame: Some(frame) },
            ExchangeAction::Read,
        ),
    }
}

/// One step of an exchange, as `exchange_moves` says.
pub fn exchange_step(state: ExchangeState, event: ExchangeEvent) -> (next: (ExchangeState, ExchangeAction))
    ensures
        exchange_moves(state, event, next),
{
    match event {
        ExchangeEvent::Broken => (ExchangeState::Over, ExchangeAction::Abort),
        ExchangeEvent::Sent => match state {
            ExchangeState::Requesting { setup, session_id } => (
                ExchangeState::AwaitRequest { role: PairingRole::Initiator, setup, session_id },
                ExchangeAction::Read,
            ),
            ExchangeState::Answering { setup, remote } => {
                let session_id = remote.session_id;
                take_request(PairingRole::Responder, setup, session_id, remote)
            },
            ExchangeState::Proving { setup, session_id, remote, transcript, own_proof } => (
                ExchangeState::AwaitProof {
                    role: PairingRole::Initiator,
                    setup,
                    session_id,
                    remote,
                    transcript,
                    own_proof,
                    own_frame: None,
                },
                ExchangeAction::Read,
            ),
            ExchangeState::Closing { result } => (ExchangeState::Over, ExchangeAction::Finish(result)),
            _ => (ExchangeState::Over, ExchangeAction::Abort),
        },
        ExchangeEvent::Frame(m) => match state {
            ExchangeState::AwaitRequest { role, setup, session_id } => match m {
                ControlMessage::PairRequest(r) => match role {
                    PairingRole::Initiator => take_request(role, setup, session_id, r),
                    PairingRole::Responder => {
                        let answer = pairing_request(r.session_id, setup.device_name.as_str(), &setup.nonce);
                        (ExchangeState::Answering { setup, remote: r }, ExchangeAction::Send(answer))
                    },
                },
                _ => (ExchangeState::Over, ExchangeAction::Finish(Err(PairingFailure::UnexpectedRequestFrame))),
            },
            ExchangeState::AwaitProof { role, setup, session_id, remote, transcript, own_proof, own_frame } => {
                let remote_session = remote.session_id;
                match role {
                    PairingRole::Initiator => {
                        let result = finish_exchange(
                            remote_session,
                            session_id,
                            &m,
                            &transcript,
                            own_proof,
                            &setup.peer,
                            remote.device_name,
                        );
                        (ExchangeState::Over, ExchangeAction::Finish(result))
                    },
                    PairingRole::Responder => match own_frame {
                        Some(f) => {
                            let result = finish_exchange(
                                remote_session,
                                session_id,
                                &m,
                                &transcript,
                                own_proof,
                                &setup.peer,
                                remote.device_name,
                            );
                            (ExchangeState::Closing { result }, ExchangeAction::Send(f))
                        },
                        None => (ExchangeState::Over, ExchangeAction::Abort),
                    },
                }
            },
            _ => (ExchangeState::Over, ExchangeAction::Abort),
        },
    }
}

/// The responder adopts the session the peer's request names: it answers
/// that request with its own request for the same session, and keeps the
/// request it answered.
pub proof fn lemma_responder_adopts_session(s: ExchangeState, r: PairRequest, next: (ExchangeState, ExchangeAction))
    requires
        s matches ExchangeState::AwaitRequest { role, .. } && role == PairingRole::Responder,
        exchange_moves(s, ExchangeEvent::Frame(ControlMessage::PairRequest(r)), next),
    ensures
        next.1 matches ExchangeAction::Send(m) && (m matches ControlMessage::PairRequest(a) && a.session_id == r.session_id),
        next.0 matches ExchangeState::Answering { remote, .. } && remote == r,
{
}

/// A responder's exchange runs in the session of the request it answered:
/// once the answer is sent, the state it waits for the peer's proof in
/// names that session, and its proof frame too.
pub proof fn lemma_responder_keeps_session(s: ExchangeState, next: (ExchangeState, ExchangeAction))
    requires
        s is Answering,
        exchange_moves(s, ExchangeEvent::Sent, next),
    ensures
        next.0 matches ExchangeState::AwaitProof { session_id, remote, own_frame, .. } ==> {
            &&& s matches ExchangeState::Answering { remote: answered, .. } && remote == answered
            &&& session_id == remote.session_id
            &&& own_frame matches Some(f) && (f matches ControlMessage::PairProof(p) && p.session_id == session_id)
        },
{
}

/// An exchange succeeds only in one session: the exchange it gives names
/// the session of the state, and the peer's request named that session too.
pub proof fn lemma_success_names_session(s: ExchangeState, m: ControlMessage, next: (ExchangeState, ExchangeAction))
    requires
        exchange_moves(s, ExchangeEvent::Frame(m), next),
    ensures
        s matches ExchangeState::AwaitProof { session_id, remote, .. } ==> {
            let result = match next.1 {
                ExchangeAction::Finish(r) => r,
                _ => match next.0 {
                    ExchangeState::Closing { result } => result,
                    _ => Err(PairingFailure::VerificationFailed),
                },
            };
            result matches Ok(x) ==> x.session_id == session_id && remote.session_id@ == session_id@
        },
{
    reveal(crate::pairing_exchange::exchange_outcome);
}

/// Two devices running the exchange against each other, each reading what
/// the other sends, end in the session the initiator chose: the responder's
/// answer names it, and each side that finishes with an exchange names it.
pub proof fn lemma_peers_share_session(
    setup_i: PairingSetup,
    setup_r: PairingSetup,
    session_i: [u8; 16],
    session_r: [u8; 16],
    request: ControlMessage,
    answer: ControlMessage,
    proof_i: ControlMessage,
    proof_r: ControlMessage,
    i2: ExchangeState,
    i3: ExchangeState,
    i4: ExchangeState,
    i5: ExchangeState,
    r2: ExchangeState,
    r3: ExchangeState,
    r4: ExchangeState,
    r5: ExchangeState,
    result_i: Result<PairingExchange, PairingFailure>,
    result_r: Result<PairingExchange, PairingFailure>,
)
    requires
        request_for(request, session_i, setup_i.device_name@, setup_i.nonce@),
        exchange_moves(
            ExchangeState::AwaitRequest { role: PairingRole::Responder, setup: setup_r, session_id: session_r },
            ExchangeEvent::Frame(request),
            (r2, ExchangeAction::Send(answer)),
        ),
        exchange_moves(
            ExchangeState::Requesting { setup: setup_i, session_id: session_i },
            ExchangeEvent::Sent,
            (i2, ExchangeAction::Read),
        ),
        exchange_moves(i2, ExchangeEvent::Frame(answer), (i3, ExchangeAction::Send(proof_i))),
        exchange_moves(r2, ExchangeEvent::Sent, (r3, ExchangeAction::Read)),
        exchange_moves(i3, ExchangeEvent::Sent, (i4, ExchangeAction::Read)),
        exchange_moves(r3, ExchangeEvent::Frame(proof_i), (r4, ExchangeAction::Send(proof_r))),
        exchange_moves(r4, ExchangeEvent::Sent, (r5, ExchangeAction::Finish(result_r))),
        exchange_moves(i4, ExchangeEvent::Frame(proof_r), (i5, ExchangeAction::Finish(result_i))),
    ensures
        answer matches ControlMessage::PairRequest(a) && a.session_id == session_i,
        result_i matches Ok(x) ==> x.session_id == session_i,
        result_r matches Ok(y) ==> y.session_id == session_i,
{
    reveal(crate::pairing_exchange::exchange_outcome);
    lemma_success_names_session(r3, proof_i, (r4, ExchangeAction::Send(proof_r)));
    lemma_success_names_session(i4, proof_r, (i5, ExchangeAction::Finish(result_i)));
}

/// A name the peer's request check accepts: not blank, at most 128 bytes.
pub open spec fn name_acceptable(name: Seq<char>) -> bool {
    trimmed(name).len() != 0 && vstd::utf8::encode_utf8(name).len() <= 128
}

/// Two devices that pair with each other honestly reach one outcome: when
/// each binding names the other device's key and certificate, each side's
/// public identity is that of the identity that signs, the two keys differ
/// and both names pass the request check, then both sides succeed in the
/// initiator's session with one comparison code, each naming the other,
/// or, when no code is found, both fail the proof verification alike.
#[verifier::rlimit(60)]
pub proof fn lemma_peers_reach_one_outcome(
    setup_i: PairingSetup,
    setup_r: PairingSetup,
    session_i: [u8; 16],
    session_r: [u8; 16],
    request: ControlMessage,
    answer: ControlMessage,
    proof_i: ControlMessage,
    proof_r: ControlMessage,
    i2: ExchangeState,
    i3: ExchangeState,
    i4: ExchangeState,
    i5: ExchangeState,
    r2: ExchangeState,
    r3: ExchangeState,
    r4: ExchangeState,
    r5: ExchangeState,
    result_i: Result<PairingExchange, PairingFailure>,
    result_r: Result<PairingExchange, PairingFailure>,
)
    requires
        setup_keyed(setup_i),
        setup_keyed(setup_r),
        setup_i.peer.identity == setup_r.local,
        setup_i.peer.certificate_fingerprint@ == setup_r.fingerprint@,
        setup_r.peer.identity == setup_i.local,
        setup_r.peer.certificate_fingerprint@ == setup_i.fingerprint@,
        setup_i.local.public_key != setup_r.local.public_key,
        name_acceptable(setup_i.device_name@),
        name_acceptable(setup_r.device_name@),
        request_for(request, session_i, setup_i.device_name@, setup_i.nonce@),
        exchange_moves(
            ExchangeState::AwaitRequest { role: PairingRole::Responder, setup: setup_r, session_id: session_r },
            ExchangeEvent::Frame(request),
            (r2, ExchangeAction::Send(answer)),
        ),
        exchange_moves(
            ExchangeState::Requesting { setup: setup_i, session_id: session_i },
            ExchangeEvent::Sent,
            (i2, ExchangeAction::Read),
        ),
        exchange_moves(i2, ExchangeEvent::Frame(answer), (i3, ExchangeAction::Send(proof_i))),
        exchange_moves(r2, ExchangeEvent::Sent, (r3, ExchangeAction::Read)),
        exchange_moves(i3, ExchangeEvent::Sent, (i4, ExchangeAction::Read)),
        exchange_moves(r3, ExchangeEvent::Frame(proof_i), (r4, ExchangeAction::Send(proof_r))),
        exchange_moves(r4, ExchangeEvent::Sent, (r5, ExchangeAction::Finish(result_r))),
        exchange_moves(i4, ExchangeEvent::Frame(proof_r), (i5, ExchangeAction::Finish(result_i))),
    ensures
        result_i is Ok <==> result_r is Ok,
        result_i matches Ok(x) ==> (result_r matches Ok(y) && x.sas@ == y.sas@ && x.session_id == session_i
            && y.session_id == session_i && x.remote_name@ == setup_r.device_name@ && y.remote_name@
            == setup_i.device_name@),
        result_i is Err ==> result_i == Err::<PairingExchange, PairingFailure>(PairingFailure::VerificationFailed)
            && result_r == Err::<PairingExchange, PairingFailure>(PairingFailure::VerificationFailed),
{
    reveal(crate::pairing_exchange::exchange_outcome);
    let q = request->PairRequest_0;
    crate::text::lemma_hex_round_trip(setup_i.nonce@);
    crate::text::lemma_hex_round_trip(setup_r.nonce@);
    let a = answer->PairRequest_0;
    assert(request_check(ControlMessage::PairRequest(a)) == Ok::<Seq<u8>, PairingFailure>(setup_r.nonce@));
    assert(request_check(ControlMessage::PairRequest(q)) == Ok::<Seq<u8>, PairingFailure>(setup_i.nonce@));
    assert(setup_i.local.public_key != setup_i.peer.identity.public_key);
    assert(setup_r.local.public_key != setup_r.peer.identity.public_key);
    let t_i = i3->Proving_transcript;
    let p_i = i3->Proving_own_proof;
    let t_r = r3->AwaitProof_transcript;
    let p_r = r3->AwaitProof_own_proof;
    assert(p_i.public_key@ != p_r.public_key@) by {
        if p_i.public_key@ == p_r.public_key@ {
            assert(setup_i.local.public_key =~= setup_r.local.public_key);
        }
    }
    crate::pairing_exchange::lemma_peers_agree(
        setup_i.local,
        setup_i.fingerprint@,
        setup_i.nonce@,
        setup_r.local,
        setup_r.fingerprint@,
        setup_r.nonce@,
        setup_r.peer,
        setup_i.peer,
        t_i,
        t_r,
        p_i,
        p_r,
    );
    crate::text::lemma_hex_round_trip(p_i.signature@);
    crate::text::lemma_hex_round_trip(p_r.signature@);
    assert(crate::pairing_exchange::proof_check(session_i, session_i, proof_i, t_r) == Ok::<Seq<u8>, PairingFailure>(
        p_i.signature@,
    ));
    assert(crate::pairing_exchange::proof_check(a.session_id, session_i, proof_r, t_i) == Ok::<Seq<u8>, PairingFailure>(
        p_r.signature@,
    ));
    let result_r2 = r4->Closing_result;
    let theirs_r = choose|theirs: PairingProof|
        #![trigger theirs.signature]
        theirs.public_key == setup_r.peer.identity.public_key && theirs.signature@ == p_i.signature@
            && crate::pairing_exchange::exchange_outcome(result_r2, t_r, seq![p_r, theirs], session_i, q.device_name@, setup_r.peer);
    assert(theirs_r.public_key =~= p_i.public_key);
    assert(theirs_r.signature =~= p_i.signature);
    assert(theirs_r == p_i);
    let theirs_i = choose|theirs: PairingProof|
        #![trigger theirs.signature]
        theirs.public_key == setup_i.peer.identity.public_key && theirs.signature@ == p_r.signature@
            && crate::pairing_exchange::exchange_outcome(result_i, t_i, seq![p_i, theirs], session_i, a.device_name@, setup_i.peer);
    assert(theirs_i.public_key =~= p_r.public_key);
    assert(theirs_i.signature =~= p_r.signature);
    assert(theirs_i == p_r);
    let pq = seq![p_i, p_r];
    reveal_with_fuel(crate::identity::find_proof, 3);
    assert(pq.drop_first() =~= seq![p_r]);
    assert(crate::identity::find_proof(pq, t_i.initiator.identity.public_key@) == Some(p_i));
    assert(crate::identity::find_proof(pq, t_i.responder.identity.public_key@) == Some(p_r));
    assert(crate::identity::signers_known(t_i, pq));
    assert(crate::identity::mutual_proofs_result(t_i, pq) is Ok);
}

} // verus!
