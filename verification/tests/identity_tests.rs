use fileporter::identity::{
    DeviceIdentity, IdentityError, PairingError, PairingParticipant, PairingRole, PairingSession,
    PairingState, PairingTranscript,
};

fn identity(byte: u8) -> DeviceIdentity {
    DeviceIdentity::from_secret_bytes([byte; 32])
}

fn make_transcript() -> (DeviceIdentity, DeviceIdentity, PairingTranscript) {
    let initiator = identity(1);
    let responder = identity(2);
    let transcript = PairingTranscript::new(
        PairingParticipant::new(PairingRole::Initiator, initiator.public_identity(), [3; 32], [4; 32]),
        PairingParticipant::new(PairingRole::Responder, responder.public_identity(), [5; 32], [6; 32]),
    )
    .unwrap();
    (initiator, responder, transcript)
}

const SECOND: u128 = 1_000_000_000;

#[test]
fn deterministic_identity_vector() {
    assert_eq!(
        identity(1).public_identity().device_id(),
        "WQY23TGZFUYP3XKMZLELHUNMXNYETCQ7S54VSC5ZO6EFESEIKJ3Q"
    );
}

#[test]
fn secret_export_round_trips_without_debug() {
    let original = identity(7);
    let restored = DeviceIdentity::from_secret_bytes(original.export_secret_bytes());
    assert_eq!(original.public_identity(), restored.public_identity());
}

#[test]
fn signatures_verify_only_for_exact_domain_and_transcript() {
    let (a, _, transcript) = make_transcript();
    let proof = a.sign_pairing_transcript(&transcript);
    a.public_identity()
        .verify_domain_separated(
            b"fileporter/pairing-signature/v1",
            &transcript.canonical_bytes(),
            &proof.signature,
        )
        .unwrap();
    assert_eq!(
        a.public_identity().verify_domain_separated(
            b"wrong",
            &transcript.canonical_bytes(),
            &proof.signature
        ),
        Err(IdentityError::InvalidSignature)
    );
}

#[test]
fn canonical_transcript_is_role_aware_but_key_ordered() {
    let (a, b, original) = make_transcript();
    let reversed = PairingTranscript::new(
        PairingParticipant::new(PairingRole::Initiator, a.public_identity(), [3; 32], [4; 32]),
        PairingParticipant::new(PairingRole::Responder, b.public_identity(), [5; 32], [6; 32]),
    )
    .unwrap();
    assert_eq!(original.canonical_bytes(), reversed.canonical_bytes());
    let changed_role = PairingTranscript {
        protocol_version: 1,
        initiator: PairingParticipant::new(PairingRole::Responder, a.public_identity(), [3; 32], [4; 32]),
        responder: PairingParticipant::new(PairingRole::Initiator, b.public_identity(), [5; 32], [6; 32]),
    };
    assert_ne!(original.canonical_bytes(), changed_role.canonical_bytes());
}

#[test]
fn mutual_proofs_and_sas_are_deterministic_vectors() {
    let (a, b, transcript) = make_transcript();
    let proofs = vec![a.sign_pairing_transcript(&transcript), b.sign_pairing_transcript(&transcript)];
    transcript.verify_mutual_proofs(&proofs).unwrap();
    let sas = transcript.sas(&proofs).unwrap();
    assert_eq!(sas.formatted(), "286 126");
    assert_eq!(sas.value(), 286_126);
}

#[test]
fn tampered_nonce_role_and_signature_are_rejected() {
    let (a, b, mut transcript) = make_transcript();
    let proofs = vec![a.sign_pairing_transcript(&transcript), b.sign_pairing_transcript(&transcript)];
    transcript.initiator.nonce[0] ^= 1;
    assert_eq!(transcript.verify_mutual_proofs(&proofs), Err(IdentityError::InvalidSignature));
    let (a, b, transcript) = make_transcript();
    let mut proofs = vec![a.sign_pairing_transcript(&transcript), b.sign_pairing_transcript(&transcript)];
    proofs[0].signature[0] ^= 1;
    assert_eq!(transcript.verify_mutual_proofs(&proofs), Err(IdentityError::InvalidSignature));
}

#[test]
fn mismatched_device_id_and_unknown_proof_are_rejected() {
    let (a, b, mut transcript) = make_transcript();
    transcript.initiator.device_id = "wrong".into();
    assert_eq!(transcript.verify_mutual_proofs(&[]), Err(IdentityError::DeviceIdMismatch));
    let (_, _, transcript) = make_transcript();
    let mut proofs = vec![a.sign_pairing_transcript(&transcript), b.sign_pairing_transcript(&transcript)];
    proofs[1].public_key = [9; 32];
    assert_eq!(transcript.verify_mutual_proofs(&proofs), Err(IdentityError::IncompleteProofs));
}

#[test]
fn expiry_rejection_and_confirmation_transitions_are_terminal() {
    let now = 100 * SECOND;
    let mut session = PairingSession::new(now + 120 * SECOND);
    assert_eq!(session.confirm_local(now), Ok(PairingState::LocalConfirmed));
    assert_eq!(session.confirm_remote(now), Ok(PairingState::Confirmed));
    assert_eq!(session.confirm_local(now), Err(PairingError::InvalidState));
    let mut expired = PairingSession::new(now);
    assert_eq!(expired.confirm_local(now), Err(PairingError::Expired));
    let mut rejected = PairingSession::new(now + SECOND);
    rejected.reject();
    assert_eq!(rejected.confirm_remote(now), Err(PairingError::Rejected));
}

#[test]
fn sas_if_derivable_gives_the_same_code() {
    let (a, b, transcript) = make_transcript();
    let proofs = vec![a.sign_pairing_transcript(&transcript), b.sign_pairing_transcript(&transcript)];
    let sas = transcript.sas_if_derivable(&proofs).unwrap().unwrap();
    assert_eq!(sas.formatted(), "286 126");
    assert_eq!(transcript.sas_if_derivable(&proofs[..1]).unwrap(), Err(IdentityError::IncompleteProofs));
}

#[test]
fn a_session_expires_once_its_deadline_passes_and_stays_expired() {
    let mut session = PairingSession::new(10 * SECOND);
    assert_eq!(session.expire_if_needed(9 * SECOND), PairingState::Pending);
    assert_eq!(session.expire_if_needed(10 * SECOND), PairingState::Expired);
    assert_eq!(session.confirm_remote(11 * SECOND), Err(PairingError::Expired));
    assert_eq!(session.state(), PairingState::Expired);
}

#[test]
fn remote_then_local_confirmation_also_completes() {
    let mut session = PairingSession::new(10 * SECOND);
    assert_eq!(session.confirm_remote(SECOND), Ok(PairingState::RemoteConfirmed));
    assert_eq!(session.confirm_remote(SECOND), Err(PairingError::InvalidState));
    assert_eq!(session.confirm_local(2 * SECOND), Ok(PairingState::Confirmed));
    session.reject();
    assert_eq!(session.state(), PairingState::Rejected);
}
