use fileporter::identity::{DeviceIdentity, PairingRole};
use fileporter::network::PeerBinding;
use fileporter::pairing_exchange::{
    check_pair_request, exchange_transcript, finish_exchange, local_proof, pairing_request, PairingFailure,
};
use fileporter::protocol::{ControlMessage, PairProof, PairRequest};

struct Side {
    identity: DeviceIdentity,
    fingerprint: [u8; 32],
    nonce: [u8; 32],
}

fn side(seed: u8) -> Side {
    Side { identity: DeviceIdentity::from_secret_bytes([seed; 32]), fingerprint: [seed + 100; 32], nonce: [seed + 50; 32] }
}

fn binding_of(s: &Side) -> PeerBinding {
    let public = s.identity.public_identity();
    PeerBinding { device_id: public.device_id(), identity: public, certificate_fingerprint: s.fingerprint }
}

#[test]
fn both_sides_derive_the_same_code_and_pin_each_other() {
    let a = side(1);
    let b = side(2);
    let session = [9u8; 16];
    let request_a = pairing_request(session, "Desk", &a.nonce);
    let request_b = pairing_request(session, "Laptop", &b.nonce);
    let ControlMessage::PairRequest(ref r) = request_a else { panic!() };
    assert_eq!(r.nonce, hex::encode(a.nonce));
    assert_eq!(r.expires_at, "120");
    assert_eq!(check_pair_request(&request_b).unwrap(), b.nonce);
    assert_eq!(check_pair_request(&request_a).unwrap(), a.nonce);
    let t_a = exchange_transcript(PairingRole::Initiator, &a.identity.public_identity(), &a.fingerprint, &a.nonce, &binding_of(&b), &b.nonce).unwrap();
    let t_b = exchange_transcript(PairingRole::Responder, &b.identity.public_identity(), &b.fingerprint, &b.nonce, &binding_of(&a), &a.nonce).unwrap();
    assert_eq!(t_a, t_b);
    let (proof_a, message_a) = local_proof(&a.identity, &t_a, session);
    let (proof_b, message_b) = local_proof(&b.identity, &t_b, session);
    let ControlMessage::PairProof(ref p) = message_a else { panic!() };
    assert_eq!(p.transcript_hash, blake3::hash(&t_a.canonical_bytes()).to_hex().to_string());
    assert_eq!(p.signature, hex::encode(proof_a.signature));
    let done_a = finish_exchange(session, session, &message_b, &t_a, proof_a, &binding_of(&b), "Laptop".into()).unwrap();
    let done_b = finish_exchange(session, session, &message_a, &t_b, proof_b, &binding_of(&a), "Desk".into()).unwrap();
    assert_eq!(done_a.sas, done_b.sas);
    assert_eq!(done_a.sas.len(), 7);
    assert_eq!(&done_a.sas[3..4], " ");
    assert_eq!(done_a.peer.device_id, b.identity.public_identity().device_id());
    assert_eq!(done_a.peer.certificate_fingerprint, b.fingerprint);
    assert_eq!(done_b.peer.public_key, a.identity.public_identity().public_key);
    assert_eq!(done_a.remote_name, "Laptop");
}

#[test]
fn malformed_requests_are_refused() {
    let nonce = [7u8; 32];
    let base = PairRequest { session_id: [1; 16], device_name: "Desk".into(), nonce: hex::encode(nonce), expires_at: "120".into() };
    let mut blank = base.clone();
    blank.device_name = "  ".into();
    assert_eq!(check_pair_request(&ControlMessage::PairRequest(blank)), Err(PairingFailure::InvalidRequest));
    let mut long = base.clone();
    long.device_name = "x".repeat(129);
    assert_eq!(check_pair_request(&ControlMessage::PairRequest(long)), Err(PairingFailure::InvalidRequest));
    let mut expiry = base.clone();
    expiry.expires_at = "60".into();
    assert_eq!(check_pair_request(&ControlMessage::PairRequest(expiry)), Err(PairingFailure::InvalidRequest));
    let mut short = base.clone();
    short.nonce = hex::encode([7u8; 31]);
    assert_eq!(check_pair_request(&ControlMessage::PairRequest(short)), Err(PairingFailure::InvalidNonce));
    let mut bad = base.clone();
    bad.nonce = "zz".into();
    assert_eq!(check_pair_request(&ControlMessage::PairRequest(bad)), Err(PairingFailure::InvalidNonce));
    assert_eq!(
        check_pair_request(&ControlMessage::PairProof(PairProof { session_id: [1; 16], transcript_hash: String::new(), signature: String::new() })),
        Err(PairingFailure::UnexpectedRequestFrame)
    );
    assert_eq!(PairingFailure::InvalidNonce.message(), "invalid pairing nonce");
}

#[test]
fn replayed_tampered_or_forged_proofs_never_pair() {
    let a = side(3);
    let b = side(4);
    let session = [5u8; 16];
    let t = exchange_transcript(PairingRole::Initiator, &a.identity.public_identity(), &a.fingerprint, &a.nonce, &binding_of(&b), &b.nonce).unwrap();
    let (proof_a, _) = local_proof(&a.identity, &t, session);
    let (_, message_b) = local_proof(&b.identity, &t, session);
    assert_eq!(
        finish_exchange([6; 16], session, &message_b, &t, proof_a.clone(), &binding_of(&b), "B".into()),
        Err(PairingFailure::ProofMismatch)
    );
    let (_, other_session) = local_proof(&b.identity, &t, [6; 16]);
    assert_eq!(
        finish_exchange(session, session, &other_session, &t, proof_a.clone(), &binding_of(&b), "B".into()),
        Err(PairingFailure::ProofMismatch)
    );
    let ControlMessage::PairProof(mut forged) = message_b.clone() else { panic!() };
    forged.signature = hex::encode([0u8; 64]);
    assert_eq!(
        finish_exchange(session, session, &ControlMessage::PairProof(forged.clone()), &t, proof_a.clone(), &binding_of(&b), "B".into()),
        Err(PairingFailure::VerificationFailed)
    );
    forged.signature = "00".into();
    assert_eq!(
        finish_exchange(session, session, &ControlMessage::PairProof(forged), &t, proof_a.clone(), &binding_of(&b), "B".into()),
        Err(PairingFailure::InvalidProof)
    );
    assert_eq!(
        finish_exchange(session, session, &pairing_request(session, "B", &b.nonce), &t, proof_a, &binding_of(&b), "B".into()),
        Err(PairingFailure::UnexpectedProofFrame)
    );
    let same = binding_of(&a);
    assert_eq!(
        exchange_transcript(PairingRole::Initiator, &a.identity.public_identity(), &a.fingerprint, &a.nonce, &same, &b.nonce),
        Err(PairingFailure::InvalidTranscript)
    );
}

#[test]
fn proof_order_never_changes_whether_a_code_is_derived() {
    let a = side(5);
    let b = side(6);
    let session = [2u8; 16];
    let t = exchange_transcript(PairingRole::Initiator, &a.identity.public_identity(), &a.fingerprint, &a.nonce, &binding_of(&b), &b.nonce).unwrap();
    let (proof_a, _) = local_proof(&a.identity, &t, session);
    let (proof_b, _) = local_proof(&b.identity, &t, session);
    let forward = t.sas_if_derivable(&[proof_a.clone(), proof_b.clone()]).unwrap().unwrap();
    let backward = t.sas_if_derivable(&[proof_b.clone(), proof_a.clone()]).unwrap().unwrap();
    assert_eq!(forward, backward);
    let mut forged = proof_a.clone();
    forged.signature = [0u8; 64];
    assert!(t.verify_mutual_proofs(&[proof_a.clone(), forged.clone()]).is_err());
    assert!(t.verify_mutual_proofs(&[forged.clone(), proof_a.clone()]).is_err());
    assert!(matches!(t.sas_if_derivable(&[proof_a.clone(), proof_a.clone()]), Some(Err(_))));
    assert!(matches!(t.sas_if_derivable(&[forged, proof_a]), Some(Err(_))));
}

#[test]
fn hexadecimal_text_decodes_back_to_its_bytes() {
    let bytes: Vec<u8> = vec![0x00, 0x0f, 0xa5, 0xff, 0x10];
    let text = fileporter::text::hex_encode(&bytes);
    assert_eq!(text.iter().collect::<String>(), "000fa5ff10");
    assert_eq!(fileporter::text::hex_decode(&text), Some(bytes));
    assert_eq!(fileporter::text::hex_decode(&"0".chars().collect()), None);
}
