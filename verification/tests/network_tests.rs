use fileporter::identity::{DeviceIdentity, IdentityError};
use fileporter::network::{
    admit_server_certificate, binding_extension, check_preface, check_remote_auth, client_authorization,
    incoming_frame_length, local_auth, local_hello, parse_binding, remote_nonce, restore_binding,
    server_authorization, session_transcript, verify_binding_signature, CertificateProblem, LocalCertificate,
    NetworkError, PeerBinding, SessionAuthorization, TrustMode, TrustedPeerPin,
};
use fileporter::protocol::{ControlMessage, Hello, ProtocolError};

const BINDING_OID: &[u64] = &[1, 3, 6, 1, 4, 1, 57264, 1, 1];

fn certificate_for(identity: &DeviceIdentity) -> (Vec<u8>, Vec<u8>, Vec<u8>) {
    let key = rcgen::KeyPair::generate_for(&rcgen::PKCS_ED25519).unwrap();
    let tls_public = key.public_key_raw().to_vec();
    let extension = binding_extension(identity, &tls_public);
    let mut params = rcgen::CertificateParams::new(vec!["fileporter.local".to_string()]).unwrap();
    params.custom_extensions.push(rcgen::CustomExtension::from_oid_content(BINDING_OID, extension));
    let certificate = params.self_signed(&key).unwrap();
    (certificate.der().to_vec(), key.serialize_der(), tls_public)
}

fn binding(seed: u8) -> (DeviceIdentity, Vec<u8>, PeerBinding) {
    let identity = DeviceIdentity::from_secret_bytes([seed; 32]);
    let (der, _, _) = certificate_for(&identity);
    let binding = parse_binding(&der).unwrap();
    (identity, der, binding)
}

#[test]
fn certificate_binding_tampering_is_rejected() {
    let identity = DeviceIdentity::from_secret_bytes([7; 32]);
    let (der, _, tls_public) = certificate_for(&identity);
    let binding = parse_binding(&der).unwrap();
    let extension = binding_extension(&identity, &tls_public);
    let public_key: [u8; 32] = extension[..32].try_into().unwrap();
    let mut signature: [u8; 64] = extension[32..].try_into().unwrap();
    assert!(verify_binding_signature(public_key, signature, &tls_public).is_ok());
    signature[0] ^= 1;
    assert!(verify_binding_signature(public_key, signature, &tls_public).is_err());
    let mut pin = TrustedPeerPin::from_binding(&binding);
    assert!(pin.matches(&binding));
    pin.certificate_fingerprint[0] ^= 1;
    assert!(!pin.matches(&binding));
}

#[test]
fn a_bound_certificate_names_its_identity() {
    let (identity, der, binding) = binding(1);
    assert_eq!(binding.identity, identity.public_identity());
    assert_eq!(binding.device_id, identity.public_identity().device_id());
    assert_eq!(binding.certificate_fingerprint, *blake3::hash(&der).as_bytes());
}

#[test]
fn certificates_without_a_binding_or_not_der_are_refused() {
    assert_eq!(parse_binding(b"not a certificate"), Err(NetworkError::Certificate(CertificateProblem::InvalidDer)));
    let key = rcgen::KeyPair::generate_for(&rcgen::PKCS_ED25519).unwrap();
    let params = rcgen::CertificateParams::new(vec!["fileporter.local".to_string()]).unwrap();
    let der = params.self_signed(&key).unwrap().der().to_vec();
    assert_eq!(parse_binding(&der), Err(NetworkError::Certificate(CertificateProblem::MissingIdentityBinding)));
}

#[test]
fn a_binding_for_another_tls_key_is_refused() {
    let identity = DeviceIdentity::from_secret_bytes([3; 32]);
    let key = rcgen::KeyPair::generate_for(&rcgen::PKCS_ED25519).unwrap();
    let extension = binding_extension(&identity, &[0u8; 32]);
    let mut params = rcgen::CertificateParams::new(vec!["fileporter.local".to_string()]).unwrap();
    params.custom_extensions.push(rcgen::CustomExtension::from_oid_content(BINDING_OID, extension));
    let der = params.self_signed(&key).unwrap().der().to_vec();
    assert_eq!(parse_binding(&der), Err(NetworkError::Identity(IdentityError::InvalidSignature)));
}

#[test]
fn trust_modes_authorize_as_documented() {
    let (_, der, peer) = binding(4);
    let (_, _, other) = binding(5);
    assert_eq!(client_authorization(&TrustMode::Pairing, &peer), Ok(SessionAuthorization::PairingOnly));
    let pin = TrustedPeerPin::from_binding(&peer);
    assert_eq!(client_authorization(&TrustMode::Trusted(pin.clone()), &peer), Ok(SessionAuthorization::Trusted));
    assert_eq!(client_authorization(&TrustMode::Trusted(pin.clone()), &other), Err(NetworkError::PinMismatch));
    assert_eq!(server_authorization(&pin, &peer), Ok(SessionAuthorization::Trusted));
    assert_eq!(server_authorization(&pin, &other), Err(NetworkError::PinMismatch));
    assert!(admit_server_certificate(&TrustMode::Trusted(pin.clone()), &der).is_ok());
    let wrong = TrustedPeerPin::from_binding(&other);
    assert_eq!(admit_server_certificate(&TrustMode::Trusted(wrong), &der), Err(NetworkError::PinMismatch));
}

#[test]
fn restored_certificates_must_belong_to_the_identity_and_key() {
    let identity = DeviceIdentity::from_secret_bytes([6; 32]);
    let (der, _, tls_public) = certificate_for(&identity);
    assert!(restore_binding(&identity, &der, &Ok(tls_public.clone())).is_ok());
    assert_eq!(
        restore_binding(&identity, &der, &Ok(vec![0u8; 32])),
        Err(NetworkError::Certificate(CertificateProblem::KeyMismatch))
    );
    let stranger = DeviceIdentity::from_secret_bytes([8; 32]);
    assert_eq!(
        restore_binding(&stranger, &der, &Ok(tls_public)),
        Err(NetworkError::Certificate(CertificateProblem::ForeignIdentity))
    );
    assert_eq!(
        restore_binding(&identity, &der, &Err("bad key".to_string())),
        Err(NetworkError::Certificate(CertificateProblem::External("bad key".to_string())))
    );
}

#[test]
fn protocol_preface_mismatch_is_rejected() {
    assert_eq!(check_preface(b"NOTFILEPORTER"), Err(NetworkError::ProtocolMismatch));
    assert_eq!(check_preface(b"FILEPORTER\0\0\x01"), Ok(()));
}

#[test]
fn both_ends_compute_the_same_transcript() {
    let a = [1u8; 32];
    let b = [2u8; 32];
    let na = [3u8; 32];
    let nb = [4u8; 32];
    let left = session_transcript(&a, &b, &na, &nb);
    let right = session_transcript(&b, &a, &nb, &na);
    assert_eq!(left, right);
    assert_eq!(&left[..37], b"fileporter/session-auth-transcript/v1");
    assert_eq!(&left[37..69], &a);
    assert_eq!(&left[69..101], &na);
}

#[test]
fn hello_and_auth_round_trip_between_peers() {
    let (identity, _, peer) = binding(9);
    let nonce = [0xabu8; 32];
    let hello = local_hello(&peer.device_id, &nonce);
    match &hello {
        ControlMessage::Hello(h) => {
            assert_eq!(h.display_name, "Fileporter");
            assert_eq!(h.session_nonce, "ab".repeat(32));
            assert_eq!(h.capabilities, vec!["pairing".to_string(), "transfer".to_string()]);
        }
        _ => panic!("not a hello"),
    }
    assert_eq!(remote_nonce(&hello, &peer), Ok(nonce));
    let transcript = session_transcript(&peer.identity.public_key, &[1; 32], &nonce, &[2; 32]);
    let auth = local_auth(&identity, &transcript);
    assert_eq!(check_remote_auth(&auth, &transcript, &peer), Ok(()));
    let mut other = transcript.clone();
    other[0] ^= 1;
    assert_eq!(check_remote_auth(&auth, &other, &peer), Err(NetworkError::UnexpectedMessage));
}

#[test]
fn hellos_for_other_devices_or_versions_are_refused() {
    let (_, _, peer) = binding(10);
    let wrong_device = ControlMessage::Hello(Hello {
        protocol_min: 1,
        protocol_max: 1,
        device_id: "someone".into(),
        display_name: "x".into(),
        session_nonce: "00".repeat(32),
        capabilities: vec![],
    });
    assert_eq!(remote_nonce(&wrong_device, &peer), Err(NetworkError::ProtocolMismatch));
    let short_nonce = ControlMessage::Hello(Hello {
        protocol_min: 1,
        protocol_max: 2,
        device_id: peer.device_id.clone(),
        display_name: "x".into(),
        session_nonce: "00".into(),
        capabilities: vec![],
    });
    assert_eq!(remote_nonce(&short_nonce, &peer), Err(NetworkError::ProtocolMismatch));
}

#[test]
fn frame_headers_are_checked_before_allocation() {
    assert_eq!(incoming_frame_length(&[1, 0, 0, 0, 5]), Ok(5));
    assert_eq!(
        incoming_frame_length(&[1, 0, 0x10, 0, 1]),
        Err(NetworkError::Protocol(ProtocolError::OversizedFrame { actual: 1048577, limit: 1048576 }))
    );
    assert_eq!(incoming_frame_length(&[7, 0, 0, 0, 0]), Err(NetworkError::Protocol(ProtocolError::UnknownFrameKind(7))));
    assert_eq!(incoming_frame_length(&[2, 0, 0x10, 0, 76]), Ok(1048652));
}

#[test]
fn generated_local_certificate_restores_from_its_stored_parts() {
    let identity = DeviceIdentity::from_secret_bytes([11; 32]);
    let local = LocalCertificate::generate(&identity).unwrap();
    assert_eq!(local.binding().identity, identity.public_identity());
    assert_eq!(local.fingerprint(), *blake3::hash(&local.certificate_der()).as_bytes());
    assert_eq!(local.identity_for_pairing().public_identity(), identity.public_identity());
    let (certificate, key) = local.persisted_der();
    assert_eq!(certificate, local.certificate_der());
    let restored = LocalCertificate::from_persisted_der(&identity, certificate.clone(), key.clone()).unwrap();
    assert_eq!(restored.binding(), local.binding());
    assert_eq!(restored.persisted_der(), (certificate, key));
}

#[test]
fn stored_local_certificate_must_match_identity_and_key() {
    let identity = DeviceIdentity::from_secret_bytes([12; 32]);
    let (certificate, key) = LocalCertificate::generate(&identity).unwrap().persisted_der();
    let (_, other_key) = LocalCertificate::generate(&identity).unwrap().persisted_der();
    let stranger = DeviceIdentity::from_secret_bytes([13; 32]);
    assert_eq!(
        LocalCertificate::from_persisted_der(&stranger, certificate.clone(), key.clone()).err(),
        Some(NetworkError::Certificate(CertificateProblem::ForeignIdentity))
    );
    assert_eq!(
        LocalCertificate::from_persisted_der(&identity, certificate.clone(), other_key).err(),
        Some(NetworkError::Certificate(CertificateProblem::KeyMismatch))
    );
    assert!(matches!(
        LocalCertificate::from_persisted_der(&identity, certificate, vec![1, 2, 3]).err(),
        Some(NetworkError::Certificate(CertificateProblem::External(_)))
    ));
    assert!(LocalCertificate::from_persisted_der(&identity, vec![0x30, 0x00], key).is_err());
}
