use fileporter::error::AppError;
use fileporter::identity::{DeviceIdentity, PairingSession, PairingState};
use fileporter::network::TrustedPeerPin;
use fileporter::pairing::{
    confirm_step, decode_tls_secret, encode_tls_secret, is_normalized_sas_code, new_authenticated_pairing,
    new_pending_pairing, restore_session, trusted_peer_from, trusted_view, validate_fingerprint, validate_sas_code,
    validate_text, view, visible_pairings, ConfirmationStep,
};
use fileporter::pairing::{commit_step, CommitStep};
use fileporter::records::TrustedPeer;
use fileporter::records::PendingPairing;

fn invalid(field: &'static str) -> AppError {
    AppError::Validation { code: "invalid_pairing", message: "The pairing request is invalid.", field: Some(field) }
}

#[test]
fn tls_secrets_round_trip_and_reject_truncation() {
    let value = (vec![1, 2, 3], vec![9, 8]);
    let encoded = encode_tls_secret(&value);
    assert_eq!(encoded, vec![0, 0, 0, 3, 1, 2, 3, 9, 8]);
    assert_eq!(decode_tls_secret(&encoded).unwrap(), value);
    assert_eq!(decode_tls_secret(&[0, 0, 0, 3, 1, 2, 3]), Err(AppError::IdentityStorageInvalid));
    assert_eq!(decode_tls_secret(&[0, 0]), Err(AppError::IdentityStorageInvalid));
}

#[test]
fn comparison_codes_are_three_digits_space_three_digits() {
    assert!(is_normalized_sas_code("286 126"));
    assert!(!is_normalized_sas_code("286126"));
    assert!(!is_normalized_sas_code("28a 126"));
    assert!(!is_normalized_sas_code("286-126"));
    assert_eq!(validate_sas_code("286 126").unwrap(), "286 126");
    assert_eq!(validate_sas_code("x"), Err(invalid("sasCode")));
}

#[test]
fn texts_and_fingerprints_are_normalized() {
    assert_eq!(validate_text("  Desk  ", "remoteName").unwrap(), "Desk");
    assert_eq!(validate_text(" ", "remoteName"), Err(invalid("remoteName")));
    assert!(validate_text(&"x".repeat(129), "remoteName").is_err());
    let hex = "AB".repeat(32);
    assert_eq!(validate_fingerprint(&format!(" blake3:{hex} ")).unwrap(), format!("blake3:{}", "ab".repeat(32)));
    assert_eq!(validate_fingerprint(&hex).unwrap(), format!("blake3:{}", "ab".repeat(32)));
    assert_eq!(validate_fingerprint("blake3:00"), Err(invalid("certificateFingerprint")));
}

#[test]
fn requests_are_validated_and_recorded_for_two_minutes() {
    let own = DeviceIdentity::from_secret_bytes([1; 32]).public_identity().public_key;
    let remote = DeviceIdentity::from_secret_bytes([2; 32]).public_identity();
    let fingerprint = format!("blake3:{}", "0f".repeat(32));
    let pairing = new_pending_pairing("Desk", &remote.public_key.to_vec(), &fingerprint, &own, 1000, 77).unwrap();
    assert_eq!(pairing.device_id, remote.device_id());
    assert_eq!(pairing.id, format!("pairing-{}-77", remote.device_id()));
    assert_eq!(pairing.expires_at, 1120);
    assert_eq!(pairing.sas_code, None);
    assert_eq!(new_pending_pairing("Desk", &own.to_vec(), &fingerprint, &own, 1000, 77), Err(invalid("publicKey")));
    assert_eq!(new_pending_pairing("Desk", &vec![1; 31], &fingerprint, &own, 1000, 77), Err(invalid("publicKey")));
    assert_eq!(new_pending_pairing("", &remote.public_key.to_vec(), &fingerprint, &own, 1000, 77), Err(invalid("remoteName")));
}

fn authenticated() -> PendingPairing {
    let pin = TrustedPeerPin { device_id: "DEV".into(), public_key: [3; 32], certificate_fingerprint: [0xab; 32] };
    new_authenticated_pairing("Laptop", &pin, "123 456", false, 50, 9).unwrap()
}

#[test]
fn authenticated_requests_record_the_code_and_refuse_known_devices() {
    let pairing = authenticated();
    assert_eq!(pairing.certificate_fingerprint, format!("blake3:{}", "ab".repeat(32)));
    assert_eq!(pairing.sas_code.as_deref(), Some("123 456"));
    let pin = TrustedPeerPin { device_id: "DEV".into(), public_key: [3; 32], certificate_fingerprint: [0xab; 32] };
    assert_eq!(new_authenticated_pairing("Laptop", &pin, "123 456", true, 50, 9), Err(invalid("publicKey")));
    assert_eq!(new_authenticated_pairing("Laptop", &pin, "123456", false, 50, 9), Err(invalid("sasCode")));
}

#[test]
fn trust_is_committed_only_after_both_confirmations() {
    let pairing = authenticated();
    let mut session = restore_session(&pairing).unwrap().unwrap();
    let now = 60 * 1_000_000_000;
    assert_eq!(confirm_step(&pairing, &mut session, now, true), ConfirmationStep::Recorded);
    assert_eq!(confirm_step(&pairing, &mut session, now, true), ConfirmationStep::Invalid);
    assert_eq!(confirm_step(&pairing, &mut session, now, false), ConfirmationStep::Completed);
    let peer = trusted_peer_from(&pairing, 61);
    assert!(peer.auto_send);
    assert_eq!(peer.paired_at, 61);
    assert_eq!(trusted_view(&peer).certificate_fingerprint_short, "blake3:ababababa");
}

#[test]
fn expired_or_codeless_pairings_cannot_be_confirmed() {
    let pairing = authenticated();
    let mut session = PairingSession::new(100);
    assert_eq!(confirm_step(&pairing, &mut session, 100, true), ConfirmationStep::Expired);
    let mut codeless = pairing.clone();
    codeless.sas_code = None;
    let mut fresh = PairingSession::new(100);
    assert_eq!(confirm_step(&codeless, &mut fresh, 1, true), ConfirmationStep::Invalid);
    assert_eq!(fresh.state(), PairingState::Pending);
}

#[test]
fn malformed_stored_codes_are_hidden_and_not_restored() {
    let good = authenticated();
    let mut bad = good.clone();
    bad.id = "bad".into();
    bad.sas_code = Some("nope".into());
    let mut legacy = good.clone();
    legacy.id = "legacy".into();
    legacy.sas_code = None;
    assert!(restore_session(&bad).unwrap().is_none());
    let shown = visible_pairings(&vec![good.clone(), bad, legacy]);
    assert_eq!(shown.iter().map(|v| v.id.clone()).collect::<Vec<_>>(), vec![good.id.clone(), "legacy".to_string()]);
    assert_eq!(view(&good).sas_code.as_deref(), Some("123 456"));
}

#[test]
fn restored_sessions_replay_their_confirmations() {
    let mut pairing = authenticated();
    pairing.local_confirmed = true;
    let session = restore_session(&pairing).unwrap().unwrap();
    assert_eq!(session.state(), PairingState::LocalConfirmed);
    pairing.created_at = pairing.expires_at;
    assert_eq!(restore_session(&pairing).unwrap_err(), invalid("pairingId"));
}

fn stored_pairing(expires_at: i64, local: bool, remote: bool) -> PendingPairing {
    PendingPairing {
        id: "expired-transaction".into(),
        device_id: "peer-7".into(),
        public_key: vec![7; 32],
        certificate_fingerprint: "sha256:expired".into(),
        remote_name: "Expired".into(),
        created_at: 1,
        expires_at,
        local_confirmed: local,
        remote_confirmed: remote,
        sas_code: None,
    }
}

fn committed_peer() -> TrustedPeer {
    TrustedPeer {
        device_id: "peer-7".into(),
        public_key: vec![7; 32],
        certificate_fingerprint: "sha256:expired".into(),
        remote_name: "Expired".into(),
        local_alias: None,
        paired_at: 2,
        last_seen_at: None,
        auto_send: false,
        revoked_at: None,
        endpoint: None,
    }
}

#[test]
fn confirmation_transaction_refuses_an_expired_persisted_record() {
    assert_eq!(commit_step(&Some(stored_pairing(2, false, false)), &committed_peer(), 2), CommitStep::DiscardExpired);
}

#[test]
fn commits_need_the_row_both_confirmations_and_the_same_device() {
    let peer = committed_peer();
    assert_eq!(commit_step(&Some(stored_pairing(10, true, true)), &peer, 2), CommitStep::Commit);
    assert_eq!(commit_step(&Some(stored_pairing(10, true, false)), &peer, 2), CommitStep::Refuse(invalid("pairingId")));
    let mut other = peer.clone();
    other.public_key = vec![8; 32];
    assert_eq!(commit_step(&Some(stored_pairing(10, true, true)), &other, 2), CommitStep::Refuse(invalid("pairingId")));
    assert_eq!(
        commit_step(&None, &peer, 2),
        CommitStep::Refuse(AppError::Validation {
            code: "pairing_not_found",
            message: "That pairing request is no longer available.",
            field: Some("pairingId")
        })
    );
}

#[test]
fn pairing_without_authenticated_proof_cannot_be_confirmed() {
    let own = DeviceIdentity::from_secret_bytes([1; 32]).public_identity().public_key;
    let remote = DeviceIdentity::from_secret_bytes([2; 32]).public_identity();
    let fingerprint = format!("blake3:{}", "0f".repeat(32));
    let pending = new_pending_pairing("Desk", &remote.public_key.to_vec(), &fingerprint, &own, 1000, 77).unwrap();
    assert_eq!(pending.sas_code, None);
    let mut session = PairingSession::new(2_000_000_000_000);
    assert_eq!(confirm_step(&pending, &mut session, 1_000_000_000_000, true), ConfirmationStep::Invalid);
    assert_eq!(session.state(), PairingState::Pending);
}
