use fileporter::engine::{IpAddress, SocketAddress};
use fileporter::network::TrustedPeerPin;
use fileporter::pairing_service::{
    discovered_identity_matches, outgoing_pairing_allowed, ChannelAction, ChannelEvent, ConfirmationChannel,
    PairingAdmission, MAX_PAIRING_SESSIONS,
};
use fileporter::protocol::{ControlMessage, PairConfirmed, PairRejected, Ping};

fn mapped(a: u8, b: u8, c: u8, d: u8) -> IpAddress {
    let mut o = [0u8; 16];
    o[10] = 0xff;
    o[11] = 0xff;
    o[12] = a;
    o[13] = b;
    o[14] = c;
    o[15] = d;
    IpAddress::V6(o)
}

#[test]
fn each_address_may_run_two_pairings_and_all_of_them_sixteen() {
    let mut admission = PairingAdmission::new();
    let lan = IpAddress::V4([192, 168, 1, 9]);
    assert!(admission.admit_incoming(lan, 0));
    assert!(admission.admit_incoming(mapped(192, 168, 1, 9), 0));
    assert_eq!(admission.from_source(lan), 2);
    assert!(!admission.admit_incoming(lan, 0));
    assert_eq!(admission.queued(), 2);
    admission.release_incoming(mapped(192, 168, 1, 9));
    assert_eq!(admission.from_source(lan), 1);
    assert!(admission.admit_incoming(lan, 0));
    admission.release_incoming(lan);
    admission.release_incoming(lan);
    assert_eq!(admission.from_source(lan), 0);
    assert_eq!(admission.queued(), 0);
    assert!(!admission.admit_incoming(lan, MAX_PAIRING_SESSIONS));
    for i in 0..16u8 {
        assert!(admission.admit_authenticated(0) || i >= 16);
    }
    assert_eq!(admission.queued(), 16);
    assert!(!admission.admit_authenticated(0));
    assert!(!admission.admit_incoming(IpAddress::V4([10, 0, 0, 1]), 0));
    admission.release_authenticated();
    assert!(admission.admit_incoming(IpAddress::V4([10, 0, 0, 1]), 0));
}

#[test]
fn outgoing_pairings_need_a_private_endpoint_and_room() {
    let lan = SocketAddress { ip: IpAddress::V4([192, 168, 1, 9]), port: 4242 };
    assert!(outgoing_pairing_allowed(lan, 0));
    assert!(!outgoing_pairing_allowed(lan, MAX_PAIRING_SESSIONS));
    assert!(!outgoing_pairing_allowed(SocketAddress { ip: IpAddress::V4([8, 8, 8, 8]), port: 4242 }, 0));
    assert!(!outgoing_pairing_allowed(SocketAddress { ip: IpAddress::V4([192, 168, 1, 9]), port: 0 }, 0));
}

#[test]
fn a_discovered_identity_must_match_the_proved_one() {
    let pin = TrustedPeerPin { device_id: "dev".into(), public_key: [1; 32], certificate_fingerprint: [0xab; 32] };
    let announced = format!("blake3:{}", "AB".repeat(32));
    assert!(discovered_identity_matches(&pin, "dev", &announced));
    assert!(!discovered_identity_matches(&pin, "other", &announced));
    assert!(!discovered_identity_matches(&pin, "dev", &"ab".repeat(32)));
    assert!(!discovered_identity_matches(&pin, "dev", &format!("blake3:{}", "ac".repeat(32))));
}

#[test]
fn the_confirmation_channel_closes_quietly_only_after_both_confirm() {
    let session = [3u8; 16];
    let mut channel = ConfirmationChannel::new(session);
    assert_eq!(channel.step(&ChannelEvent::Sent { confirms: false }), ChannelAction::Continue);
    assert_eq!(
        channel.step(&ChannelEvent::Received(ControlMessage::PairConfirmed(PairConfirmed { session_id: session }))),
        ChannelAction::RecordRemoteConfirmation
    );
    assert_eq!(channel.step(&ChannelEvent::RemoteConfirmationRecorded), ChannelAction::Continue);
    assert_eq!(channel.step(&ChannelEvent::Sent { confirms: true }), ChannelAction::Close);
    assert!(channel.local_confirmation_sent && channel.remote_confirmed);

    let mut channel = ConfirmationChannel::new(session);
    assert_eq!(channel.step(&ChannelEvent::Sent { confirms: true }), ChannelAction::Continue);
    assert_eq!(channel.step(&ChannelEvent::RemoteConfirmationRecorded), ChannelAction::Close);
}

#[test]
fn confirmations_for_other_sessions_reject_the_pairing() {
    let mut channel = ConfirmationChannel::new([3; 16]);
    assert_eq!(
        channel.step(&ChannelEvent::Received(ControlMessage::PairConfirmed(PairConfirmed { session_id: [4; 16] }))),
        ChannelAction::RejectAndClose
    );
    assert_eq!(
        channel.step(&ChannelEvent::Received(ControlMessage::PairRejected(PairRejected {
            session_id: [3; 16],
            reason_code: "user".into()
        }))),
        ChannelAction::RejectAndClose
    );
    assert_eq!(
        channel.step(&ChannelEvent::Received(ControlMessage::Ping(Ping { nonce: "x".into() }))),
        ChannelAction::RejectAndClose
    );
    assert_eq!(channel.step(&ChannelEvent::ReceiveFailed), ChannelAction::RejectAndClose);
    assert_eq!(channel.step(&ChannelEvent::Cancelled), ChannelAction::RejectAndClose);
    assert_eq!(channel.step(&ChannelEvent::SendFailed), ChannelAction::Close);
    assert_eq!(channel.step(&ChannelEvent::RemoteConfirmationRefused), ChannelAction::Close);
    assert!(!channel.remote_confirmed && !channel.local_confirmation_sent);
}
