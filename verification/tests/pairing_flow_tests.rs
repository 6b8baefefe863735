use std::collections::VecDeque;

use fileporter::identity::{DeviceIdentity, PairingRole};
use fileporter::network::{LocalCertificate, TrustedPeerPin};
use fileporter::pairing_exchange::{PairingExchange, PairingFailure};
use fileporter::pairing_flow::{exchange_start, exchange_step, ExchangeAction, ExchangeEvent, ExchangeState, PairingSetup};
use fileporter::protocol::{ControlMessage, PairProof};

type Outcome = Result<PairingExchange, PairingFailure>;

struct Peer {
    state: Option<ExchangeState>,
    action: Option<ExchangeAction>,
    inbox: VecDeque<ControlMessage>,
    outcome: Option<Outcome>,
}

impl Peer {
    fn new(start: (ExchangeState, ExchangeAction)) -> Peer {
        Peer { state: Some(start.0), action: Some(start.1), inbox: VecDeque::new(), outcome: None }
    }

    /// Performs the pending action; returns the frame written, if any.
    fn turn(&mut self, tamper: &dyn Fn(ControlMessage) -> ControlMessage) -> Option<ControlMessage> {
        let action = self.action.take()?;
        let state = self.state.take().unwrap();
        match action {
            ExchangeAction::Send(message) => {
                let (s, a) = exchange_step(state, ExchangeEvent::Sent);
                self.state = Some(s);
                self.action = Some(a);
                Some(tamper(message))
            }
            ExchangeAction::Read => {
                match self.inbox.pop_front() {
                    Some(message) => {
                        let (s, a) = exchange_step(state, ExchangeEvent::Frame(message));
                        self.state = Some(s);
                        self.action = Some(a);
                    }
                    None => {
                        self.state = Some(state);
                        self.action = Some(ExchangeAction::Read);
                    }
                }
                None
            }
            ExchangeAction::Finish(outcome) => {
                self.outcome = Some(outcome);
                None
            }
            ExchangeAction::Abort => panic!("exchange aborted"),
        }
    }
}

fn run(initiator: &mut Peer, responder: &mut Peer, tamper_answer: &dyn Fn(ControlMessage) -> ControlMessage) {
    let keep = |m: ControlMessage| m;
    for _ in 0..64 {
        if let Some(m) = initiator.turn(&keep) {
            responder.inbox.push_back(m);
        }
        if let Some(m) = responder.turn(tamper_answer) {
            initiator.inbox.push_back(m);
        }
        if initiator.outcome.is_some() && responder.outcome.is_some() {
            return;
        }
    }
}

fn credentials(seed: u8) -> LocalCertificate {
    LocalCertificate::generate(&DeviceIdentity::from_secret_bytes([seed; 32])).unwrap()
}

fn start(role: PairingRole, local: &LocalCertificate, peer: &LocalCertificate, name: &str, nonce: u8, session: [u8; 16]) -> Peer {
    let setup = PairingSetup::new(local, peer.binding().clone(), name, [nonce; 32]);
    Peer::new(exchange_start(role, setup, session))
}

#[test]
fn two_peer_pairing_has_matching_sas_and_never_authorizes_transfer() {
    let left = credentials(31);
    let right = credentials(32);
    let mut client = start(PairingRole::Initiator, &left, &right, "Left", 1, [7; 16]);
    let mut server = start(PairingRole::Responder, &right, &left, "Right", 2, [8; 16]);
    run(&mut client, &mut server, &|m| m);
    let server = server.outcome.unwrap().unwrap();
    let client = client.outcome.unwrap().unwrap();
    assert_eq!(server.sas, client.sas);
    assert_eq!(server.session_id, client.session_id);
    assert_eq!(server.peer, TrustedPeerPin::from_binding(left.binding()));
    assert_eq!(client.peer, TrustedPeerPin::from_binding(right.binding()));
}

#[test]
fn both_sides_finish_in_the_initiators_session_naming_each_other() {
    let left = credentials(41);
    let right = credentials(42);
    let mut client = start(PairingRole::Initiator, &left, &right, "Left", 3, [1; 16]);
    let mut server = start(PairingRole::Responder, &right, &left, "Right", 4, [2; 16]);
    run(&mut client, &mut server, &|m| m);
    let server = server.outcome.unwrap().unwrap();
    let client = client.outcome.unwrap().unwrap();
    assert_eq!(client.session_id, [1; 16]);
    assert_eq!(server.session_id, [1; 16]);
    assert_eq!(client.remote_name, "Right");
    assert_eq!(server.remote_name, "Left");
    assert_eq!(client.sas.len(), 7);
    assert_eq!(&client.sas[3..4], " ");
}

#[test]
fn responder_answers_for_the_requested_session() {
    let left = credentials(51);
    let right = credentials(52);
    let (_, request) = exchange_start(
        PairingRole::Initiator,
        PairingSetup::new(&left, right.binding().clone(), "Left", [5; 32]),
        [3; 16],
    );
    let ExchangeAction::Send(request) = request else { panic!("the initiator sends first") };
    let (state, read) = exchange_start(
        PairingRole::Responder,
        PairingSetup::new(&right, left.binding().clone(), "Right", [6; 32]),
        [4; 16],
    );
    assert!(matches!(read, ExchangeAction::Read));
    let (state, answer) = exchange_step(state, ExchangeEvent::Frame(request));
    assert!(matches!(state, ExchangeState::Answering { .. }));
    let ExchangeAction::Send(ControlMessage::PairRequest(answer)) = answer else { panic!("the responder answers") };
    assert_eq!(answer.session_id, [3; 16]);
    assert_eq!(answer.device_name, "Right");
    assert_eq!(answer.nonce, hex::encode([6u8; 32]));
    assert_eq!(answer.expires_at, "120");
}

#[test]
fn responder_refuses_a_frame_that_is_not_a_request() {
    let left = credentials(61);
    let right = credentials(62);
    let (state, _) = exchange_start(
        PairingRole::Responder,
        PairingSetup::new(&right, left.binding().clone(), "Right", [6; 32]),
        [4; 16],
    );
    let proof = ControlMessage::PairProof(PairProof { session_id: [4; 16], transcript_hash: "00".into(), signature: "00".into() });
    let (state, action) = exchange_step(state, ExchangeEvent::Frame(proof));
    assert!(matches!(state, ExchangeState::Over));
    assert!(matches!(action, ExchangeAction::Finish(Err(PairingFailure::UnexpectedRequestFrame))));
}

#[test]
fn an_answer_for_another_session_fails_the_initiator() {
    let left = credentials(71);
    let right = credentials(72);
    let mut client = start(PairingRole::Initiator, &left, &right, "Left", 7, [1; 16]);
    let mut server = start(PairingRole::Responder, &right, &left, "Right", 8, [2; 16]);
    let other_session = |m: ControlMessage| match m {
        ControlMessage::PairRequest(mut r) => {
            r.session_id = [9; 16];
            ControlMessage::PairRequest(r)
        }
        other => other,
    };
    run(&mut client, &mut server, &other_session);
    assert_eq!(client.outcome.unwrap().err(), Some(PairingFailure::ProofMismatch));
}

#[test]
fn a_broken_stream_aborts_the_exchange() {
    let left = credentials(81);
    let right = credentials(82);
    let (state, _) = exchange_start(
        PairingRole::Initiator,
        PairingSetup::new(&left, right.binding().clone(), "Left", [1; 32]),
        [1; 16],
    );
    let (state, action) = exchange_step(state, ExchangeEvent::Broken);
    assert!(matches!(state, ExchangeState::Over));
    assert!(matches!(action, ExchangeAction::Abort));
}

#[test]
fn pairing_with_a_device_of_the_same_key_fails_the_transcript() {
    let left = credentials(91);
    let twin = credentials(91);
    let mut client = start(PairingRole::Initiator, &left, &twin, "Left", 1, [1; 16]);
    let mut server = start(PairingRole::Responder, &twin, &left, "Twin", 2, [2; 16]);
    run(&mut client, &mut server, &|m| m);
    assert_eq!(client.outcome.unwrap().err(), Some(PairingFailure::InvalidTranscript));
}

#[test]
fn generated_identities_differ_and_certificates_bind_them() {
    let first = DeviceIdentity::generate().expect("the system random source is readable");
    let second = DeviceIdentity::generate().expect("the system random source is readable");
    assert_ne!(first.export_secret_bytes(), second.export_secret_bytes());
    let certificate = LocalCertificate::generate(&first).unwrap();
    assert_eq!(certificate.binding().identity.public_key, first.public_identity().public_key);
}
