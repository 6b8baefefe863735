use fileporter::engine::{IpAddress, ListenerError, ListenerStatus, SocketAddress};
use fileporter::listener_lifecycle::{ListenerAction, ListenerLifecycleCoordinator};

fn v4(a: u8, b: u8, c: u8, d: u8, port: u16) -> SocketAddress {
    SocketAddress { ip: IpAddress::V4([a, b, c, d]), port }
}

fn stopped() -> ListenerStatus {
    ListenerStatus { listening: false, receiving: false, bound_endpoint: None }
}

#[test]
fn onboarding_and_preference_gate_listener_start() {
    let configured = Some(v4(127, 0, 0, 1, 4242));
    assert_eq!(
        ListenerLifecycleCoordinator::action(false, true, false, configured, stopped()).unwrap(),
        ListenerAction::Noop
    );
    assert_eq!(
        ListenerLifecycleCoordinator::action(true, false, false, configured, stopped()).unwrap(),
        ListenerAction::Noop
    );
    assert_eq!(
        ListenerLifecycleCoordinator::action(true, true, false, configured, stopped()).unwrap(),
        ListenerAction::Start(v4(127, 0, 0, 1, 4242))
    );
}

#[test]
fn coordinator_stops_or_restarts_only_when_needed() {
    let running = ListenerStatus { listening: true, receiving: false, bound_endpoint: Some(v4(127, 0, 0, 1, 4242)) };
    assert_eq!(
        ListenerLifecycleCoordinator::action(true, false, false, Some(v4(127, 0, 0, 1, 4242)), running).unwrap(),
        ListenerAction::Stop
    );
    assert_eq!(
        ListenerLifecycleCoordinator::action(true, true, false, Some(v4(127, 0, 0, 2, 0)), running).unwrap(),
        ListenerAction::Restart(v4(127, 0, 0, 2, 0))
    );
}

#[test]
fn ephemeral_port_is_stable_after_binding_and_shutdown_stops_it() {
    let running = ListenerStatus { listening: true, receiving: false, bound_endpoint: Some(v4(127, 0, 0, 1, 51342)) };
    assert_eq!(
        ListenerLifecycleCoordinator::action(true, true, false, Some(v4(127, 0, 0, 1, 0)), running).unwrap(),
        ListenerAction::Noop
    );
    assert_eq!(
        ListenerLifecycleCoordinator::action(true, true, true, Some(v4(127, 0, 0, 1, 0)), running).unwrap(),
        ListenerAction::Stop
    );
}

#[test]
fn public_or_unparsed_listen_addresses_are_refused_only_when_listening_is_wanted() {
    assert_eq!(
        ListenerLifecycleCoordinator::action(true, true, false, Some(v4(8, 8, 8, 8, 4242)), stopped()),
        Err(ListenerError::InvalidAddress)
    );
    assert_eq!(ListenerLifecycleCoordinator::action(true, true, false, None, stopped()), Err(ListenerError::InvalidAddress));
    assert_eq!(
        ListenerLifecycleCoordinator::action(true, false, false, None, stopped()).unwrap(),
        ListenerAction::Noop
    );
    let unspecified = Some(v4(0, 0, 0, 0, 4242));
    assert_eq!(
        ListenerLifecycleCoordinator::action(true, true, false, unspecified, stopped()).unwrap(),
        ListenerAction::Start(v4(0, 0, 0, 0, 4242))
    );
}

#[test]
fn a_listener_that_did_what_it_was_told_needs_nothing_more() {
    let wanted = Some(v4(192, 168, 1, 7, 0));
    let action = ListenerLifecycleCoordinator::action(true, true, false, wanted, stopped()).unwrap();
    assert_eq!(action, ListenerAction::Start(v4(192, 168, 1, 7, 0)));
    let after = ListenerStatus { listening: true, receiving: true, bound_endpoint: Some(v4(192, 168, 1, 7, 40000)) };
    assert_eq!(ListenerLifecycleCoordinator::action(true, true, false, wanted, after).unwrap(), ListenerAction::Noop);
}
