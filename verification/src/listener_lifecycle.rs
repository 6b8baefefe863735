//! Reconciles the stored receiving preferences with the listener that runs:
//! whether to start, stop or restart it, or leave it as it is.  Only the
//! ownership of the socket is decided here; binding it is the caller's.
use crate::engine::{
    loopback_or_private, unspecified, validate_listen_address, IpAddress, ListenerError, ListenerStatus,
    SocketAddress,
};
use crate::bytes::bytes_equal;
use vstd::prelude::*;

verus! {

/// What the listener has to do.
#[derive(Debug, Clone, Copy, PartialEq, Eq)]
pub enum ListenerAction {
    Noop,
    Start(SocketAddress),
    Stop,
    Restart(SocketAddress),
}

/// Whether two addresses are the same address of the same family.
pub open spec fn same_ip(a: IpAddress, b: IpAddress) -> bool {
    match (a, b) {
        (IpAddress::V4(x), IpAddress::V4(y)) => x@ == y@,
        (IpAddress::V6(x), IpAddress::V6(y)) => x@ == y@,
        _ => false,
    }
}

/// Compares two addresses octet by octet.
pub fn ip_equal(a: IpAddress, b: IpAddress) -> (equal: bool)
    ensures
        equal == same_ip(a, b),
        equal == (a == b),
{
    proof {
        broadcast use vstd::array::group_array_axioms;
        match (a, b) {
            (IpAddress::V4(x), IpAddress::V4(y)) => {
                if x@ == y@ {
                    assert(x =~= y);
                }
            },
            (IpAddress::V6(x), IpAddress::V6(y)) => {
                if x@ == y@ {
                    assert(x =~= y);
                }
            },
            _ => {},
        }
    }
    match (a, b) {
        (IpAddress::V4(x), IpAddress::V4(y)) => bytes_equal(&x, &y),
        (IpAddress::V6(x), IpAddress::V6(y)) => bytes_equal(&x, &y),
        _ => false,
    }
}

/// Whether a socket bound at `bound` serves the configured `wanted`: the
/// same address and port, or the same address when port zero asked the
/// system to pick one.
pub open spec fn serves(bound: SocketAddress, wanted: SocketAddress) -> bool {
    same_ip(bound.ip, wanted.ip) && (bound.port == wanted.port || wanted.port == 0)
}

/// What the listener has to do, given whether onboarding is done, whether
/// receiving is on, whether the application is shutting down, the
/// configured address as parsed, and what the listener does now.
pub open spec fn lifecycle_action(
    onboarding_complete: bool,
    receiving_enabled: bool,
    shutting_down: bool,
    configured: Option<SocketAddress>,
    status: ListenerStatus,
) -> Result<ListenerAction, ListenerError> {
    if !(onboarding_complete && receiving_enabled && !shutting_down) {
        Ok(if status.listening { ListenerAction::Stop } else { ListenerAction::Noop })
    } else {
        match configured {
            Some(a) => if unspecified(a.ip) || loopback_or_private(a.ip) {
                match status.bound_endpoint {
                    Some(b) => if serves(b, a) { Ok(ListenerAction::Noop) } else { Ok(ListenerAction::Restart(a)) },
                    None => Ok(ListenerAction::Start(a)),
                }
            } else {
                Err(ListenerError::InvalidAddress)
            },
            None => Err(ListenerError::InvalidAddress),
        }
    }
}

/// Decides the listener's next action.
pub struct ListenerLifecycleCoordinator;

impl ListenerLifecycleCoordinator {
    /// The listener's next action; `configured_address` is the stored
    /// address as parsed, `None` when it did not parse.
    pub fn action(
        onboarding_complete: bool,
        receiving_enabled: bool,
        shutting_down: bool,
        configured_address: Option<SocketAddress>,
        status: ListenerStatus,
    ) -> (result: Result<ListenerAction, ListenerError>)
        ensures
            result == lifecycle_action(onboarding_complete, receiving_enabled, shutting_down, configured_address, status),
    {
        let should_listen = onboarding_complete && receiving_enabled && !shutting_down;
        if !should_listen {
            return Ok(if status.listening { ListenerAction::Stop } else { ListenerAction::Noop });
        }
        let address = match validate_listen_address(configured_address) {
            Ok(a) => a,
            Err(e) => return Err(e),
        };
        match status.bound_endpoint {
            Some(bound) => if ip_equal(bound.ip, address.ip) && (bound.port == address.port || address.port == 0) {
                Ok(ListenerAction::Noop)
            } else {
                Ok(ListenerAction::Restart(address))
            },
            None => Ok(ListenerAction::Start(address)),
        }
    }
}

/// Once the listener does what `action` asked, asking again changes
/// nothing: a started or restarted listener bound where it was told, or a
/// stopped one, needs no further action.
pub proof fn lemma_action_settles(
    onboarding_complete: bool,
    receiving_enabled: bool,
    shutting_down: bool,
    configured: Option<SocketAddress>,
    status: ListenerStatus,
    after: ListenerStatus,
)
    requires
        lifecycle_action(onboarding_complete, receiving_enabled, shutting_down, configured, status) matches Ok(a) && (
        match a {
            ListenerAction::Noop => after == status,
            ListenerAction::Stop => !after.listening && after.bound_endpoint is None,
            ListenerAction::Start(w) => after.listening && (after.bound_endpoint matches Some(b) && serves(b, w)),
            ListenerAction::Restart(w) => after.listening && (after.bound_endpoint matches Some(b) && serves(b, w)),
        }),
    ensures
        lifecycle_action(onboarding_complete, receiving_enabled, shutting_down, configured, after) == Ok::<
            ListenerAction,
            ListenerError,
        >(ListenerAction::Noop),
{
}

} // verus!
