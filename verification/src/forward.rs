//! Decisions made when a forwarding session is opened: which error each
//! failed phase produces, how the internal address is chosen, and the lease
//! duration handed to the gateway.

use vstd::prelude::*;

verus! {

/// Seconds a granted port mapping lasts before it must be renewed.
pub const LEASE_SECS: u64 = 600;

/// Why a forwarding session could not be established.
#[derive(Debug, Clone, Copy, PartialEq, Eq, Structural)]
pub enum ForwardingError {
    /// No gateway answered the discovery probe.
    DiscoveryFailed,
    /// A gateway was found but could not report an external address.
    CannotFetchExternalIp,
    /// The local address resolved to a non-IPv4 address.
    NonIpv4,
}

impl ForwardingError {
    /// A short human-readable name for the error.
    pub fn message(&self) -> (r: &'static str)
        ensures
            *self == ForwardingError::DiscoveryFailed ==> r@ == "DiscoveryFailed"@,
            *self == ForwardingError::CannotFetchExternalIp ==> r@ == "CannotFetchExternalIp"@,
            *self == ForwardingError::NonIpv4 ==> r@ == "NonIpv4"@,
    {
        match self {
            ForwardingError::DiscoveryFailed => "DiscoveryFailed",
            ForwardingError::CannotFetchExternalIp => "CannotFetchExternalIp",
            ForwardingError::NonIpv4 => "NonIpv4",
        }
    }
}

/// An IPv4 address as four plain octets.
#[derive(Debug, Clone, Copy, PartialEq, Eq, Structural)]
pub struct Ipv4(pub u8, pub u8, pub u8, pub u8);

impl Ipv4 {
    /// The unspecified address, used when no local address can be determined.
    pub fn unspecified() -> (r: Ipv4)
        ensures
            r == (Ipv4(0, 0, 0, 0)),
    {
        Ipv4(0, 0, 0, 0)
    }
}

/// What best-effort local address resolution produced.
#[derive(Debug, Clone, Copy, PartialEq, Eq, Structural)]
pub enum LocalAddress {
    V4(Ipv4),
    V6,
    Unknown,
}

/// The result of the two gateway phases of opening a session: discovery,
/// then the query for the gateway's external address.
#[derive(Debug, Clone, Copy, PartialEq, Eq, Structural)]
pub enum GatewayProbe {
    NotFound,
    NoExternalIp,
    External(Ipv4),
}

/// Everything a session needs before the first mapping request is made.
#[derive(Debug, Clone, Copy, PartialEq, Eq, Structural)]
pub struct ForwardingPlan {
    /// The externally visible address the gateway reported.
    pub external: Ipv4,
    /// The internal address the mapping points at.
    pub internal: Ipv4,
}

/// Decides how a session open proceeds from the outcome of gateway discovery
/// and local address resolution. Failures are ranked as the open sequence
/// meets them: discovery first, then the external address query, then the
/// IPv4 requirement on the local address; an unknown local address falls back
/// to the unspecified address.
pub fn plan_forwarding(probe: GatewayProbe, local: LocalAddress) -> (r: Result<
    ForwardingPlan,
    ForwardingError,
>)
    ensures
        r == (match probe {
            GatewayProbe::NotFound => Result::<ForwardingPlan, ForwardingError>::Err(
                ForwardingError::DiscoveryFailed,
            ),
            GatewayProbe::NoExternalIp => Result::<ForwardingPlan, ForwardingError>::Err(
                ForwardingError::CannotFetchExternalIp,
            ),
            GatewayProbe::External(e) => match local {
                LocalAddress::V4(ip) => Result::<ForwardingPlan, ForwardingError>::Ok(
                    ForwardingPlan { external: e, internal: ip },
                ),
                LocalAddress::Unknown => Result::<ForwardingPlan, ForwardingError>::Ok(
                    ForwardingPlan { external: e, internal: Ipv4(0, 0, 0, 0) },
                ),
                LocalAddress::V6 => Result::<ForwardingPlan, ForwardingError>::Err(
                    ForwardingError::NonIpv4,
                ),
            },
        }),
{
    match probe {
        GatewayProbe::NotFound => Err(ForwardingError::DiscoveryFailed),
        GatewayProbe::NoExternalIp => Err(ForwardingError::CannotFetchExternalIp),
        GatewayProbe::External(e) => match local {
            LocalAddress::V4(ip) => Ok(ForwardingPlan { external: e, internal: ip }),
            LocalAddress::Unknown => Ok(ForwardingPlan { external: e, internal: Ipv4(0, 0, 0, 0) }),
            LocalAddress::V6 => Err(ForwardingError::NonIpv4),
        },
    }
}

/// The lease duration passed with each mapping request: the full lease
/// period plus one second of slack for the request itself.
pub fn lease_request_secs() -> (r: u32)
    ensures
        r == LEASE_SECS + 1,
{
    (LEASE_SECS as u32) + 1
}

} // verus!
