//! Connections that are made for a client.

use crate::number::{decimal, digits};
use vstd::prelude::*;

verus! {

/// A connection that a client asks for.
#[derive(Debug, Clone)]
#[non_exhaustive]
pub struct ForwardRequest {
    /// The machine to connect to.
    pub host: String,
    /// The port to connect to.
    pub port: u16,
    /// Where the connection comes from on the side of the client.
    pub originator_host: String,
    /// The port that it comes from on the side of the client.
    pub originator_port: u16,
}

/// Whether a connection is made.
#[derive(Debug, Clone, Copy, PartialEq, Eq, Structural)]
#[non_exhaustive]
pub enum ForwardDecision {
    /// It is.
    Allow,
    /// It is not.
    Deny,
}

/// Says which connections are made.
pub trait Forwarder {
    /// Whether the connection is made.
    fn authorize(&self, request: &ForwardRequest) -> (r: ForwardDecision);
}

/// A port as a client sends it, cut to the 16 bits that a port has.
pub open spec fn cut_to_16(n: u32) -> u16 {
    (n % 65536) as u16
}

/// A number cut to 16 bits.
pub fn low_16(n: u32) -> (r: u16)
    ensures
        r == cut_to_16(n),
{
    (n % 65536) as u16
}

impl ForwardRequest {
    /// The request that a client sent.
    pub fn new(
        host: &str,
        port: u32,
        originator_host: &str,
        originator_port: u32,
    ) -> (r: Self)
        ensures
            r.host@ == host@,
            r.port == cut_to_16(port),
            r.originator_host@ == originator_host@,
            r.originator_port == cut_to_16(originator_port),
    {
        ForwardRequest {
            host: host.to_owned(),
            port: low_16(port),
            originator_host: originator_host.to_owned(),
            originator_port: low_16(originator_port),
        }
    }

    /// Where to connect to.
    pub fn target(&self) -> (r: String)
        ensures
            r@ == self.host@ + ":"@ + digits(self.port as nat),
    {
        let mut r = self.host.clone();
        r.append(":");
        r.append(decimal(self.port as u64).as_str());
        r
    }
}

/// Whether a connection is made: never where connections are switched off, and else
/// where the policy, if there is one, does not deny it.
pub fn forward_allowed(enabled: bool, policy: Option<ForwardDecision>) -> (r: bool)
    ensures
        r == (enabled && policy != Some(ForwardDecision::Deny)),
{
    if !enabled {
        return false;
    }
    match policy {
        Some(ForwardDecision::Deny) => false,
        _ => true,
    }
}

/// Whether a connection is made, with a policy that is asked only where connections are
/// not switched off, and whose answer then decides.
pub fn authorize_with<F: Forwarder>(enabled: bool, policy: &F, request: &ForwardRequest) -> (r:
    bool)
    ensures
        !enabled ==> !r,
        enabled ==> exists|d: ForwardDecision|
            call_ensures(F::authorize, (policy, request), d) && r == (d
                != ForwardDecision::Deny),
{
    if !enabled {
        return false;
    }
    let decision = policy.authorize(request);
    forward_allowed(enabled, Some(decision))
}

/// A port that can be one is kept, and any other number is cut to its last 16 bits.
pub proof fn ports_are_cut_to_16_bits(n: u32, k: u16)
    ensures
        n < 65536 ==> cut_to_16(n) == n,
        n == 65536 * k + cut_to_16(n) || n / 65536 != k,
{
}

} // verus!
