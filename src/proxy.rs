use vstd::prelude::*;

use crate::host::{extract_domain, host_prefix};
use crate::upgrade::{offered_protocol, opt_string_view, opt_view, upgrade_type};

verus! {

/// Fixed settings shared read-only by every connection.
#[derive(Clone, Debug)]
pub struct ProxyConfig {
    pub listen_host: String,
    pub listen_port: u16,
    pub backend_host: String,
    pub backend_port: u16,
    pub domain_suffix: String,
}

impl ProxyConfig {
    pub fn new(
        listen_host: String,
        listen_port: u16,
        backend_host: String,
        backend_port: u16,
        domain_suffix: String,
    ) -> (r: ProxyConfig)
        ensures
            r.listen_host@ == listen_host@,
            r.listen_port == listen_port,
            r.backend_host@ == backend_host@,
            r.backend_port == backend_port,
            r.domain_suffix@ == domain_suffix@,
    {
        ProxyConfig { listen_host, listen_port, backend_host, backend_port, domain_suffix }
    }
}

/// Why a request could not be served as asked.
#[derive(Clone, Copy, Debug, PartialEq, Eq, Structural)]
pub enum ProxyError {
    /// The Host header is missing or does not have the wildcard shape.
    HostPatternMismatch,
    /// The backend could not be connected to, or its handshake failed.
    BackendUnreachable,
    /// Sending the request to the backend or reading its answer failed.
    BackendRequestFailed,
    /// The backend switched to another protocol than the one offered, or the
    /// client connection cannot be handed off.
    UpgradeProtocolMismatch,
    /// One side could not release its connection for bridging.
    UpgradeHandoffFailed,
}

/// The status code of the response that reports an error to the client.
pub open spec fn status_of(e: ProxyError) -> u16 {
    match e {
        ProxyError::HostPatternMismatch => 400,
        _ => 502,
    }
}

/// The status code of the response that reports `e` to the client: a bad
/// request for an unroutable host, a bad gateway for everything else.
pub fn error_status(e: ProxyError) -> (r: u16)
    ensures
        r == status_of(e),
{
    match e {
        ProxyError::HostPatternMismatch => 400,
        _ => 502,
    }
}

/// The Host header sent to the backend: the matched prefix, then the suffix.
pub fn rewrite_host(prefix: &str, suffix: &str) -> (r: String)
    ensures
        r@ == prefix@ + suffix@,
{
    let mut h = String::from_str(prefix);
    h.append(suffix);
    h
}

/// The backend-facing host for an inbound Host header, if it is routable.
pub open spec fn routed_host(host: Option<Seq<char>>, suffix: Seq<char>) -> Option<Seq<char>> {
    match host {
        Some(h) => match host_prefix(h) {
            Some(p) => Some(p + suffix),
            None => None,
        },
        None => None,
    }
}

/// The backend-facing host for an inbound Host header, or the error that
/// makes the request unroutable.
pub fn route_host(host: Option<&str>, suffix: &str) -> (r: Result<String, ProxyError>)
    ensures
        match r {
            Ok(h) => routed_host(opt_view(host), suffix@) == Some(h@),
            Err(e) => e == ProxyError::HostPatternMismatch && routed_host(
                opt_view(host),
                suffix@,
            ) is None,
        },
{
    match host {
        Some(h) => match extract_domain(h) {
            Some(p) => Ok(rewrite_host(p.as_str(), suffix)),
            None => Err(ProxyError::HostPatternMismatch),
        },
        None => Err(ProxyError::HostPatternMismatch),
    }
}

/// What is known of a request before it is sent to the backend.
#[derive(Clone, Debug)]
pub struct RequestPlan {
    /// The Host header for the backend.
    pub host: String,
    /// The protocol the client offers to switch to, if any.
    pub offered: Option<String>,
}

/// The first decisions on an inbound request, from its Host, Connection and
/// Upgrade header values: where it goes, and which upgrade it offers.
pub fn plan_request(
    config: &ProxyConfig,
    host: Option<&str>,
    connection: Option<&str>,
    upgrade: Option<&str>,
) -> (r: Result<RequestPlan, ProxyError>)
    ensures
        match r {
            Ok(p) => {
                &&& routed_host(opt_view(host), config.domain_suffix@) == Some(p.host@)
                &&& opt_string_view(&p.offered) == offered_protocol(
                    opt_view(connection),
                    opt_view(upgrade),
                )
            },
            Err(e) => e == ProxyError::HostPatternMismatch && routed_host(
                opt_view(host),
                config.domain_suffix@,
            ) is None,
        },
{
    match route_host(host, config.domain_suffix.as_str()) {
        Ok(h) => Ok(RequestPlan { host: h, offered: upgrade_type(connection, upgrade) }),
        Err(e) => Err(e),
    }
}

/// What to do with the backend's response.
#[derive(Clone, Copy, Debug, PartialEq, Eq, Structural)]
pub enum ResponseAction {
    /// Hand the response to the client as it is.
    Relay,
    /// Both sides agreed on the same protocol: splice the two connections.
    Bridge,
    /// Answer the client with an error instead.
    Reject(ProxyError),
}

/// The action for a response with `status` that offers `answered`, to a
/// request that offered `offered`; `handoff` tells whether the client
/// connection can be taken over.
pub open spec fn response_action(
    offered: Option<Seq<char>>,
    status: u16,
    answered: Option<Seq<char>>,
    handoff: bool,
) -> ResponseAction {
    if status != 101 {
        ResponseAction::Relay
    } else if offered is Some && answered == offered && handoff {
        ResponseAction::Bridge
    } else {
        ResponseAction::Reject(ProxyError::UpgradeProtocolMismatch)
    }
}

/// The decision on the backend's response: relay it, bridge the two
/// connections, or report an upgrade that does not match.
pub fn on_response(
    offered: &Option<String>,
    status: u16,
    answered: &Option<String>,
    handoff: bool,
) -> (r: ResponseAction)
    ensures
        r == response_action(opt_string_view(offered), status, opt_string_view(answered), handoff),
{
    if status != 101 {
        return ResponseAction::Relay;
    }
    let same = match offered {
        Some(a) => match answered {
            Some(b) => a.eq(b),
            None => false,
        },
        None => false,
    };
    if same && handoff {
        ResponseAction::Bridge
    } else {
        ResponseAction::Reject(ProxyError::UpgradeProtocolMismatch)
    }
}

/// Bridging happens only for a switching-protocols response that names the
/// very protocol the request offered, with a client connection that can be
/// handed off; a mismatch is reported as an error.
pub proof fn lemma_bridge_needs_matching_upgrade(
    offered: Option<Seq<char>>,
    status: u16,
    answered: Option<Seq<char>>,
    handoff: bool,
)
    ensures
        response_action(offered, status, answered, handoff) == ResponseAction::Bridge <==> (
        status == 101 && offered is Some && answered == offered && handoff),
        status == 101 && answered != offered ==> response_action(offered, status, answered, handoff)
            == ResponseAction::Reject(ProxyError::UpgradeProtocolMismatch),
{
}

/// An unroutable Host header is answered with a client error and never yields
/// a backend host.
pub proof fn lemma_unroutable_host_is_client_error(host: Seq<char>, suffix: Seq<char>)
    requires
        host_prefix(host) is None,
    ensures
        routed_host(Some(host), suffix) is None,
        status_of(ProxyError::HostPatternMismatch) == 400,
{
}

} // verus!
