//! The host side of the egress tunnel: what a guest is told, and what becomes of
//! each flow it opens.
use vstd::prelude::*;

use crate::error::NpxcError;
use crate::rpc::message;
use crate::text;
use crate::tunnel::keys::{self, WgKeypair};
use crate::tunnel::peek::Sniff;
use crate::tunnel::policy::{self, Decision, IpAddress, Policy};

verus! {

/// The guest's tunnel MTU.
pub const MTU: u16 = 1380;

/// The resolver that the guest is pointed at, 1.1.1.1: it is reached through the
/// tunnel, whatever the host's own DNS configuration.
pub const TUNNEL_NAMESERVER: u32 = 0x0101_0101;

/// Where plain HTTP is spoken.
pub const HTTP_PORT: u16 = 80;

/// Where HTTPS is spoken.
pub const HTTPS_PORT: u16 = 443;

/// Where QUIC is spoken. Its server name is encrypted, so it is blocked outright,
/// and clients fall back to TLS over TCP.
pub const QUIC_PORT: u16 = 443;

/// Where DNS is spoken.
pub const DNS_PORT: u16 = 53;

/// Size of the relay buffers of a UDP flow.
pub const UDP_BUF: usize = 2048;

/// The policy of a session: its allowlist, with the guest's resolver pinned.
pub fn tunnel_policy(allow: &Vec<String>) -> (r: Result<Policy, NpxcError>)
    ensures
        match r {
            Ok(p) => {
                &&& policy::all_readable(text::texts(allow@))
                &&& p.rules() == policy::entry_rules(text::texts(allow@)).push(
                    policy::dns_rule(IpAddress::V4(TUNNEL_NAMESERVER)),
                )
                &&& p.resolver() == IpAddress::V4(TUNNEL_NAMESERVER)
            },
            Err(e) => policy::reports_first(e, text::texts(allow@)),
        },
{
    Policy::build(allow, IpAddress::V4(TUNNEL_NAMESERVER))
}

/// What is said of a gateway that is no address.
pub open spec fn gateway_error(gateway: Seq<char>) -> Seq<char> {
    "invalid gateway address "@ + text::debug_text(gateway) + ": invalid IP address syntax"@
}

/// The address of a network's gateway, at which the guest reaches the host.
pub fn gateway_address(gateway: &str) -> (r: Result<IpAddress, NpxcError>)
    ensures
        match policy::ip_literal(gateway@) {
            Some(ip) => r == Ok::<IpAddress, NpxcError>(ip),
            None => r matches Err(NpxcError::Runtime(m)) && m@ == gateway_error(gateway@),
        },
{
    match policy::parse_ip(gateway) {
        Some(ip) => Ok(ip),
        None => {
            let s = text::cat("invalid gateway address ", text::debug_str(gateway).as_str());
            Err(NpxcError::Runtime(text::cat(s.as_str(), ": invalid IP address syntax")))
        },
    }
}

// ---------------------------------------------------------------------------
// What the guest is told
// ---------------------------------------------------------------------------

/// The text of the guest's `resolv.conf`.
#[must_use]
pub fn resolv_conf() -> (r: String)
    ensures
        r@ == "nameserver 1.1.1.1\n"@,
{
    "nameserver 1.1.1.1\n".to_owned()
}

/// The environment that the guest's entrypoint reads.
pub open spec fn wg_env(
    guest_secret: Seq<u8>,
    host_public: Seq<u8>,
    gateway: Seq<char>,
    port: u16,
) -> Seq<(Seq<char>, Seq<char>)> {
    seq![
        ("NPXC_WG_PRIVATE_KEY"@, keys::base64_text(guest_secret)),
        ("NPXC_WG_PEER_PUBLIC_KEY"@, keys::base64_text(host_public)),
        ("NPXC_WG_ENDPOINT"@, gateway + ":"@ + text::decimal(port as nat)),
        ("NPXC_WG_ADDRESS"@, "10.7.0.2/32"@),
        ("NPXC_WG_ADDRESS6"@, "fd07::2/128"@),
        ("NPXC_WG_MTU"@, "1380"@),
    ]
}

/// Builds the environment that the guest's entrypoint reads to bring up its end:
/// its own private key and the host's public key, never the reverse, so the
/// host's secret stays on the host.
#[must_use]
pub fn guest_env(guest: &WgKeypair, npxc: &WgKeypair, gateway: &str, port: u16) -> (r: Vec<
    (String, String),
>)
    ensures
        message::pair_views(r@) == wg_env(guest.secret_key(), npxc.public_key(), gateway@, port),
        guest.secret_key() != npxc.secret_key() ==> message::pair_views(r@)[0].1
            != keys::base64_text(npxc.secret_key()),
{
    let private = guest.private_base64();
    let public = npxc.public_base64();
    let head = text::cat(gateway, ":");
    let number = text::decimal_of(port as u64);
    let endpoint = text::cat(head.as_str(), number.as_str());
    let mut r: Vec<(String, String)> = Vec::new();
    r.push(("NPXC_WG_PRIVATE_KEY".to_owned(), private));
    r.push(("NPXC_WG_PEER_PUBLIC_KEY".to_owned(), public));
    r.push(("NPXC_WG_ENDPOINT".to_owned(), endpoint));
    r.push(("NPXC_WG_ADDRESS".to_owned(), "10.7.0.2/32".to_owned()));
    r.push(("NPXC_WG_ADDRESS6".to_owned(), "fd07::2/128".to_owned()));
    r.push(("NPXC_WG_MTU".to_owned(), "1380".to_owned()));
    assert(message::pair_views(r@) =~= wg_env(
        guest.secret_key(),
        npxc.public_key(),
        gateway@,
        port,
    ));
    r
}

// ---------------------------------------------------------------------------
// What becomes of a flow
// ---------------------------------------------------------------------------

/// How a TCP flow to this port names its host, if its first bytes say it.
pub open spec fn sniffed(port: u16) -> Option<Sniff> {
    if port == HTTPS_PORT {
        Some(Sniff::Tls)
    } else if port == HTTP_PORT {
        Some(Sniff::Http)
    } else {
        None
    }
}

/// How to read the hostname of a TCP flow to this port, so that domain rules
/// apply to it.
#[must_use]
pub fn sniff_for(port: u16) -> (r: Option<Sniff>)
    ensures
        r == sniffed(port),
{
    if port == HTTPS_PORT {
        Some(Sniff::Tls)
    } else if port == HTTP_PORT {
        Some(Sniff::Http)
    } else {
        None
    }
}

/// Decides a TCP flow, with the hostname that was read ahead if there is one.
#[must_use]
pub fn route_tcp(policy: &Policy, ip: IpAddress, port: u16, hostname: Option<&str>) -> (r: Decision)
    ensures
        r == policy::decision(policy.rules(), ip, port, policy::opt_text(hostname)),
{
    policy.evaluate(ip, port, hostname)
}

/// What becomes of a UDP flow.
#[derive(Clone, Copy, Debug, PartialEq, Eq, Structural)]
pub enum UdpRoute {
    /// It is QUIC: blocked.
    Quic,
    /// It is DNS to the pinned resolver: answered here.
    Dns,
    /// It is relayed.
    Relay,
    /// It is dropped.
    Drop,
}

/// What becomes of a UDP flow: it carries no hostname, so the rules decide by
/// address and port alone.
pub open spec fn udp_route(
    rules: Seq<policy::RuleView>,
    resolver: IpAddress,
    ip: IpAddress,
    port: u16,
) -> UdpRoute {
    if port == QUIC_PORT {
        UdpRoute::Quic
    } else if ip == resolver && port == DNS_PORT {
        UdpRoute::Dns
    } else if policy::decision(rules, ip, port, None) == Decision::Allow {
        UdpRoute::Relay
    } else {
        UdpRoute::Drop
    }
}

/// Decides a UDP flow.
#[must_use]
pub fn route_udp(policy: &Policy, ip: IpAddress, port: u16) -> (r: UdpRoute)
    ensures
        r == udp_route(policy.rules(), policy.resolver(), ip, port),
{
    if port == QUIC_PORT {
        return UdpRoute::Quic;
    }
    if ip == policy.dns_resolver() && port == DNS_PORT {
        return UdpRoute::Dns;
    }
    match policy.evaluate(ip, port, None) {
        Decision::Allow => UdpRoute::Relay,
        Decision::Deny => UdpRoute::Drop,
    }
}

/// The unspecified address of the same family, for binding a socket that is to
/// reach `ip`.
#[must_use]
pub fn unspecified_for(ip: IpAddress) -> (r: IpAddress)
    ensures
        r.width() == ip.width(),
        r.value() == 0,
{
    match ip {
        IpAddress::V4(_) => IpAddress::V4(0),
        IpAddress::V6(_) => IpAddress::V6(0),
    }
}

/// The hostname as the audit log writes it: `-` where it is not known.
#[must_use]
pub fn audit_host(hostname: Option<&str>) -> (r: String)
    ensures
        r@ == (match policy::opt_text(hostname) {
            Some(h) => h,
            None => "-"@,
        }),
{
    match hostname {
        Some(h) => h.to_owned(),
        None => "-".to_owned(),
    }
}

// ---------------------------------------------------------------------------
// Laws
// ---------------------------------------------------------------------------

/// QUIC is blocked whatever the allowlist says.
pub proof fn quic_is_always_blocked(
    rules: Seq<policy::RuleView>,
    resolver: IpAddress,
    ip: IpAddress,
)
    ensures
        udp_route(rules, resolver, ip, QUIC_PORT) == UdpRoute::Quic,
{
}

/// DNS to the pinned resolver is never relayed as it stands.
pub proof fn dns_is_pinned(rules: Seq<policy::RuleView>, resolver: IpAddress)
    ensures
        udp_route(rules, resolver, resolver, DNS_PORT) == UdpRoute::Dns,
{
}

/// With an empty allowlist nothing is relayed: no TCP flow is allowed but one to
/// the pinned resolver's DNS port, and no UDP flow leaves the tunnel unanswered.
pub proof fn empty_allowlist_relays_nothing(
    ip: IpAddress,
    port: u16,
    hostname: Option<Seq<char>>,
)
    ensures
        ({
            let resolver = IpAddress::V4(TUNNEL_NAMESERVER);
            let rules = policy::entry_rules(Seq::empty()).push(policy::dns_rule(resolver));
            &&& udp_route(rules, resolver, ip, port) != UdpRoute::Relay
            &&& policy::decision(rules, ip, port, hostname) == Decision::Allow ==> ip == resolver
                && port == DNS_PORT
        }),
{
    let resolver = IpAddress::V4(TUNNEL_NAMESERVER);
    policy::empty_allowlist_denies_all_but_dns(resolver, ip, port, hostname);
    policy::empty_allowlist_denies_all_but_dns(resolver, ip, port, None);
}

/// What becomes of UDP flows: port 443 is blocked, port 53 of the resolver answered
/// here, and of the others exactly those are relayed that the rules allow by address and
/// port.
pub proof fn udp_flows_go_by_the_rules(
    rules: Seq<policy::RuleView>,
    resolver: IpAddress,
    ip: IpAddress,
    port: u16,
)
    ensures
        port == 443 ==> udp_route(rules, resolver, ip, port) == UdpRoute::Quic,
        port == 53 && ip == resolver ==> udp_route(rules, resolver, ip, port) == UdpRoute::Dns,
        port != 443 && !(port == 53 && ip == resolver) ==> (udp_route(rules, resolver, ip, port)
            == UdpRoute::Relay <==> policy::decision(rules, ip, port, None) == Decision::Allow),
        port != 443 && !(port == 53 && ip == resolver) ==> (udp_route(rules, resolver, ip, port)
            == UdpRoute::Drop <==> policy::decision(rules, ip, port, None) == Decision::Deny),
{
}

/// A domain alone relays no UDP: UDP flows name no host.
pub proof fn domains_relay_no_udp(domain: Seq<char>, resolver: IpAddress, ip: IpAddress, port: u16)
    requires
        domain.len() > 0,
        domain[0] != '[',
        !domain.contains(':'),
        policy::net_literal(domain) is None,
        policy::ip_literal(domain) is None,
    ensures
        udp_route(
            policy::entry_rules(seq![domain]).push(policy::dns_rule(resolver)),
            resolver,
            ip,
            port,
        ) != UdpRoute::Relay,
{
    policy::domain_entries_admit_their_name_alone(domain, None, resolver, ip, port, None);
}

/// The first bytes of a flow are read as TLS on port 443, as HTTP on port 80, and on no
/// other port.
pub proof fn hostnames_are_read_by_port(port: u16)
    ensures
        sniffed(443) == Some(Sniff::Tls),
        sniffed(80) == Some(Sniff::Http),
        port != 443 && port != 80 ==> sniffed(port) is None,
{
}

/// The guest is told its own private key, the host's public key, and where the host
/// listens; nothing that it is told stands under another name.
pub proof fn guests_are_told_their_keys(
    guest_secret: Seq<u8>,
    host_public: Seq<u8>,
    gateway: Seq<char>,
    port: u16,
    i: int,
)
    requires
        0 <= i < wg_env(guest_secret, host_public, gateway, port).len(),
    ensures
        wg_env(guest_secret, host_public, gateway, port).len() == 6,
        ({
            let (name, value) = wg_env(guest_secret, host_public, gateway, port)[i];
            ||| name == "NPXC_WG_PRIVATE_KEY"@ && value == keys::base64_text(guest_secret)
            ||| name == "NPXC_WG_PEER_PUBLIC_KEY"@ && value == keys::base64_text(host_public)
            ||| name == "NPXC_WG_ENDPOINT"@ && value == gateway + seq![':'] + text::decimal(
                port as nat,
            )
            ||| name == "NPXC_WG_ADDRESS"@ && value == "10.7.0.2/32"@
            ||| name == "NPXC_WG_ADDRESS6"@ && value == "fd07::2/128"@
            ||| name == "NPXC_WG_MTU"@ && value == "1380"@
        }),
        exists|k: int|
            0 <= k < 6 && (#[trigger] wg_env(guest_secret, host_public, gateway, port)[k]).0
                == "NPXC_WG_PRIVATE_KEY"@,
        exists|k: int|
            0 <= k < 6 && (#[trigger] wg_env(guest_secret, host_public, gateway, port)[k]).0
                == "NPXC_WG_PEER_PUBLIC_KEY"@,
        exists|k: int|
            0 <= k < 6 && (#[trigger] wg_env(guest_secret, host_public, gateway, port)[k]).0
                == "NPXC_WG_ENDPOINT"@,
{
    reveal_strlit(":");
    assert(":"@ =~= seq![':']);
    let env = wg_env(guest_secret, host_public, gateway, port);
    assert(env[0].0 == "NPXC_WG_PRIVATE_KEY"@);
    assert(env[1].0 == "NPXC_WG_PEER_PUBLIC_KEY"@);
    assert(env[2].0 == "NPXC_WG_ENDPOINT"@);
}

/// The resolver that the guest is pointed at is 1.1.1.1, whose queries are answered here.
pub proof fn the_resolver_is_pinned(rules: Seq<policy::RuleView>)
    ensures
        TUNNEL_NAMESERVER == 0x0101_0101,
        MTU == 1380,
        udp_route(
            rules,
            IpAddress::V4(TUNNEL_NAMESERVER),
            IpAddress::V4(0x0101_0101),
            53,
        ) == UdpRoute::Dns,
{
}

} // verus!
