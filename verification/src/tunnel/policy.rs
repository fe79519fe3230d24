//! Egress allowlist policy (default-deny).
//!
//! A [`Policy`] is the list of destinations a sandboxed guest is permitted to
//! reach. Each rule matches by destination IP/CIDR or by hostname (the TLS SNI on
//! port 443 or the HTTP `Host` on port 80) and, optionally, by a single port.
//! Anything not matched by a rule is denied: an empty allowlist denies all egress.
//!
//! The policy is protocol-agnostic (a port rule matches both TCP and UDP); the
//! forwarder applies it per flow before dialing the real destination.
use vstd::arithmetic::div_mod::lemma_div_denominator;
use vstd::arithmetic::power2::{lemma2_to64, lemma_pow2_pos, lemma_pow2_unfold, pow2};
use vstd::prelude::*;

use crate::error::NpxcError;
use crate::text;

verus! {

// ---------------------------------------------------------------------------
// Addresses and networks
// ---------------------------------------------------------------------------

/// An IP address, as the number that its octets spell.
#[derive(Clone, Copy, Debug, PartialEq, Eq, Structural)]
pub enum IpAddress {
    V4(u32),
    V6(u128),
}

/// An address with the number of its leading bits that count.
#[derive(Clone, Copy, Debug, PartialEq, Eq, Structural)]
pub struct Net {
    pub addr: IpAddress,
    pub prefix: u8,
}

impl IpAddress {
    /// The number of bits of an address of this family.
    pub open spec fn width(self) -> nat {
        match self {
            IpAddress::V4(_) => 32,
            IpAddress::V6(_) => 128,
        }
    }

    pub open spec fn value(self) -> nat {
        match self {
            IpAddress::V4(n) => n as nat,
            IpAddress::V6(n) => n as nat,
        }
    }
}

/// `x` without its last `k` bits.
pub open spec fn upper_bits(x: nat, k: nat) -> nat
    decreases k,
{
    if k == 0 {
        x
    } else {
        upper_bits(x / 2, (k - 1) as nat)
    }
}

impl Net {
    /// The prefix is no longer than an address of its family.
    pub open spec fn wf(self) -> bool {
        self.prefix <= self.addr.width()
    }

    /// Whether the network holds the address: same family, and equal in the
    /// leading bits that count.
    pub open spec fn holds(self, ip: IpAddress) -> bool {
        let rest = (self.addr.width() - self.prefix) as nat;
        &&& self.addr.width() == ip.width()
        &&& upper_bits(self.addr.value(), rest) == upper_bits(ip.value(), rest)
    }
}

/// `x` without its last `k` bits.
fn drop_bits(x: u128, k: u8) -> (r: u128)
    ensures
        r == upper_bits(x as nat, k as nat),
{
    let mut r: u128 = x;
    let mut left: u8 = k;
    while left > 0
        invariant
            upper_bits(r as nat, left as nat) == upper_bits(x as nat, k as nat),
        decreases left,
    {
        r = r / 2;
        left = left - 1;
    }
    r
}

impl Net {
    /// Whether the network holds the address.
    pub fn contains(&self, ip: IpAddress) -> (r: bool)
        requires
            self.wf(),
        ensures
            r == self.holds(ip),
    {
        match (self.addr, ip) {
            (IpAddress::V4(a), IpAddress::V4(b)) => {
                let rest: u8 = 32 - self.prefix;
                drop_bits(a as u128, rest) == drop_bits(b as u128, rest)
            },
            (IpAddress::V6(a), IpAddress::V6(b)) => {
                let rest: u8 = 128 - self.prefix;
                drop_bits(a, rest) == drop_bits(b, rest)
            },
            _ => false,
        }
    }
}

/// The network that holds one address alone.
pub open spec fn single_host(ip: IpAddress) -> Net {
    Net { addr: ip, prefix: ip.width() as u8 }
}

/// A single address as a network (`/32` or `/128`).
fn host_net(ip: IpAddress) -> (r: Net)
    ensures
        r == single_host(ip),
        r.wf(),
{
    match ip {
        IpAddress::V4(_) => Net { addr: ip, prefix: 32 },
        IpAddress::V6(_) => Net { addr: ip, prefix: 128 },
    }
}

// ---------------------------------------------------------------------------
// Trusted: address literals
// ---------------------------------------------------------------------------

/// What `ipnet::IpNet::from_str` makes of a text.
pub uninterp spec fn net_literal(s: Seq<char>) -> Option<Net>;

/// `ipnet::IpNet::from_str`, which reads `address/prefix`: a function of the text
/// alone, and nothing for the empty text. A network that comes back has a prefix
/// within its family's width.
#[verifier::external_body]
fn parse_net(s: &str) -> (r: Option<Net>)
    ensures
        r == net_literal(s@),
        r matches Some(n) ==> n.wf(),
        s@.len() == 0 ==> r is None,
{
    match s.parse::<ipnet::IpNet>() {
        Ok(ipnet::IpNet::V4(n)) => {
            Some(Net { addr: IpAddress::V4(n.addr().into()), prefix: n.prefix_len() })
        },
        Ok(ipnet::IpNet::V6(n)) => {
            Some(Net { addr: IpAddress::V6(n.addr().into()), prefix: n.prefix_len() })
        },
        Err(_) => None,
    }
}

/// What the standard library's IP address parser makes of a text.
pub uninterp spec fn ip_literal(s: Seq<char>) -> Option<IpAddress>;

/// The standard library's `IpAddr::from_str`: a function of the text alone, and
/// nothing for the empty text. The address comes back through `ipnet::IpNet::new`
/// with prefix 0, which keeps it as it is.
#[verifier::external_body]
pub(crate) fn parse_ip(s: &str) -> (r: Option<IpAddress>)
    ensures
        r == ip_literal(s@),
        s@.len() == 0 ==> r is None,
{
    match s.parse().ok().and_then(|ip| ipnet::IpNet::new(ip, 0).ok()) {
        Some(ipnet::IpNet::V4(n)) => Some(IpAddress::V4(n.addr().into())),
        Some(ipnet::IpNet::V6(n)) => Some(IpAddress::V6(n.addr().into())),
        None => None,
    }
}

// ---------------------------------------------------------------------------
// Rules
// ---------------------------------------------------------------------------

/// An allow/deny decision for a single egress flow.
#[derive(Clone, Copy, Debug, PartialEq, Eq, Structural)]
pub enum Decision {
    /// The flow matches the allowlist; forward it.
    Allow,
    /// The flow matches no rule; reset/drop it.
    Deny,
}

/// What a rule matches against the connection's destination.
#[derive(Debug)]
pub enum HostMatch {
    /// Destination IP within a network. A bare IP is a host route.
    Net(Net),
    /// Destination hostname (TLS SNI or HTTP `Host`), matched case-insensitively.
    Domain(String),
}

/// Which destination port(s) a rule matches.
#[derive(Clone, Copy, Debug, PartialEq, Eq, Structural)]
pub enum PortMatch {
    /// Any port.
    Any,
    /// Exactly this port.
    Only(u16),
}

/// One allowlist entry.
#[derive(Debug)]
pub struct Rule {
    pub host: HostMatch,
    pub port: PortMatch,
}

/// The model of what a rule matches.
pub ghost enum HostView {
    Net(Net),
    Domain(Seq<char>),
}

/// The model of a rule.
pub ghost struct RuleView {
    pub host: HostView,
    pub port: PortMatch,
}

impl Rule {
    pub open spec fn view(&self) -> RuleView {
        RuleView {
            host: match self.host {
                HostMatch::Net(n) => HostView::Net(n),
                HostMatch::Domain(d) => HostView::Domain(d@),
            },
            port: self.port,
        }
    }
}

impl RuleView {
    /// A network in a rule is well formed.
    pub open spec fn wf(self) -> bool {
        self.host matches HostView::Net(n) ==> n.wf()
    }

    pub open spec fn port_matches(self, port: u16) -> bool {
        match self.port {
            PortMatch::Any => true,
            PortMatch::Only(p) => p == port,
        }
    }

    /// Whether the rule names the host, ports aside.
    pub open spec fn names(self, host: Seq<char>) -> bool {
        self.host matches HostView::Domain(d) && text::ascii_lowered(d) == text::ascii_lowered(host)
    }

    /// Whether the rule permits `(ip, port)` with an optional peeked hostname.
    pub open spec fn permits(self, ip: IpAddress, port: u16, hostname: Option<Seq<char>>) -> bool {
        &&& self.port_matches(port)
        &&& match self.host {
            HostView::Net(n) => n.holds(ip),
            HostView::Domain(_) => hostname matches Some(h) && self.names(h),
        }
    }
}

/// Whether two texts are equal up to the case of ASCII letters.
fn eq_ignore_ascii_case(a: &str, b: &str) -> (r: bool)
    ensures
        r == (text::ascii_lowered(a@) == text::ascii_lowered(b@)),
{
    let x = text::ascii_lowercase(a);
    let y = text::ascii_lowercase(b);
    text::str_eq(x.as_str(), y.as_str())
}

/// The view of an optional text.
pub open spec fn opt_text(s: Option<&str>) -> Option<Seq<char>> {
    match s {
        Some(h) => Some(h@),
        None => None,
    }
}

impl Rule {
    /// Whether this rule permits `(ip, port)` with an optional peeked hostname.
    fn matches(&self, ip: IpAddress, port: u16, hostname: Option<&str>) -> (r: bool)
        requires
            self@.wf(),
        ensures
            r == self@.permits(ip, port, opt_text(hostname)),
    {
        let port_ok = match self.port {
            PortMatch::Any => true,
            PortMatch::Only(p) => p == port,
        };
        if !port_ok {
            return false;
        }
        match &self.host {
            HostMatch::Net(net) => net.contains(ip),
            HostMatch::Domain(d) => match hostname {
                Some(h) => eq_ignore_ascii_case(h, d.as_str()),
                None => false,
            },
        }
    }
}

// ---------------------------------------------------------------------------
// Reading allow entries
// ---------------------------------------------------------------------------

/// Why an allow entry cannot be read.
pub ghost enum EntryFault {
    /// `[` without a `]`.
    Unterminated,
    /// Something other than `:port` after `]`.
    NoPortAfterBracket,
    /// A port that is not a number up to 65535.
    BadPort,
    /// Nothing where the host should be.
    EmptyHost,
}

/// The message for an allow entry that cannot be read.
pub open spec fn fault_text(f: EntryFault, entry: Seq<char>) -> Seq<char> {
    match f {
        EntryFault::Unterminated => "unterminated '[' in allow entry "@ + text::debug_text(entry),
        EntryFault::NoPortAfterBracket => "expected ':port' after ']' in "@ + text::debug_text(
            entry,
        ),
        EntryFault::BadPort => "invalid port in allow entry "@ + text::debug_text(entry),
        EntryFault::EmptyHost => "invalid allow entry "@ + text::debug_text(entry) + ": empty host"@,
    }
}

/// The number that a port text stands for: decimal digits, after an optional
/// plus sign, up to 65535.
pub open spec fn port_number(s: Seq<char>) -> Option<u16> {
    let digits = if s.len() > 0 && s[0] == '+' {
        s.skip(1)
    } else {
        s
    };
    if text::is_digits(digits) && text::number_of(digits) <= u16::MAX {
        Some(text::number_of(digits) as u16)
    } else {
        None
    }
}

/// The parts of an entry: its host, and its port where it has one.
///
/// A bracketed host (`[::1]:443`) ends at the first `]`. Otherwise exactly one
/// colon parts host and port (`host:443`, `10.0.0.5/32:443`); with none, or with
/// several (a bare IPv6 address), the entry is all host.
pub open spec fn entry_parts(s: Seq<char>) -> Result<(Seq<char>, Option<u16>), EntryFault> {
    if s.len() > 0 && s[0] == '[' {
        let rest = s.skip(1);
        let pieces = text::split_on(rest, ']');
        if pieces.len() < 2 {
            Err(EntryFault::Unterminated)
        } else {
            let addr = pieces[0];
            let after = rest.skip((addr.len() + 1) as int);
            if after.len() == 0 {
                Ok((addr, None))
            } else if after[0] != ':' {
                Err(EntryFault::NoPortAfterBracket)
            } else {
                match port_number(after.skip(1)) {
                    Some(p) => Ok((addr, Some(p))),
                    None => Err(EntryFault::BadPort),
                }
            }
        }
    } else {
        let pieces = text::split_on(s, ':');
        if pieces.len() == 2 {
            match port_number(pieces[1]) {
                Some(p) => Ok((pieces[0], Some(p))),
                None => Err(EntryFault::BadPort),
            }
        } else {
            Ok((s, None))
        }
    }
}

/// The rule for a host part: a network literal, else an address literal, else a
/// domain in lowercase.
pub open spec fn host_rule(
    host: Seq<char>,
    port: Option<u16>,
    net: Option<Net>,
    ip: Option<IpAddress>,
) -> Result<RuleView, EntryFault> {
    let port = match port {
        Some(p) => PortMatch::Only(p),
        None => PortMatch::Any,
    };
    match (net, ip) {
        (Some(n), _) => Ok(RuleView { host: HostView::Net(n), port }),
        (None, Some(a)) => Ok(RuleView { host: HostView::Net(single_host(a)), port }),
        (None, None) => if host.len() == 0 {
            Err(EntryFault::EmptyHost)
        } else {
            Ok(RuleView { host: HostView::Domain(text::ascii_lowered(host)), port })
        },
    }
}

/// The rule that an allow entry stands for.
pub open spec fn entry_rule(s: Seq<char>) -> Result<RuleView, EntryFault> {
    match entry_parts(s) {
        Ok((host, port)) => host_rule(host, port, net_literal(host), ip_literal(host)),
        Err(f) => Err(f),
    }
}

/// The number that a port text stands for.
fn parse_port(s: &str) -> (r: Option<u16>)
    ensures
        r == port_number(s@),
{
    let v = text::chars_of(s);
    let digits = if v.len() > 0 && v[0] == '+' {
        assert(s@.subrange(1, s@.len() as int) =~= s@.skip(1));
        text::string_of(&v, 1, v.len())
    } else {
        s.to_owned()
    };
    match text::parse_decimal(digits.as_str(), 65535) {
        Some(n) => Some(n as u16),
        None => None,
    }
}

fn unterminated(entry: &str) -> (e: NpxcError)
    ensures
        e matches NpxcError::Config(m) && m@ == fault_text(EntryFault::Unterminated, entry@),
{
    NpxcError::Config(
        text::cat("unterminated '[' in allow entry ", text::debug_str(entry).as_str()),
    )
}

fn no_port_after_bracket(entry: &str) -> (e: NpxcError)
    ensures
        e matches NpxcError::Config(m) && m@ == fault_text(EntryFault::NoPortAfterBracket, entry@),
{
    NpxcError::Config(
        text::cat("expected ':port' after ']' in ", text::debug_str(entry).as_str()),
    )
}

fn bad_port(entry: &str) -> (e: NpxcError)
    ensures
        e matches NpxcError::Config(m) && m@ == fault_text(EntryFault::BadPort, entry@),
{
    NpxcError::Config(text::cat("invalid port in allow entry ", text::debug_str(entry).as_str()))
}

fn empty_host(entry: &str) -> (e: NpxcError)
    ensures
        e matches NpxcError::Config(m) && m@ == fault_text(EntryFault::EmptyHost, entry@),
{
    let s = text::cat("invalid allow entry ", text::debug_str(entry).as_str());
    NpxcError::Config(text::cat(s.as_str(), ": empty host"))
}

/// The error that a fault is reported as.
pub open spec fn reports(e: NpxcError, f: EntryFault, entry: Seq<char>) -> bool {
    e matches NpxcError::Config(m) && m@ == fault_text(f, entry)
}

/// Splits an entry into its host part and an optional port.
fn split_host_port(entry: &str) -> (r: Result<(String, Option<u16>), NpxcError>)
    ensures
        match r {
            Ok((host, port)) => entry_parts(entry@) == Ok::<(Seq<char>, Option<u16>), EntryFault>(
                (host@, port),
            ),
            Err(e) => entry_parts(entry@) is Err && reports(e, entry_parts(entry@)->Err_0, entry@),
        },
{
    let v = text::chars_of(entry);
    if v.len() > 0 && v[0] == '[' {
        let ghost rest = entry@.skip(1);
        let mut k: usize = 1;
        while k < v.len() && v[k] != ']'
            invariant
                v@ == entry@,
                rest == entry@.skip(1),
                1 <= k <= v@.len(),
                forall|j: int| 0 <= j < k - 1 ==> rest[j] != ']',
            decreases v@.len() - k,
        {
            k = k + 1;
        }
        if k == v.len() {
            proof {
                assert(!rest.contains(']'));
                text::split_without(rest, ']');
            }
            return Err(unterminated(entry));
        }
        proof {
            assert(!rest.take(k - 1).contains(']'));
            text::split_first(rest, ']', k - 1);
            assert(rest.take(k - 1) =~= entry@.subrange(1, k as int));
            assert(rest.skip(k as int) =~= entry@.subrange(k + 1, entry@.len() as int));
        }
        let addr = text::string_of(&v, 1, k);
        let ghost after = rest.skip(k as int);
        if k + 1 == v.len() {
            return Ok((addr, None));
        }
        assert(after[0] == v@[k + 1]);
        if v[k + 1] != ':' {
            return Err(no_port_after_bracket(entry));
        }
        assert(after.skip(1) =~= entry@.subrange(k + 2, entry@.len() as int));
        let port = text::string_of(&v, k + 2, v.len());
        return match parse_port(port.as_str()) {
            Some(p) => Ok((addr, Some(p))),
            None => Err(bad_port(entry)),
        };
    }
    let pieces = text::split(entry, ':');
    let ghost all = text::split_on(entry@, ':');
    if pieces.len() == 2 {
        assert(all[0] == pieces@[0]@);
        assert(all[1] == pieces@[1]@);
        return match parse_port(pieces[1].as_str()) {
            Some(p) => Ok((pieces[0].clone(), Some(p))),
            None => Err(bad_port(entry)),
        };
    }
    Ok((entry.to_owned(), None))
}

/// The rule for the host part of `entry`, given what the two literal parsers made
/// of it.
pub fn rule_for_host(
    entry: &str,
    host: &str,
    port: Option<u16>,
    net: Option<Net>,
    ip: Option<IpAddress>,
) -> (r: Result<Rule, NpxcError>)
    ensures
        match r {
            Ok(rule) => host_rule(host@, port, net, ip) == Ok::<RuleView, EntryFault>(rule@),
            Err(e) => host_rule(host@, port, net, ip) is Err && reports(
                e,
                host_rule(host@, port, net, ip)->Err_0,
                entry@,
            ),
        },
{
    let port = match port {
        Some(p) => PortMatch::Only(p),
        None => PortMatch::Any,
    };
    match net {
        Some(n) => return Ok(Rule { host: HostMatch::Net(n), port }),
        None => {},
    }
    match ip {
        Some(a) => return Ok(Rule { host: HostMatch::Net(host_net(a)), port }),
        None => {},
    }
    if host.is_empty() {
        return Err(empty_host(entry));
    }
    Ok(Rule { host: HostMatch::Domain(text::ascii_lowercase(host)), port })
}

/// Reads one allow entry: `host[:port]`, `cidr[:port]`, or `[ipv6][:port]`, where
/// `host` is a domain or a bare IP.
fn parse_rule(entry: &str) -> (r: Result<Rule, NpxcError>)
    ensures
        match r {
            Ok(rule) => entry_rule(entry@) == Ok::<RuleView, EntryFault>(rule@) && rule@.wf()
                && entry_parts(entry@)->Ok_0.0.len() > 0,
            Err(e) => entry_rule(entry@) is Err && reports(e, entry_rule(entry@)->Err_0, entry@),
        },
{
    match split_host_port(entry) {
        Ok((host, port)) => {
            let net = parse_net(host.as_str());
            let ip = parse_ip(host.as_str());
            rule_for_host(entry, host.as_str(), port, net, ip)
        },
        Err(e) => Err(e),
    }
}

// ---------------------------------------------------------------------------
// Policies
// ---------------------------------------------------------------------------

/// A default-deny egress allowlist.
#[derive(Debug)]
pub struct Policy {
    rules: Vec<Rule>,
    /// The resolver pinned in the guest's `resolv.conf`.
    dns_resolver: IpAddress,
}

/// The rule that admits DNS to the pinned resolver.
pub open spec fn dns_rule(resolver: IpAddress) -> RuleView {
    RuleView { host: HostView::Net(single_host(resolver)), port: PortMatch::Only(53) }
}

/// Whether every entry can be read.
pub open spec fn all_readable(allow: Seq<Seq<char>>) -> bool {
    forall|i: int| 0 <= i < allow.len() ==> entry_rule(#[trigger] allow[i]) is Ok
}

/// Whether every entry that comes apart has a host that is not empty.
pub open spec fn all_have_hosts(allow: Seq<Seq<char>>) -> bool {
    forall|i: int|
        0 <= i < allow.len() ==> (entry_parts(#[trigger] allow[i]) matches Ok((host, _))
            ==> host.len() > 0)
}

/// The first entry that cannot be read is at `i`.
pub open spec fn first_unreadable(allow: Seq<Seq<char>>, i: int) -> bool {
    &&& 0 <= i < allow.len()
    &&& entry_rule(allow[i]) is Err
    &&& forall|j: int| 0 <= j < i ==> entry_rule(#[trigger] allow[j]) is Ok
}

/// The rules of the entries, in order.
pub open spec fn entry_rules(allow: Seq<Seq<char>>) -> Seq<RuleView> {
    allow.map_values(|s: Seq<char>| entry_rule(s)->Ok_0)
}

/// The error for a list of entries is that of its first unreadable one.
pub open spec fn reports_first(e: NpxcError, allow: Seq<Seq<char>>) -> bool {
    exists|i: int| #[trigger]
        first_unreadable(allow, i) && reports(e, entry_rule(allow[i])->Err_0, allow[i])
}

impl Policy {
    /// The rules, in order; the last one admits DNS to the pinned resolver.
    pub closed spec fn rules(&self) -> Seq<RuleView> {
        self.rules@.map_values(|r: Rule| r@)
    }

    /// The pinned resolver.
    pub closed spec fn resolver(&self) -> IpAddress {
        self.dns_resolver
    }

    #[verifier::type_invariant]
    spec fn inv(&self) -> bool {
        forall|i: int| 0 <= i < self.rules@.len() ==> (#[trigger] self.rules@[i])@.wf()
    }

    /// Builds a policy from allow entries plus an implicit allowance for DNS
    /// (port 53) to the pinned resolver. The allowance is mandatory: hostname
    /// rules are useless if the guest cannot resolve names.
    pub fn build(allow: &Vec<String>, dns_resolver: IpAddress) -> (r: Result<Policy, NpxcError>)
        ensures
            match r {
                Ok(p) => all_readable(text::texts(allow@)) && all_have_hosts(text::texts(allow@))
                    && p.resolver() == dns_resolver
                    && p.rules() == entry_rules(text::texts(allow@)).push(dns_rule(dns_resolver)),
                Err(e) => reports_first(e, text::texts(allow@)),
            },
    {
        let ghost entries = text::texts(allow@);
        let mut rules: Vec<Rule> = Vec::new();
        let mut i: usize = 0;
        while i < allow.len()
            invariant
                entries == text::texts(allow@),
                i <= allow@.len(),
                rules@.len() == i,
                forall|j: int|
                    0 <= j < i ==> entry_rule(#[trigger] entries[j]) is Ok && entry_parts(
                        entries[j],
                    )->Ok_0.0.len() > 0,
                forall|j: int|
                    0 <= j < i ==> (#[trigger] rules@[j])@.wf() && entry_rule(entries[j]) == Ok::<
                        RuleView,
                        EntryFault,
                    >(rules@[j]@),
            decreases allow@.len() - i,
        {
            assert(entries[i as int] == allow@[i as int]@);
            match parse_rule(allow[i].as_str()) {
                Ok(rule) => rules.push(rule),
                Err(e) => {
                    assert(first_unreadable(entries, i as int));
                    return Err(e);
                },
            }
            i = i + 1;
        }
        rules.push(
            Rule { host: HostMatch::Net(host_net(dns_resolver)), port: PortMatch::Only(53) },
        );
        let p = Policy { rules, dns_resolver };
        assert(p.rules() =~= entry_rules(entries).push(dns_rule(dns_resolver)));
        Ok(p)
    }

    /// Decides whether a flow to `(ip, port)`, optionally carrying a peeked
    /// `hostname`, is permitted.
    #[must_use]
    pub fn evaluate(&self, ip: IpAddress, port: u16, hostname: Option<&str>) -> (r: Decision)
        ensures
            r == decision(self.rules(), ip, port, opt_text(hostname)),
    {
        proof {
            use_type_invariant(self);
        }
        let ghost rules = self.rules();
        let mut i: usize = 0;
        while i < self.rules.len()
            invariant
                rules == self.rules(),
                self.inv(),
                i <= self.rules@.len(),
                forall|j: int|
                    0 <= j < i ==> !(#[trigger] rules[j]).permits(ip, port, opt_text(hostname)),
            decreases self.rules@.len() - i,
        {
            assert(rules[i as int] == self.rules@[i as int]@);
            if self.rules[i].matches(ip, port, hostname) {
                return Decision::Allow;
            }
            i = i + 1;
        }
        Decision::Deny
    }

    /// Whether any domain rule in the allowlist covers `name`, ignoring ports.
    #[must_use]
    pub fn allows_name(&self, name: &str) -> (r: bool)
        ensures
            r == name_allowed(self.rules(), name@),
    {
        let ghost rules = self.rules();
        let mut i: usize = 0;
        while i < self.rules.len()
            invariant
                rules == self.rules(),
                i <= self.rules@.len(),
                forall|j: int| 0 <= j < i ==> !(#[trigger] rules[j]).names(name@),
            decreases self.rules@.len() - i,
        {
            assert(rules[i as int] == self.rules@[i as int]@);
            match &self.rules[i].host {
                HostMatch::Domain(d) => {
                    if eq_ignore_ascii_case(d.as_str(), name) {
                        assert(rules[i as int].names(name@));
                        return true;
                    }
                },
                HostMatch::Net(_) => {},
            }
            i = i + 1;
        }
        false
    }

    /// The pinned DNS resolver address.
    #[must_use]
    pub fn dns_resolver(&self) -> (r: IpAddress)
        ensures
            r == self.resolver(),
    {
        self.dns_resolver
    }
}

/// A flow is allowed exactly when some rule permits it.
pub open spec fn decision(
    rules: Seq<RuleView>,
    ip: IpAddress,
    port: u16,
    hostname: Option<Seq<char>>,
) -> Decision {
    if exists|i: int|
        0 <= i < rules.len() && (#[trigger] rules[i]).permits(ip, port, hostname) {
        Decision::Allow
    } else {
        Decision::Deny
    }
}

/// A name may be resolved exactly when some domain rule names it.
pub open spec fn name_allowed(rules: Seq<RuleView>, name: Seq<char>) -> bool {
    exists|i: int| 0 <= i < rules.len() && (#[trigger] rules[i]).names(name)
}

/// Checks that every allow entry can be read, without building a policy.
pub fn validate(allow: &Vec<String>) -> (r: Result<(), NpxcError>)
    ensures
        match r {
            Ok(_) => all_readable(text::texts(allow@)) && all_have_hosts(text::texts(allow@)),
            Err(e) => reports_first(e, text::texts(allow@)),
        },
{
    let ghost entries = text::texts(allow@);
    let mut i: usize = 0;
    while i < allow.len()
        invariant
            entries == text::texts(allow@),
            i <= allow@.len(),
            forall|j: int|
                0 <= j < i ==> entry_rule(#[trigger] entries[j]) is Ok && entry_parts(
                    entries[j],
                )->Ok_0.0.len() > 0,
        decreases allow@.len() - i,
    {
        assert(entries[i as int] == allow@[i as int]@);
        match parse_rule(allow[i].as_str()) {
            Ok(_) => {},
            Err(e) => {
                assert(first_unreadable(entries, i as int));
                return Err(e);
            },
        }
        i = i + 1;
    }
    Ok(())
}

// ---------------------------------------------------------------------------
// Laws
// ---------------------------------------------------------------------------

/// A host route holds its own address and no other.
pub proof fn host_route_is_one_address(addr: IpAddress, ip: IpAddress)
    ensures
        single_host(addr).wf(),
        single_host(addr).holds(ip) <==> ip == addr,
{
    assert(upper_bits(addr.value(), 0) == addr.value());
    assert(upper_bits(ip.value(), 0) == ip.value());
}

/// An empty allowlist denies everything but DNS to the pinned resolver.
pub proof fn empty_allowlist_denies_all_but_dns(
    resolver: IpAddress,
    ip: IpAddress,
    port: u16,
    hostname: Option<Seq<char>>,
)
    ensures
        ({
            let rules = entry_rules(Seq::empty()).push(dns_rule(resolver));
            decision(rules, ip, port, hostname) == Decision::Allow <==> ip == resolver && port == 53
        }),
{
    let rules = entry_rules(Seq::empty()).push(dns_rule(resolver));
    host_route_is_one_address(resolver, ip);
    assert(rules.len() == 1);
    assert(rules[0] == dns_rule(resolver));
    if ip == resolver && port == 53 {
        assert(rules[0].permits(ip, port, hostname));
    }
}

/// DNS to the pinned resolver is allowed whatever the allowlist says.
pub proof fn dns_is_always_allowed(
    entries: Seq<RuleView>,
    resolver: IpAddress,
    hostname: Option<Seq<char>>,
)
    ensures
        decision(entries.push(dns_rule(resolver)), resolver, 53, hostname) == Decision::Allow,
{
    let rules = entries.push(dns_rule(resolver));
    host_route_is_one_address(resolver, resolver);
    assert(rules[entries.len() as int] == dns_rule(resolver));
    assert(rules[entries.len() as int].permits(resolver, 53, hostname));
}

/// Further rules take nothing away: what is allowed stays allowed.
pub proof fn more_rules_allow_more(
    fewer: Seq<RuleView>,
    more: Seq<RuleView>,
    ip: IpAddress,
    port: u16,
    hostname: Option<Seq<char>>,
)
    requires
        forall|i: int| 0 <= i < fewer.len() ==> more.contains(#[trigger] fewer[i]),
        decision(fewer, ip, port, hostname) == Decision::Allow,
    ensures
        decision(more, ip, port, hostname) == Decision::Allow,
{
    let i = choose|i: int|
        0 <= i < fewer.len() && (#[trigger] fewer[i]).permits(ip, port, hostname);
    assert(more.contains(fewer[i]));
    let k = choose|k: int| 0 <= k < more.len() && more[k] == fewer[i];
    assert(more[k].permits(ip, port, hostname));
}

/// The order of the rules makes no difference.
pub proof fn rule_order_is_irrelevant(
    a: Seq<RuleView>,
    b: Seq<RuleView>,
    ip: IpAddress,
    port: u16,
    hostname: Option<Seq<char>>,
)
    requires
        forall|i: int| 0 <= i < a.len() ==> b.contains(#[trigger] a[i]),
        forall|i: int| 0 <= i < b.len() ==> a.contains(#[trigger] b[i]),
    ensures
        decision(a, ip, port, hostname) == decision(b, ip, port, hostname),
{
    if decision(a, ip, port, hostname) == Decision::Allow {
        more_rules_allow_more(a, b, ip, port, hostname);
    }
    if decision(b, ip, port, hostname) == Decision::Allow {
        more_rules_allow_more(b, a, ip, port, hostname);
    }
}

/// Hostnames that differ only in the case of ASCII letters are treated alike, for
/// flows and for name resolution.
pub proof fn hostname_case_is_irrelevant(
    rules: Seq<RuleView>,
    ip: IpAddress,
    port: u16,
    a: Seq<char>,
    b: Seq<char>,
)
    requires
        text::ascii_lowered(a) == text::ascii_lowered(b),
    ensures
        decision(rules, ip, port, Some(a)) == decision(rules, ip, port, Some(b)),
        name_allowed(rules, a) == name_allowed(rules, b),
{
    assert forall|i: int| 0 <= i < rules.len() implies (#[trigger] rules[i]).permits(
        ip,
        port,
        Some(a),
    ) == rules[i].permits(ip, port, Some(b)) && rules[i].names(a) == rules[i].names(b) by {}
}

/// Without a peeked hostname, only address rules can allow a flow.
pub proof fn no_hostname_needs_an_address_rule(rules: Seq<RuleView>, ip: IpAddress, port: u16)
    requires
        forall|i: int| 0 <= i < rules.len() ==> (#[trigger] rules[i]).host is Domain,
    ensures
        decision(rules, ip, port, None) == Decision::Deny,
{
}

/// A name that may be resolved may also be reached, at some port.
pub proof fn resolvable_names_are_reachable(rules: Seq<RuleView>, ip: IpAddress, name: Seq<char>)
    requires
        name_allowed(rules, name),
    ensures
        exists|port: u16| #[trigger] decision(rules, ip, port, Some(name)) == Decision::Allow,
{
    let i = choose|i: int| 0 <= i < rules.len() && (#[trigger] rules[i]).names(name);
    let port = match rules[i].port {
        PortMatch::Any => 0u16,
        PortMatch::Only(p) => p,
    };
    assert(rules[i].permits(ip, port, Some(name)));
    assert(decision(rules, ip, port, Some(name)) == Decision::Allow);
}

/// An address rule allows its flows whatever hostname was peeked.
pub proof fn address_rules_ignore_hostnames(
    rule: RuleView,
    ip: IpAddress,
    port: u16,
    a: Option<Seq<char>>,
    b: Option<Seq<char>>,
)
    requires
        rule.host is Net,
    ensures
        rule.permits(ip, port, a) == rule.permits(ip, port, b),
{
}

proof fn decimals_are_ports(n: u16)
    ensures
        port_number(text::decimal(n as nat)) == Some(n),
        !text::decimal(n as nat).contains(':'),
{
    let digits = text::decimal(n as nat);
    text::decimal_is_digits(n as nat);
    assert(text::is_ascii_digit(digits[0]));
    assert forall|i: int| 0 <= i < digits.len() implies digits[i] != ':' by {
        assert(text::is_ascii_digit(digits[i]));
    }
}

/// How entries are written: a host alone, or a host, a colon and a port. A host with
/// several colons, as IPv6 addresses have them, is all host.
pub proof fn entries_are_hosts_and_ports(host: Seq<char>, port: u16)
    requires
        host.len() == 0 || host[0] != '[',
    ensures
        !host.contains(':') ==> entry_parts(host) == Ok::<_, EntryFault>((host, None::<u16>)),
        !host.contains(':') ==> entry_parts(host.push(':') + text::decimal(port as nat)) == Ok::<
            _,
            EntryFault,
        >((host, Some(port))),
        (exists|i: int, j: int| 0 <= i < j < host.len() && host[i] == ':' && host[j] == ':')
            ==> entry_parts(host) == Ok::<_, EntryFault>((host, None::<u16>)),
{
    let digits = text::decimal(port as nat);
    decimals_are_ports(port);
    if !host.contains(':') {
        text::split_without(host, ':');
        text::split_append(host, ':', digits);
        let whole = host.push(':') + digits;
        assert(whole[0] != '[') by {
            if host.len() > 0 {
                assert(whole[0] == host[0]);
            } else {
                assert(whole[0] == ':');
            }
        }
        assert(seq![host].push(digits) =~= seq![host, digits]);
    } else if exists|i: int, j: int|
        0 <= i < j < host.len() && host[i] == ':' && host[j] == ':' {
        let (i, j) = choose|i: int, j: int|
            0 <= i < j < host.len() && host[i] == ':' && host[j] == ':';
        text::split_at_two(host, ':', i, j);
    }
}

/// A host in brackets ends at the closing bracket; a colon and a port may follow.
pub proof fn bracketed_entries_are_hosts_and_ports(host: Seq<char>, port: u16)
    requires
        !host.contains(']'),
    ensures
        entry_parts(seq!['['] + host + seq![']']) == Ok::<_, EntryFault>((host, None::<u16>)),
        entry_parts(seq!['['] + host + seq![']', ':'] + text::decimal(port as nat)) == Ok::<
            _,
            EntryFault,
        >((host, Some(port))),
{
    let digits = text::decimal(port as nat);
    decimals_are_ports(port);
    let k = host.len() as int;
    let a = seq!['['] + host + seq![']'];
    let rest = a.skip(1);
    assert(rest.take(k) =~= host);
    text::split_first(rest, ']', k);
    assert(rest.skip(k + 1) =~= Seq::<char>::empty());
    let b = seq!['['] + host + seq![']', ':'] + digits;
    let more = b.skip(1);
    assert(more.take(k) =~= host);
    text::split_first(more, ']', k);
    assert(more.skip(k + 1)[0] == ':');
    assert(more.skip(k + 1).skip(1) =~= digits);
}

/// The rules of an allowlist with one entry, and of DNS to the resolver.
pub open spec fn rules_of_one(entry: Seq<char>, resolver: IpAddress) -> Seq<RuleView> {
    entry_rules(seq![entry]).push(dns_rule(resolver))
}

proof fn one_entry_decides(
    entry: Seq<char>,
    resolver: IpAddress,
    ip: IpAddress,
    port: u16,
    hostname: Option<Seq<char>>,
)
    ensures
        decision(rules_of_one(entry, resolver), ip, port, hostname) == Decision::Allow <==> (ip
            == resolver && port == 53) || (entry_rule(entry)->Ok_0).permits(ip, port, hostname),
        hostname is Some ==> (name_allowed(rules_of_one(entry, resolver), hostname->0) <==> (
        entry_rule(entry)->Ok_0).names(hostname->0)),
{
    let rules = rules_of_one(entry, resolver);
    host_route_is_one_address(resolver, ip);
    assert(rules.len() == 2);
    assert(rules[0] == entry_rule(entry)->Ok_0);
    assert(rules[1] == dns_rule(resolver));
    if ip == resolver && port == 53 {
        assert(rules[1].permits(ip, port, hostname));
    }
    if rules[0].permits(ip, port, hostname) {
        assert(decision(rules, ip, port, hostname) == Decision::Allow);
    }
}

/// An allow entry that is a domain, with a port or without, admits flows to that very
/// hostname and to no other: the names have the same length and are equal character by
/// character, up to the case of ASCII letters. DNS to the resolver aside, the port has
/// to be the one of the entry, and a flow without a hostname is denied. The name is
/// resolved in the same case.
pub proof fn domain_entries_admit_their_name_alone(
    domain: Seq<char>,
    only: Option<u16>,
    resolver: IpAddress,
    ip: IpAddress,
    port: u16,
    hostname: Option<Seq<char>>,
)
    requires
        domain.len() > 0,
        domain[0] != '[',
        !domain.contains(':'),
        net_literal(domain) is None,
        ip_literal(domain) is None,
    ensures
        ({
            let entry = match only {
                Some(p) => domain.push(':') + text::decimal(p as nat),
                None => domain,
            };
            let rules = entry_rules(seq![entry]).push(dns_rule(resolver));
            &&& all_readable(seq![entry])
            &&& decision(rules, ip, port, hostname) == Decision::Allow <==> (ip == resolver && port
                == 53) || ((only matches Some(p) ==> p == port) && hostname is Some
                && hostname->0.len() == domain.len() && forall|i: int|
                0 <= i < domain.len() ==> text::same_letter(
                    #[trigger] domain[i],
                    hostname->0[i],
                ))
            &&& hostname is Some ==> (name_allowed(rules, hostname->0) <==> hostname->0.len()
                == domain.len() && forall|i: int|
                0 <= i < domain.len() ==> text::same_letter(
                    #[trigger] domain[i],
                    hostname->0[i],
                ))
        }),
{
    let entry = match only {
        Some(p) => domain.push(':') + text::decimal(p as nat),
        None => domain,
    };
    entries_are_hosts_and_ports(
        domain,
        match only {
            Some(p) => p,
            None => 0,
        },
    );
    one_entry_decides(entry, resolver, ip, port, hostname);
    let rule = entry_rule(entry)->Ok_0;
    assert(seq![entry][0] == entry);
    assert(entry_rule(entry) is Ok);
    assert(rule.host == HostView::Domain(text::ascii_lowered(domain)));
    if let Some(h) = hostname {
        text::lowercase_tells_letters(domain, h);
        assert(rule.names(h) <==> text::same_letters(domain, h));
    }
}

/// An allow entry that is an address, with a port or without, admits flows to that very
/// address, whatever hostname they name, and resolves no name.
pub proof fn address_entries_admit_their_address_alone(
    host: Seq<char>,
    address: IpAddress,
    only: Option<u16>,
    resolver: IpAddress,
    ip: IpAddress,
    port: u16,
    hostname: Option<Seq<char>>,
)
    requires
        host.len() == 0 || host[0] != '[',
        !host.contains(':'),
        net_literal(host) is None,
        ip_literal(host) == Some(address),
    ensures
        ({
            let entry = match only {
                Some(p) => host.push(':') + text::decimal(p as nat),
                None => host,
            };
            let rules = entry_rules(seq![entry]).push(dns_rule(resolver));
            &&& all_readable(seq![entry])
            &&& decision(rules, ip, port, hostname) == Decision::Allow <==> (ip == resolver && port
                == 53) || ((only matches Some(p) ==> p == port) && ip == address)
            &&& hostname is Some ==> !name_allowed(rules, hostname->0)
        }),
{
    let entry = match only {
        Some(p) => host.push(':') + text::decimal(p as nat),
        None => host,
    };
    entries_are_hosts_and_ports(
        host,
        match only {
            Some(p) => p,
            None => 0,
        },
    );
    one_entry_decides(entry, resolver, ip, port, hostname);
    host_route_is_one_address(address, ip);
    assert(seq![entry][0] == entry);
}

/// An allow entry that is a network, in brackets and with a port, admits flows to its
/// addresses at that port, whatever hostname they name, and resolves no name.
pub proof fn network_entries_admit_their_addresses_alone(
    host: Seq<char>,
    net: Net,
    only: u16,
    resolver: IpAddress,
    ip: IpAddress,
    port: u16,
    hostname: Option<Seq<char>>,
)
    requires
        !host.contains(']'),
        net_literal(host) == Some(net),
        net.wf(),
    ensures
        ({
            let entry = seq!['['] + host + seq![']', ':'] + text::decimal(only as nat);
            let rules = entry_rules(seq![entry]).push(dns_rule(resolver));
            &&& all_readable(seq![entry])
            &&& decision(rules, ip, port, hostname) == Decision::Allow <==> (ip == resolver && port
                == 53) || (port == only && match (net.addr, ip) {
                (IpAddress::V4(a), IpAddress::V4(b)) => a as nat / pow2((32 - net.prefix) as nat)
                    == b as nat / pow2((32 - net.prefix) as nat),
                (IpAddress::V6(a), IpAddress::V6(b)) => a as nat / pow2((128 - net.prefix) as nat)
                    == b as nat / pow2((128 - net.prefix) as nat),
                _ => false,
            })
            &&& hostname is Some ==> !name_allowed(rules, hostname->0)
        }),
{
    let entry = seq!['['] + host + seq![']', ':'] + text::decimal(only as nat);
    bracketed_entries_are_hosts_and_ports(host, only);
    one_entry_decides(entry, resolver, ip, port, hostname);
    networks_hold_by_leading_bits(net, ip);
    assert(seq![entry][0] == entry);
}

proof fn upper_bits_divide(x: nat, k: nat)
    ensures
        upper_bits(x, k) == x / pow2(k),
    decreases k,
{
    if k == 0 {
        lemma2_to64();
    } else {
        upper_bits_divide(x / 2, (k - 1) as nat);
        lemma_pow2_unfold(k);
        lemma_pow2_pos((k - 1) as nat);
        lemma_div_denominator(x as int, 2, pow2((k - 1) as nat) as int);
    }
}

/// A network holds the addresses of its family that agree with its own in the bits of
/// its prefix.
pub proof fn networks_hold_by_leading_bits(net: Net, ip: IpAddress)
    requires
        net.wf(),
    ensures
        net.holds(ip) <==> match (net.addr, ip) {
            (IpAddress::V4(a), IpAddress::V4(b)) => a as nat / pow2((32 - net.prefix) as nat)
                == b as nat / pow2((32 - net.prefix) as nat),
            (IpAddress::V6(a), IpAddress::V6(b)) => a as nat / pow2((128 - net.prefix) as nat)
                == b as nat / pow2((128 - net.prefix) as nat),
            _ => false,
        },
{
    let rest = (net.addr.width() - net.prefix) as nat;
    upper_bits_divide(net.addr.value(), rest);
    upper_bits_divide(ip.value(), rest);
}

/// The entries of an allowlist count each on its own: a flow is allowed, or a name
/// resolved, exactly where one of them alone would do.
pub proof fn entries_count_on_their_own(
    allow: Seq<Seq<char>>,
    resolver: IpAddress,
    ip: IpAddress,
    port: u16,
    hostname: Option<Seq<char>>,
)
    requires
        allow.len() > 0,
    ensures
        decision(entry_rules(allow).push(dns_rule(resolver)), ip, port, hostname)
            == Decision::Allow <==> exists|i: int|
            0 <= i < allow.len() && decision(
                entry_rules(seq![#[trigger] allow[i]]).push(dns_rule(resolver)),
                ip,
                port,
                hostname,
            ) == Decision::Allow,
        hostname is Some ==> (name_allowed(
            entry_rules(allow).push(dns_rule(resolver)),
            hostname->0,
        ) <==> exists|i: int|
            0 <= i < allow.len() && name_allowed(
                entry_rules(seq![#[trigger] allow[i]]).push(dns_rule(resolver)),
                hostname->0,
            )),
{
    let all = entry_rules(allow).push(dns_rule(resolver));
    host_route_is_one_address(resolver, ip);
    assert forall|i: int| 0 <= i < allow.len() implies (decision(
        rules_of_one(#[trigger] allow[i], resolver),
        ip,
        port,
        hostname,
    ) == Decision::Allow <==> (ip == resolver && port == 53) || all[i].permits(
        ip,
        port,
        hostname,
    )) && (hostname is Some ==> (name_allowed(rules_of_one(allow[i], resolver), hostname->0)
        <==> all[i].names(hostname->0))) by {
        one_entry_decides(allow[i], resolver, ip, port, hostname);
        assert(all[i] == entry_rule(allow[i])->Ok_0);
    }
    let n = allow.len() as int;
    assert(all[n] == dns_rule(resolver));
    if decision(all, ip, port, hostname) == Decision::Allow {
        let i = choose|i: int| 0 <= i < all.len() && (#[trigger] all[i]).permits(ip, port, hostname);
        let k = if i == n {
            0
        } else {
            i
        };
        assert(decision(rules_of_one(allow[k], resolver), ip, port, hostname) == Decision::Allow);
    }
    if exists|i: int|
        0 <= i < allow.len() && decision(
            rules_of_one(#[trigger] allow[i], resolver),
            ip,
            port,
            hostname,
        ) == Decision::Allow {
        let i = choose|i: int|
            0 <= i < allow.len() && decision(
                rules_of_one(#[trigger] allow[i], resolver),
                ip,
                port,
                hostname,
            ) == Decision::Allow;
        if ip == resolver && port == 53 {
            assert(all[n].permits(ip, port, hostname));
        } else {
            assert(all[i].permits(ip, port, hostname));
        }
    }
    if let Some(h) = hostname {
        if name_allowed(all, h) {
            let i = choose|i: int| 0 <= i < all.len() && (#[trigger] all[i]).names(h);
            assert(name_allowed(rules_of_one(allow[i], resolver), h));
        }
        if exists|i: int|
            0 <= i < allow.len() && name_allowed(rules_of_one(#[trigger] allow[i], resolver), h) {
            let i = choose|i: int|
                0 <= i < allow.len() && name_allowed(rules_of_one(#[trigger] allow[i], resolver), h);
            assert(all[i].names(h));
        }
    }
}

/// A list of entries can be read exactly where each of them can: one that cannot is not
/// made up for by the others.
pub proof fn every_entry_has_to_be_readable(a: Seq<Seq<char>>, entry: Seq<char>, b: Seq<Seq<char>>)
    ensures
        all_readable(a + seq![entry] + b) <==> all_readable(a) && all_readable(seq![entry])
            && all_readable(b),
        all_readable(seq![entry]) <==> entry_rule(entry) is Ok,
        all_readable(Seq::empty()),
{
    let one = seq![entry];
    let all = a + one + b;
    assert(one[0] == entry);
    if all_readable(all) {
        assert forall|i: int| 0 <= i < a.len() implies entry_rule(#[trigger] a[i]) is Ok by {
            assert(all[i] == a[i]);
        }
        assert(all[a.len() as int] == entry);
        assert forall|i: int| 0 <= i < b.len() implies entry_rule(#[trigger] b[i]) is Ok by {
            assert(all[a.len() + 1 + i] == b[i]);
        }
    }
    if all_readable(a) && all_readable(one) && all_readable(b) {
        assert forall|i: int| 0 <= i < all.len() implies entry_rule(#[trigger] all[i]) is Ok by {
            if i < a.len() {
                assert(all[i] == a[i]);
            } else if i > a.len() {
                assert(all[i] == b[i - a.len() - 1]);
            }
        }
    }
}

/// Entries that cannot be read: a bracket that is not closed, something other than a
/// port after a bracket, a port that is no number or too large a one, and nothing where
/// the host should be.
pub proof fn malformed_entries_are_refused(host: Seq<char>, port: Seq<char>, i: int)
    ensures
        !host.contains(']') ==> entry_rule(seq!['['] + host) == Err::<RuleView, EntryFault>(
            EntryFault::Unterminated,
        ),
        !host.contains(']') && port.len() > 0 && port[0] != ':' ==> entry_rule(
            seq!['['] + host + seq![']'] + port,
        ) == Err::<RuleView, EntryFault>(EntryFault::NoPortAfterBracket),
        (host.len() == 0 || host[0] != '[') && !host.contains(':') && !port.contains(':') && (
        port.len() == 0 || (0 <= i < port.len() && !('0' <= port[i] && port[i] <= '9') && port[0]
            != '+') || (text::is_digits(port) && text::number_of(port) > 65535)) ==> entry_rule(
            host.push(':') + port,
        ) == Err::<RuleView, EntryFault>(EntryFault::BadPort),
        net_literal(Seq::empty()) is None && ip_literal(Seq::empty()) is None ==> entry_rule(
            Seq::empty(),
        ) == Err::<RuleView, EntryFault>(EntryFault::EmptyHost),
{
    let none = Seq::<char>::empty();
    if !host.contains(']') {
        let a = seq!['['] + host;
        assert(a.skip(1) =~= host);
        text::split_without(host, ']');
        if port.len() > 0 && port[0] != ':' {
            let k = host.len() as int;
            let b = seq!['['] + host + seq![']'] + port;
            let rest = b.skip(1);
            assert(rest.take(k) =~= host);
            assert(rest[k] == ']');
            text::split_first(rest, ']', k);
            assert(rest.skip(k + 1) =~= port);
        }
    }
    if (host.len() == 0 || host[0] != '[') && !host.contains(':') && !port.contains(':') {
        let whole = host.push(':') + port;
        text::split_without(host, ':');
        text::split_append(host, ':', port);
        assert(text::split_on(whole, ':') =~= seq![host, port]);
        assert(whole[0] != '[') by {
            if host.len() > 0 {
                assert(whole[0] == host[0]);
            } else {
                assert(whole[0] == ':');
            }
        }
        if port.len() == 0 {
            assert(!text::is_digits(port));
        } else if 0 <= i < port.len() && !('0' <= port[i] && port[i] <= '9') && port[0] != '+' {
            assert(!text::is_ascii_digit(port[i]));
            assert(!text::is_digits(port));
        } else if text::is_digits(port) {
            assert(text::is_ascii_digit(port[0]));
        }
    }
    assert(text::split_on(none, ':').len() == 1);
}

/// What is said of an entry that cannot be read names the entry, and the reason.
pub proof fn faults_are_told_apart(entry: Seq<char>)
    ensures
        fault_text(EntryFault::Unterminated, entry) == "unterminated '[' in allow entry "@
            + text::debug_text(entry),
        fault_text(EntryFault::NoPortAfterBracket, entry) == "expected ':port' after ']' in "@
            + text::debug_text(entry),
        fault_text(EntryFault::BadPort, entry) == "invalid port in allow entry "@
            + text::debug_text(entry),
        fault_text(EntryFault::EmptyHost, entry) == "invalid allow entry "@ + text::debug_text(
            entry,
        ) + ": empty host"@,
{
}

} // verus!
