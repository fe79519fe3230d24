//! The egress allowlist.

use npxc::error::NpxcError;
use npxc::tunnel::policy::{validate, Decision, IpAddress, Net, Policy};

const DNS: IpAddress = IpAddress::V4(0x0101_0101);

fn owned(entries: &[&str]) -> Vec<String> {
    entries.iter().map(|s| (*s).to_string()).collect()
}

fn policy(entries: &[&str]) -> Policy {
    Policy::build(&owned(entries), DNS).unwrap()
}

fn v4(text: &str) -> IpAddress {
    let octets = text.split('.').map(|o| o.parse::<u32>().unwrap());
    IpAddress::V4(octets.fold(0, |n, o| n * 256 + o))
}

/// An address with at most one `::`.
fn v6(text: &str) -> IpAddress {
    let groups = |part: &str| -> Vec<u128> {
        part.split(':').filter(|g| !g.is_empty()).map(|g| u128::from_str_radix(g, 16).unwrap()).collect()
    };
    let (head, tail) = text.split_once("::").unwrap_or((text, ""));
    let (head, tail) = (groups(head), groups(tail));
    let zeros = vec![0u128; 8 - head.len() - tail.len()];
    let all = head.iter().chain(zeros.iter()).chain(tail.iter());
    IpAddress::V6(all.fold(0, |n, g| n * 65536 + g))
}

fn ip(text: &str) -> IpAddress {
    if text.contains(':') {
        v6(text)
    } else {
        v4(text)
    }
}

#[test]
fn empty_allowlist_denies_everything_but_dns() {
    let p = policy(&[]);
    assert_eq!(p.evaluate(ip("93.184.216.34"), 443, Some("example.com")), Decision::Deny);
    assert_eq!(p.evaluate(DNS, 53, None), Decision::Allow);
    assert_eq!(p.evaluate(DNS, 443, None), Decision::Deny);
    assert_eq!(p.evaluate(ip("8.8.8.8"), 53, None), Decision::Deny);
}

#[test]
fn domain_rule_matches_sni_case_insensitively() {
    let p = policy(&["api.anthropic.com:443"]);
    assert_eq!(p.evaluate(ip("1.2.3.4"), 443, Some("api.anthropic.com")), Decision::Allow);
    assert_eq!(p.evaluate(ip("1.2.3.4"), 443, Some("API.Anthropic.COM")), Decision::Allow);
    assert_eq!(p.evaluate(ip("1.2.3.4"), 443, Some("evil.com")), Decision::Deny);
    assert_eq!(p.evaluate(ip("1.2.3.4"), 80, Some("api.anthropic.com")), Decision::Deny);
    assert_eq!(p.evaluate(ip("1.2.3.4"), 443, None), Decision::Deny);
}

#[test]
fn domain_rule_without_port_matches_any_port() {
    let p = policy(&["example.com"]);
    assert_eq!(p.evaluate(ip("1.2.3.4"), 443, Some("example.com")), Decision::Allow);
    assert_eq!(p.evaluate(ip("1.2.3.4"), 8443, Some("example.com")), Decision::Allow);
}

#[test]
fn cidr_rule_matches_destination_ip() {
    let p = policy(&["10.0.0.0/24:5432"]);
    assert_eq!(p.evaluate(ip("10.0.0.5"), 5432, None), Decision::Allow);
    assert_eq!(p.evaluate(ip("10.0.0.250"), 5432, None), Decision::Allow);
    assert_eq!(p.evaluate(ip("10.0.1.5"), 5432, None), Decision::Deny);
    assert_eq!(p.evaluate(ip("10.0.0.5"), 5433, None), Decision::Deny);
}

#[test]
fn bare_ip_rule_is_a_host_route() {
    let p = policy(&["10.0.0.5:5432"]);
    assert_eq!(p.evaluate(ip("10.0.0.5"), 5432, None), Decision::Allow);
    assert_eq!(p.evaluate(ip("10.0.0.6"), 5432, None), Decision::Deny);
}

#[test]
fn ip_rule_ignores_hostname() {
    let p = policy(&["93.184.216.34:443"]);
    assert_eq!(p.evaluate(ip("93.184.216.34"), 443, Some("anything.example")), Decision::Allow);
    assert_eq!(p.evaluate(ip("93.184.216.34"), 443, None), Decision::Allow);
}

#[test]
fn bracketed_ipv6_with_port() {
    let p = policy(&["[2001:db8::1]:443"]);
    assert_eq!(p.evaluate(ip("2001:db8::1"), 443, None), Decision::Allow);
    assert_eq!(p.evaluate(ip("2001:db8::2"), 443, None), Decision::Deny);
}

#[test]
fn bare_ipv6_without_port_matches_any_port() {
    let p = policy(&["2001:db8::1"]);
    assert_eq!(p.evaluate(ip("2001:db8::1"), 443, None), Decision::Allow);
    assert_eq!(p.evaluate(ip("2001:db8::1"), 9999, None), Decision::Allow);
}

#[test]
fn ipv6_cidr_rule_without_port() {
    let p = policy(&["2001:db8::/32"]);
    assert_eq!(p.evaluate(ip("2001:db8::dead"), 443, None), Decision::Allow);
    assert_eq!(p.evaluate(ip("2001:dead::1"), 443, None), Decision::Deny);
}

#[test]
fn bracketed_ipv6_cidr_with_port() {
    let p = policy(&["[2001:db8::/32]:443"]);
    assert_eq!(p.evaluate(ip("2001:db8::dead"), 443, None), Decision::Allow);
    assert_eq!(p.evaluate(ip("2001:db8::dead"), 80, None), Decision::Deny);
    assert_eq!(p.evaluate(ip("2001:dead::1"), 443, None), Decision::Deny);
}

#[test]
fn invalid_port_is_an_error() {
    let err = Policy::build(&vec!["host:notaport".to_string()], DNS).unwrap_err();
    assert!(matches!(err, NpxcError::Config(_)));
}

#[test]
fn invalid_port_out_of_range_is_an_error() {
    let err = Policy::build(&vec!["host:70000".to_string()], DNS).unwrap_err();
    assert!(matches!(err, NpxcError::Config(_)));
}

#[test]
fn validate_accepts_well_formed_entries() {
    let entries = vec![
        "api.anthropic.com:443".to_string(),
        "10.0.0.5/32:5432".to_string(),
        "example.com".to_string(),
        "[2001:db8::1]:443".to_string(),
    ];
    assert!(validate(&entries).is_ok());
}

#[test]
fn validate_rejects_bad_entry() {
    assert!(validate(&vec!["good.com:443".to_string(), "bad:port".to_string()]).is_err());
}

#[test]
fn allows_name_matches_domain_rules_case_insensitively() {
    let p = policy(&["api.anthropic.com:443", "10.0.0.0/24:5432"]);
    assert!(p.allows_name("api.anthropic.com"));
    assert!(p.allows_name("API.Anthropic.com"));
    assert!(!p.allows_name("evil.com"));
    assert!(!p.allows_name("10.0.0.5"));
}

#[test]
fn allows_name_ignores_port() {
    let p = policy(&["example.com:443"]);
    assert!(p.allows_name("example.com"));
}

#[test]
fn dns_resolver_is_recorded() {
    let p = policy(&[]);
    assert_eq!(p.dns_resolver(), DNS);
}

#[test]
fn the_order_of_entries_makes_no_difference() {
    let a = policy(&["example.com:443", "10.0.0.0/8"]);
    let b = policy(&["10.0.0.0/8", "example.com:443"]);
    for (dest, port, host) in
        [("10.9.9.9", 1, None), ("1.2.3.4", 443, Some("example.com")), ("1.2.3.4", 443, None)]
    {
        assert_eq!(a.evaluate(ip(dest), port, host), b.evaluate(ip(dest), port, host));
    }
}

#[test]
fn networks_hold_by_their_leading_bits() {
    let all = Net { addr: IpAddress::V4(0), prefix: 0 };
    assert!(all.contains(ip("255.255.255.255")));
    assert!(!all.contains(ip("::1")));
    let half = Net { addr: ip("128.0.0.0"), prefix: 1 };
    assert!(half.contains(ip("200.1.2.3")));
    assert!(!half.contains(ip("127.255.255.255")));
}

#[test]
fn bad_entries_say_what_is_wrong() {
    for (bad, expected) in [
        ("[2001:db8::1", "unterminated '[' in allow entry \"[2001:db8::1\""),
        ("[::1]443", "expected ':port' after ']' in \"[::1]443\""),
        ("host:", "invalid port in allow entry \"host:\""),
        ("host:65536", "invalid port in allow entry \"host:65536\""),
        (":443", "invalid allow entry \":443\": empty host"),
        ("", "invalid allow entry \"\": empty host"),
        ("[]", "invalid allow entry \"[]\": empty host"),
        ("[]:443", "invalid allow entry \"[]:443\": empty host"),
    ] {
        match Policy::build(&owned(&[bad]), DNS) {
            Err(NpxcError::Config(text)) => assert_eq!(text, expected),
            _ => panic!("{bad:?} should be refused"),
        }
    }
    // The first bad entry is the one reported.
    match validate(&owned(&["ok.example", "a:b", "c:d"])) {
        Err(NpxcError::Config(text)) => assert!(text.contains("a:b")),
        _ => panic!("should be refused"),
    }
}
