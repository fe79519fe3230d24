//! Keys, the transport, DNS pinning, peeking and flow routing.

use base64::Engine;
use hickory_proto::op::{Message, MessageType, OpCode, Query, ResponseCode};
use hickory_proto::rr::{Name, RecordType};

use npxc::error::NpxcError;
use npxc::tunnel::dns::{
    decide, judge, normalize_name, nxdomain, serve_query, DnsStep, Verdict,
};
use npxc::tunnel::endpoint::{
    audit_host, gateway_address, guest_env, resolv_conf, route_tcp, route_udp, sniff_for,
    tunnel_policy, unspecified_for, UdpRoute, MTU,
};
use npxc::tunnel::keys::WgKeypair;
use npxc::tunnel::peek::{
    host_from_http, peek_with, sni_from_client_hello, Peek, PeekStep, Peeker, Sniff,
};
use npxc::tunnel::policy::{Decision, IpAddress, Policy};
use npxc::tunnel::wg::{deliverable, for_peer, sound, Emitted, WgTunnel, MAX_QUEUED};

const DNS: IpAddress = IpAddress::V4(0x0101_0101);

fn policy(allow: &[&str]) -> Policy {
    let owned: Vec<String> = allow.iter().map(|s| (*s).to_string()).collect();
    Policy::build(&owned, DNS).unwrap()
}

fn decoded(text: String) -> Vec<u8> {
    base64::engine::general_purpose::STANDARD.decode(text).unwrap()
}

fn generate() -> WgKeypair {
    WgKeypair::generate().expect("OS random source unavailable")
}

// ── keys ──────────────────────────────────────────────────────────────────────

#[test]
fn generate_produces_distinct_keypairs() {
    let a = generate();
    let b = generate();
    assert_ne!(a.private_base64(), b.private_base64());
    assert_ne!(a.public_base64(), b.public_base64());
}

#[test]
fn public_is_deterministic_from_secret() {
    let bytes = [7u8; 32];
    let a = WgKeypair::from_secret_bytes(bytes);
    let b = WgKeypair::from_secret_bytes(bytes);
    assert_eq!(a.public_base64(), b.public_base64());
}

#[test]
fn distinct_secrets_yield_distinct_public_keys() {
    let a = WgKeypair::from_secret_bytes([1u8; 32]);
    let b = WgKeypair::from_secret_bytes([2u8; 32]);
    assert_ne!(a.public_base64(), b.public_base64());
}

#[test]
fn base64_keys_decode_to_32_bytes() {
    let kp = generate();
    assert_eq!(decoded(kp.private_base64()).len(), 32);
    assert_eq!(decoded(kp.public_base64()).len(), 32);
}

#[test]
fn private_key_round_trips_through_base64() {
    let kp = generate();
    let bytes: [u8; 32] = decoded(kp.private_base64()).try_into().unwrap();
    let restored = WgKeypair::from_secret_bytes(bytes);
    assert_eq!(kp.public_base64(), restored.public_base64());
}

#[test]
fn keys_are_written_in_base64() {
    let kp = WgKeypair::from_secret_bytes([0u8; 32]);
    assert_eq!(kp.private_base64(), "AAAAAAAAAAAAAAAAAAAAAAAAAAAAAAAAAAAAAAAAAAA=");
    assert_eq!(decoded(kp.public_base64()), kp.public().to_vec());
    assert_eq!(kp.secret(), &[0u8; 32]);
    assert_ne!(kp.public(), kp.secret());
}

// ── the transport ─────────────────────────────────────────────────────────────

fn ipv4_packet(marker: u8) -> Vec<u8> {
    vec![
        0x45, 0x00, 0x00, 0x18, 0x00, 0x00, 0x40, 0x00, 0x40, 0x11, 0x00, 0x00, 10, 0, 0, 2, 1, 1,
        1, 1, marker, marker, marker, marker,
    ]
}

#[test]
fn handshake_then_bidirectional_data() {
    let npxc_kp = generate();
    let guest_kp = generate();

    let mut npxc = WgTunnel::new(npxc_kp.secret(), guest_kp.public(), 1);
    let mut guest = WgTunnel::new(guest_kp.secret(), npxc_kp.public(), 2);

    let init = guest.encapsulate(&ipv4_packet(0x01)).unwrap_or_default();
    assert!(!init.is_empty(), "expected a handshake initiation");
    assert_eq!(init.len(), 148);
    // A second packet is queued behind the handshake.
    assert!(guest.encapsulate(&ipv4_packet(0x02)).is_none());

    let replies = npxc.decapsulate(&init);
    assert_eq!(replies.to_host.len(), 0, "no host packet during the handshake");
    let resp = replies.to_peer.concat();
    assert!(!resp.is_empty(), "expected a handshake response");

    let flushed = guest.decapsulate(&resp);
    // A keepalive, then the two packets that were queued.
    assert_eq!(flushed.to_peer.len(), 3);
    let mut delivered = Vec::new();
    for datagram in &flushed.to_peer {
        delivered.extend(npxc.decapsulate(datagram).to_host);
    }
    assert_eq!(delivered, vec![ipv4_packet(0x01), ipv4_packet(0x02)]);

    let up = ipv4_packet(0xAA);
    let enc_up = guest.encapsulate(&up).unwrap();
    assert_eq!(enc_up.len(), up.len() + 32);
    assert_eq!(
        npxc.decapsulate(&enc_up).to_host.concat(),
        up,
        "npxc must decrypt the upstream packet"
    );

    let down = ipv4_packet(0xBB);
    let enc_down = npxc.encapsulate(&down).unwrap();
    assert_eq!(
        guest.decapsulate(&enc_down).to_host.concat(),
        down,
        "guest must decrypt the downstream packet"
    );
}

#[test]
fn data_before_handshake_yields_no_host_packets() {
    let npxc_kp = generate();
    let guest_kp = generate();
    let mut npxc = WgTunnel::new(npxc_kp.secret(), guest_kp.public(), 1);

    let out = npxc.decapsulate(&[0u8; 64]);
    assert_eq!(out.to_host.len(), 0);
    // A new tunnel has nothing due.
    assert!(npxc.tick().is_none());
}

/// A tunnel to a peer, and the peer's tunnel back.
fn two_ends() -> (WgTunnel, WgTunnel) {
    let (a, b) = (generate(), generate());
    (WgTunnel::new(a.secret(), b.public(), 1), WgTunnel::new(b.secret(), a.public(), 2))
}

/// The type and the length of a datagram.
fn kind(datagram: &[u8]) -> ([u8; 4], usize) {
    (datagram[..4].try_into().unwrap(), datagram.len())
}

#[test]
fn messages_have_their_kinds() {
    let (mut npxc, mut guest) = two_ends();
    let packet = ipv4_packet(0x01);
    let init = guest.encapsulate(&packet).unwrap();
    assert_eq!(kind(&init), ([1, 0, 0, 0], 148));
    let answer = npxc.decapsulate(&init).to_peer;
    assert_eq!(answer.len(), 1);
    assert_eq!(kind(&answer[0]), ([2, 0, 0, 0], 92));
    let flushed = guest.decapsulate(&answer[0]).to_peer;
    assert_eq!(flushed.len(), 2);
    assert_eq!(kind(&flushed[0]), ([4, 0, 0, 0], 32));
    assert_eq!(kind(&flushed[1]), ([4, 0, 0, 0], packet.len() + 32));
    // A replayed initiation and a datagram of no kind lead to nothing.
    assert!(npxc.decapsulate(&init).to_peer.is_empty());
    assert!(npxc.decapsulate(&init[..147]).to_peer.is_empty());
}

#[test]
fn empty_datagrams_drain_the_queue() {
    let (mut npxc, mut guest) = two_ends();
    assert!(guest.decapsulate(&[]).to_peer.is_empty());
    let init = guest.encapsulate(&ipv4_packet(0x01)).unwrap();
    assert!(guest.encapsulate(&ipv4_packet(0x02)).is_none());
    // Behind the handshake nothing can be sent: the first packet goes to the end.
    assert!(guest.decapsulate(&[]).to_peer.is_empty());
    let answer = npxc.decapsulate(&init).to_peer.concat();
    let mut delivered = Vec::new();
    for datagram in &guest.decapsulate(&answer).to_peer {
        delivered.extend(npxc.decapsulate(datagram).to_host);
    }
    assert_eq!(delivered, vec![ipv4_packet(0x02), ipv4_packet(0x01)]);
    assert!(guest.decapsulate(&[]).to_peer.is_empty());
}

#[test]
fn only_sound_counters_are_handed_on() {
    let mut data = [0u8; 64];
    data[0] = 4;
    assert!(sound(&data));
    data[8..16].copy_from_slice(&(u64::MAX - 1024).to_le_bytes());
    assert!(sound(&data));
    data[8..16].copy_from_slice(&(u64::MAX - 1023).to_le_bytes());
    assert!(!sound(&data));
    data[8..16].copy_from_slice(&u64::MAX.to_le_bytes());
    assert!(!sound(&data));
    // Only data messages have a counter.
    assert!(sound(&data[..31]));
    data[0] = 1;
    assert!(sound(&data));
    assert!(sound(&[]));
}

#[test]
fn the_index_is_cut_to_24_bits() {
    let (a, b) = (generate(), generate());
    let mut wide = WgTunnel::new(a.secret(), b.public(), 0xab00_0001);
    let init = wide.encapsulate(&ipv4_packet(0x01)).unwrap();
    // The low byte of the sender's index counts sessions.
    assert_eq!(init[5..8], [1, 0, 0]);
}

#[test]
fn messages_are_counted() {
    let (mut npxc, mut guest) = two_ends();
    let init = guest.encapsulate(&ipv4_packet(0x01)).unwrap();
    let answer = npxc.decapsulate(&init).to_peer.concat();
    let flushed = guest.decapsulate(&answer).to_peer;
    let counters: Vec<u8> = flushed.iter().map(|d| d[8]).collect();
    assert_eq!(counters, vec![0, 1]);
    let sealed = guest.encapsulate(&ipv4_packet(0x02)).unwrap();
    assert_eq!(sealed[8], 2);
    assert_eq!(npxc.decapsulate(&sealed).to_host, vec![ipv4_packet(0x02)]);
    // A replay is ignored, and so is a message that was tampered with.
    assert!(npxc.decapsulate(&sealed).to_host.is_empty());
    let mut bad = guest.encapsulate(&ipv4_packet(0x03)).unwrap();
    let last = bad.len() - 1;
    bad[last] ^= 1;
    assert!(npxc.decapsulate(&bad).to_host.is_empty());
}

/// Two ends that have shaken hands, the initiator last.
fn connected() -> (WgTunnel, WgTunnel) {
    let (mut npxc, mut guest) = two_ends();
    let init = guest.encapsulate(&[]).unwrap();
    let answer = npxc.decapsulate(&init).to_peer.concat();
    for datagram in &guest.decapsulate(&answer).to_peer {
        npxc.decapsulate(datagram);
    }
    (npxc, guest)
}

#[test]
fn packets_come_through_in_any_order() {
    let (mut npxc, mut guest) = connected();
    let sent: Vec<Vec<u8>> =
        (0..20).map(|i| guest.encapsulate(&ipv4_packet(i)).unwrap()).collect();
    // The last comes first; what was overtaken still comes through, once.
    for i in (0..20u8).rev() {
        let datagram = &sent[usize::from(i)];
        assert!(sound(datagram));
        assert_eq!(npxc.decapsulate(datagram).to_host, vec![ipv4_packet(i)]);
    }
    for datagram in &sent {
        let again = npxc.decapsulate(datagram);
        assert!(again.to_host.is_empty() && again.to_peer.is_empty());
    }
    let later = guest.encapsulate(&ipv4_packet(0x77)).unwrap();
    assert_eq!(npxc.decapsulate(&later).to_host, vec![ipv4_packet(0x77)]);
}

#[test]
fn only_ip_packets_are_delivered() {
    let (mut npxc, mut guest) = connected();
    let mut through = |packet: &[u8]| {
        let datagram = guest.encapsulate(packet).unwrap();
        npxc.decapsulate(&datagram).to_host
    };
    assert!(through(&[]).is_empty());
    assert!(through(&[0x15; 40]).is_empty());
    assert!(through(&ipv4_packet(1)[..19]).is_empty());
    // A packet that says it is longer than it is.
    assert!(through(&ipv4_packet(1)[..23]).is_empty());
    // What follows a packet is cut off.
    let mut padded = ipv4_packet(1);
    padded.extend_from_slice(&[0; 8]);
    assert_eq!(through(&padded), vec![ipv4_packet(1)]);
    let mut v6 = vec![0u8; 44];
    v6[0] = 0x60;
    v6[5] = 4;
    assert_eq!(through(&v6), vec![v6.clone()]);
    v6[5] = 5;
    assert!(through(&v6).is_empty());
}

#[test]
fn queues_are_bounded() {
    let (mut npxc, mut guest) = two_ends();
    let init = guest.encapsulate(&ipv4_packet(0x01)).unwrap();
    for _ in 0..300 {
        assert!(guest.encapsulate(&ipv4_packet(0x02)).is_none());
    }
    let answer = npxc.decapsulate(&init).to_peer.concat();
    // A keepalive, then what was queued.
    assert_eq!(guest.decapsulate(&answer).to_peer.len(), 1 + MAX_QUEUED);
}

#[test]
fn an_answered_initiation_gives_way_to_another() {
    let (mut npxc, mut guest) = two_ends();
    let theirs = npxc.encapsulate(&ipv4_packet(0x01)).unwrap();
    assert_eq!(guest.encapsulate(&ipv4_packet(0x02)).unwrap().len(), 148);
    // The guest answers, and has a packet to send but no session to send it with.
    let out = guest.decapsulate(&theirs);
    let kinds: Vec<_> = out.to_peer.iter().map(|d| kind(d)).collect();
    assert_eq!(kinds, vec![([2, 0, 0, 0], 92), ([1, 0, 0, 0], 148)]);
}

#[test]
fn the_first_packet_that_fits_is_delivered() {
    let packets = vec![vec![0u8; 9], vec![0u8; 3], vec![0u8; 2]];
    assert_eq!(deliverable(&packets, 4), Some(1));
    assert_eq!(deliverable(&packets, 9), Some(0));
    assert_eq!(deliverable(&packets, 1), None);
    assert_eq!(for_peer(Emitted::ToPeer(vec![1])), Some(vec![1]));
    assert_eq!(for_peer(Emitted::ToHost(vec![1])), None);
    assert_eq!(for_peer(Emitted::Rejected), None);
}

// ── DNS pinning ───────────────────────────────────────────────────────────────

fn query_for(name: &str, id: u16) -> Vec<u8> {
    let mut message = Message::new(id, MessageType::Query, OpCode::Query);
    message.metadata.recursion_desired = true;
    let name = Name::from_ascii(name).unwrap();
    message.add_query(Query::query(name, RecordType::A));
    message.to_vec().unwrap()
}

#[test]
fn allowed_name_is_resolved() {
    let p = policy(&["api.anthropic.com:443"]);
    assert_eq!(
        decide(&query_for("api.anthropic.com.", 1), &p),
        Verdict::Resolve("api.anthropic.com".to_string())
    );
}

#[test]
fn denied_name_is_refused() {
    let p = policy(&["api.anthropic.com:443"]);
    assert_eq!(
        decide(&query_for("evil.example.", 2), &p),
        Verdict::Refuse("evil.example".to_string())
    );
}

#[test]
fn garbage_is_unparsable() {
    let p = policy(&[]);
    assert_eq!(decide(&[0xde, 0xad, 0xbe, 0xef], &p), Verdict::Unparsable);
}

#[test]
fn nxdomain_echoes_id_and_question() {
    let query = query_for("denied.example.", 0x1234);
    let response = nxdomain(&query).expect("build NXDOMAIN");
    let parsed = Message::from_vec(&response).unwrap();

    assert_eq!(parsed.metadata.id, 0x1234);
    assert_eq!(parsed.metadata.message_type, MessageType::Response);
    assert_eq!(parsed.metadata.response_code, ResponseCode::NXDomain);
    assert_eq!(parsed.queries.len(), 1);
    assert_eq!(
        parsed.queries[0].name().to_ascii(),
        "denied.example.",
        "the original question must be echoed back"
    );
    assert!(parsed.metadata.recursion_desired);
    assert!(parsed.metadata.recursion_available);
    assert_eq!(parsed.queries[0].query_type(), RecordType::A);
}

#[test]
fn several_questions_are_echoed() {
    let mut message = Message::new(9, MessageType::Query, OpCode::Status);
    for name in ["a.Example.", "b.example.", "a.Example."] {
        message.add_query(Query::query(Name::from_ascii(name).unwrap(), RecordType::AAAA));
    }
    let parsed = Message::from_vec(&nxdomain(&message.to_vec().unwrap()).unwrap()).unwrap();
    let names: Vec<String> = parsed.queries.iter().map(|q| q.name().to_ascii()).collect();
    assert_eq!(names, vec!["a.Example.", "b.example.", "a.Example."]);
    assert_eq!(parsed.metadata.op_code, OpCode::Status);
    assert!(!parsed.metadata.recursion_desired);
}

#[test]
fn queries_are_served_by_verdict() {
    let p = policy(&["Allowed.example"]);
    match serve_query(&query_for("ALLOWED.example.", 3), &p) {
        DnsStep::Forward(name) => assert_eq!(name, "allowed.example"),
        _ => panic!("should be forwarded"),
    }
    match serve_query(&query_for("other.example.", 4), &p) {
        DnsStep::Refuse(name, Some(reply)) => {
            assert_eq!(name, "other.example");
            assert_eq!(Message::from_vec(&reply).unwrap().metadata.id, 4);
        }
        _ => panic!("should be refused"),
    }
    assert!(matches!(serve_query(&[1, 2, 3], &p), DnsStep::Drop));
    assert!(nxdomain(&[1, 2, 3]).is_none());
    assert_eq!(judge(&None, &p), Verdict::Unparsable);
    let empty = Message::new(1, MessageType::Query, OpCode::Query).to_vec().unwrap();
    assert_eq!(decide(&empty, &p), Verdict::Unparsable);
}

#[test]
fn names_are_normalized() {
    assert_eq!(normalize_name("Example.COM."), "example.com");
    assert_eq!(normalize_name("example.com.."), "example.com");
    assert_eq!(normalize_name("."), "");
}

// ── peeking ───────────────────────────────────────────────────────────────────

fn client_hello_with_sni(sni: &str) -> Vec<u8> {
    let sni = sni.as_bytes();

    let mut sni_ext = Vec::new();
    sni_ext.extend_from_slice(&((sni.len() + 3) as u16).to_be_bytes());
    sni_ext.push(0);
    sni_ext.extend_from_slice(&(sni.len() as u16).to_be_bytes());
    sni_ext.extend_from_slice(sni);

    let mut extensions = Vec::new();
    extensions.extend_from_slice(&0u16.to_be_bytes());
    extensions.extend_from_slice(&(sni_ext.len() as u16).to_be_bytes());
    extensions.extend_from_slice(&sni_ext);

    let mut body = Vec::new();
    body.extend_from_slice(&[0x03, 0x03]);
    body.extend_from_slice(&[0u8; 32]);
    body.push(0);
    body.extend_from_slice(&2u16.to_be_bytes());
    body.extend_from_slice(&[0x00, 0x2f]);
    body.push(1);
    body.push(0);
    body.extend_from_slice(&(extensions.len() as u16).to_be_bytes());
    body.extend_from_slice(&extensions);

    let mut handshake = Vec::new();
    handshake.push(0x01);
    let blen = body.len();
    handshake.extend_from_slice(&[(blen >> 16) as u8, (blen >> 8) as u8, blen as u8]);
    handshake.extend_from_slice(&body);

    let mut record = Vec::new();
    record.push(0x16);
    record.extend_from_slice(&[0x03, 0x01]);
    record.extend_from_slice(&(handshake.len() as u16).to_be_bytes());
    record.extend_from_slice(&handshake);
    record
}

#[test]
fn sni_parser_extracts_hostname() {
    let hello = client_hello_with_sni("Example.COM");
    assert_eq!(sni_from_client_hello(&hello), Peek::Found("example.com".to_string()));
}

#[test]
fn sni_parser_reports_incomplete_on_partial_record() {
    let hello = client_hello_with_sni("example.com");
    assert_eq!(sni_from_client_hello(&hello[..10]), Peek::Incomplete);
}

#[test]
fn sni_parser_rejects_non_tls() {
    assert_eq!(sni_from_client_hello(b"GET / HTTP/1.1\r\n\r\n"), Peek::Absent);
}

#[test]
fn tls_sni_reads_from_stream_and_captures_prefix() {
    let hello = client_hello_with_sni("api.example.com");
    let reads: Vec<Vec<u8>> = hello.chunks(40).map(|c| c.to_vec()).collect();
    let (sni, prefix) = peek_with(Sniff::Tls, &reads);
    assert_eq!(sni.as_deref(), Some("api.example.com"));
    assert_eq!(prefix, hello);
}

#[test]
fn http_host_parser_extracts_host() {
    let req = b"GET /path HTTP/1.1\r\nHost: Example.com\r\nAccept: */*\r\n\r\n";
    assert_eq!(host_from_http(req), Peek::Found("example.com".to_string()));
}

#[test]
fn http_host_parser_strips_port() {
    let req = b"GET / HTTP/1.1\r\nHost: example.com:8443\r\n\r\n";
    assert_eq!(host_from_http(req), Peek::Found("example.com".to_string()));
}

#[test]
fn http_host_parser_incomplete_without_terminator() {
    let req = b"GET / HTTP/1.1\r\nHos";
    assert_eq!(host_from_http(req), Peek::Incomplete);
}

#[test]
fn http_host_parser_absent_when_headers_end_without_host() {
    let req = b"GET / HTTP/1.1\r\nAccept: */*\r\n\r\n";
    assert_eq!(host_from_http(req), Peek::Absent);
}

#[test]
fn http_host_reads_from_stream() {
    let req = b"GET / HTTP/1.1\r\nHost: svc.internal\r\n\r\n".to_vec();
    let (host, prefix) = peek_with(Sniff::Http, &vec![req.clone()]);
    assert_eq!(host.as_deref(), Some("svc.internal"));
    assert_eq!(prefix, req);
}

#[test]
fn peeking_stops_as_soon_as_it_knows() {
    let mut peeker = Peeker::new(Sniff::Http);
    assert_eq!(peeker.step(), PeekStep::Read);
    peeker.feed(b"GET / HTTP/1.1\r\nHost: a.example\r\n");
    assert_eq!(peeker.step(), PeekStep::Decided(Some("a.example".to_string())));
    let (host, prefix) = peek_with(Sniff::Tls, &vec![b"plain".to_vec(), b"more".to_vec()]);
    assert_eq!(host, None);
    assert_eq!(prefix, b"plain");
}

// ── flows ─────────────────────────────────────────────────────────────────────

#[test]
fn guest_env_has_expected_keys_and_endpoint() {
    let guest = generate();
    let npxc = generate();
    let env = guest_env(&guest, &npxc, "192.168.66.1", 51820);

    let map: std::collections::HashMap<_, _> = env.into_iter().collect();
    assert_eq!(map["NPXC_WG_PRIVATE_KEY"], guest.private_base64());
    assert_eq!(map["NPXC_WG_PEER_PUBLIC_KEY"], npxc.public_base64());
    assert_eq!(map["NPXC_WG_ENDPOINT"], "192.168.66.1:51820");
    assert_eq!(map["NPXC_WG_ADDRESS"], "10.7.0.2/32");
    assert_eq!(map["NPXC_WG_ADDRESS6"], "fd07::2/128");
    assert_eq!(map["NPXC_WG_MTU"], MTU.to_string());
    assert_ne!(map["NPXC_WG_PRIVATE_KEY"], npxc.private_base64());
}

#[test]
fn udp_flows_are_routed() {
    let p = policy(&["10.0.0.0/8", "1.1.1.1:443"]);
    assert_eq!(route_udp(&p, DNS, 443), UdpRoute::Quic);
    assert_eq!(route_udp(&p, DNS, 53), UdpRoute::Dns);
    assert_eq!(route_udp(&p, IpAddress::V4(0x0a00_0001), 53), UdpRoute::Relay);
    assert_eq!(route_udp(&p, IpAddress::V4(0x0a00_0001), 443), UdpRoute::Quic);
    assert_eq!(route_udp(&p, IpAddress::V4(0x0808_0808), 53), UdpRoute::Drop);
}

#[test]
fn tcp_flows_are_routed() {
    let p = policy(&["example.com:443"]);
    let somewhere = IpAddress::V4(0x0102_0304);
    assert_eq!(sniff_for(443), Some(Sniff::Tls));
    assert_eq!(sniff_for(80), Some(Sniff::Http));
    assert_eq!(sniff_for(22), None);
    assert_eq!(route_tcp(&p, somewhere, 443, Some("EXAMPLE.com")), Decision::Allow);
    assert_eq!(route_tcp(&p, somewhere, 443, None), Decision::Deny);
}

#[test]
fn a_session_pins_its_resolver() {
    let p = tunnel_policy(&vec![]).unwrap();
    assert_eq!(p.dns_resolver(), DNS);
    assert_eq!(route_udp(&p, DNS, 53), UdpRoute::Dns);
    assert!(matches!(tunnel_policy(&vec!["a:b".to_string()]), Err(NpxcError::Config(_))));
    assert_eq!(resolv_conf(), "nameserver 1.1.1.1\n");
}

#[test]
fn sockets_are_bound_in_the_family_of_their_destination() {
    assert_eq!(unspecified_for(DNS), IpAddress::V4(0));
    assert_eq!(unspecified_for(IpAddress::V6(1)), IpAddress::V6(0));
    assert_eq!(audit_host(Some("a.example")), "a.example");
    assert_eq!(audit_host(None), "-");
}

#[test]
fn decided_hosts_do_not_change() {
    let request = b"GET / HTTP/1.1\r\nHost: a.example\r\r\n\r\nHost: b.example\r\n\r\n";
    let mut decided = None;
    for n in 0..=request.len() {
        match host_from_http(&request[..n]) {
            Peek::Incomplete => assert!(decided.is_none()),
            answer => {
                if let Some(first) = &decided {
                    assert_eq!(&answer, first);
                }
                decided = Some(answer);
            }
        }
    }
    assert_eq!(decided, Some(Peek::Found("a.example".to_string())));
}

#[test]
fn gateways_are_addresses() {
    assert_eq!(gateway_address("192.168.66.1").unwrap(), IpAddress::V4(0xc0a8_4201));
    assert_eq!(gateway_address("::1").unwrap(), IpAddress::V6(1));
    assert_eq!(
        gateway_address("no\tne").unwrap_err().to_string(),
        "Runtime error: invalid gateway address \"no\\tne\": invalid IP address syntax"
    );
}
