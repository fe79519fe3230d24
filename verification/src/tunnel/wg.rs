//! The `WireGuard` transport state machine.
//!
//! [`WgTunnel`] wraps a single `boringtun::noise::Tunn` and its reusable scratch
//! buffer. It does no I/O: each call says what is to be sent to the peer and what
//! is handed to the host. After a datagram that made it write to the network,
//! boringtun wants to be called with an empty one until it has nothing left to
//! send; [`WgTunnel::decapsulate`] does so.
use vstd::prelude::*;

use crate::bytes;

verus! {

/// Size of the reusable scratch buffer: large enough for any `WireGuard` or IP
/// datagram.
pub const SCRATCH_LEN: usize = 65536;

/// What `WireGuard` adds to an inner packet: a 16-byte header and a 16-byte tag.
pub const DATA_OVERHEAD: usize = 32;

/// The length of a handshake initiation.
pub const INITIATION_LEN: usize = 148;

/// `boringtun::noise::Tunn`, the WireGuard state of one peer.
#[verifier::external_type_specification]
#[verifier::external_body]
pub struct ExTunn(boringtun::noise::Tunn);

/// How many packets a tunnel queues; what comes after them is dropped.
pub const MAX_QUEUED: usize = 256;

/// A session to encrypt with.
pub ghost struct SessionState {
    /// The key of what is sent.
    pub key: Seq<u8>,
    /// The index by which the peer knows the session.
    pub receiver: u32,
    /// The counter of the next message.
    pub counter: u64,
}

/// What a message is sealed with.
pub ghost struct Seal {
    /// The key of the session.
    pub key: Seq<u8>,
    /// The index by which the receiver knows the session.
    pub receiver: u32,
    /// The counter of the message.
    pub counter: u64,
}

/// What a tunnel holds that decides what its calls do.
pub ghost struct TunnelState {
    /// The local private key.
    pub secret: Seq<u8>,
    /// The peer's public key.
    pub peer: Seq<u8>,
    /// The local receiver index, which has 24 bits.
    pub index: u32,
    /// The session to encrypt with, if there is one.
    pub session: Option<SessionState>,
    /// Whether a handshake is in progress.
    pub handshaking: bool,
    /// The packets that wait for a session, the oldest first.
    pub queue: Seq<Seq<u8>>,
    /// The seals that a session opens: it goes by the index, has the key to receive
    /// with, and neither got a message with the counter nor left it behind.
    pub opens: Set<Seal>,
}

/// What a `boringtun::noise::Tunn` holds.
pub uninterp spec fn tunnel_state(tunn: boringtun::noise::Tunn) -> TunnelState;

/// The index that a tunnel keeps of the one it is given: its low 24 bits.
pub open spec fn kept_index(index: u32) -> u32 {
    (index % 0x100_0000) as u32
}

/// The data message that a session makes of a packet, by its key, the index by which
/// the peer knows it and the counter of the message.
pub uninterp spec fn sealed(key: Seq<u8>, receiver: u32, counter: u64, packet: Seq<u8>) -> Seq<u8>;

/// What comes of a datagram that is not empty, apart from the bytes of an answer.
pub ghost enum Reception {
    /// It is answered.
    Answered,
    /// It holds this packet for the host.
    Delivered(Seq<u8>),
    /// It leads to nothing.
    Ignored,
}

/// What comes of a datagram that a `boringtun::noise::Tunn` gets.
pub uninterp spec fn reception(tunn: boringtun::noise::Tunn, datagram: Seq<u8>) -> Reception;

// ---------------------------------------------------------------------------
// Messages on the wire
// ---------------------------------------------------------------------------

/// The kinds of `WireGuard` messages.
pub ghost enum WireKind {
    /// It initiates a handshake.
    Initiation,
    /// It answers an initiation.
    Response,
    /// It asks to prove the sender's address.
    CookieReply,
    /// It carries an encrypted packet.
    Data,
    /// It is no such message.
    Other,
}

/// The kind of a datagram, by its type, which takes four bytes, and its length.
pub open spec fn wire_kind(d: Seq<u8>) -> WireKind {
    if d.len() < 4 || d[1] != 0 || d[2] != 0 || d[3] != 0 {
        WireKind::Other
    } else if d[0] == 1 && d.len() == INITIATION_LEN {
        WireKind::Initiation
    } else if d[0] == 2 && d.len() == 92 {
        WireKind::Response
    } else if d[0] == 3 && d.len() == 64 {
        WireKind::CookieReply
    } else if d[0] == 4 && d.len() >= DATA_OVERHEAD {
        WireKind::Data
    } else {
        WireKind::Other
    }
}

/// Whether `d` carries an encrypted packet of `n` bytes.
pub open spec fn carries(d: Seq<u8>, n: nat) -> bool {
    wire_kind(d) == WireKind::Data && d.len() == n + DATA_OVERHEAD
}

/// The counter of a data message, which takes eight bytes, the lowest first.
pub open spec fn data_counter(d: Seq<u8>) -> nat {
    (d[8] + 0x100 * d[9] + 0x1_0000 * d[10] + 0x100_0000 * d[11] + 0x1_0000_0000 * d[12]
        + 0x100_0000_0000 * d[13] + 0x1_0000_0000_0000 * d[14] + 0x100_0000_0000_0000
        * d[15]) as nat
}

/// How many messages a session remembers to tell a replay by.
pub const REPLAY_WINDOW: u64 = 1024;

/// Whether a datagram can be handed to the state machine: the counter of a data
/// message leaves room for the replay window above it.
pub open spec fn is_sound(d: Seq<u8>) -> bool {
    wire_kind(d) == WireKind::Data ==> data_counter(d) + REPLAY_WINDOW <= u64::MAX
}

/// Whether a datagram can be handed to [`WgTunnel::decapsulate`]. One that cannot
/// would take a session's whole run of counters, and is to be dropped.
#[must_use]
pub fn sound(d: &[u8]) -> (r: bool)
    ensures
        r == is_sound(d@),
{
    if d.len() < DATA_OVERHEAD || d[0] != 4 || d[1] != 0 || d[2] != 0 || d[3] != 0 {
        return true;
    }
    let low: u64 = d[8] as u64 + 0x100 * d[9] as u64 + 0x1_0000 * d[10] as u64 + 0x100_0000
        * d[11] as u64;
    let high: u64 = d[12] as u64 + 0x100 * d[13] as u64 + 0x1_0000 * d[14] as u64 + 0x100_0000
        * d[15] as u64;
    low + 0x1_0000_0000 * high <= u64::MAX - REPLAY_WINDOW
}

// ---------------------------------------------------------------------------
// What a data message holds
// ---------------------------------------------------------------------------

/// Two bytes as a number, the higher first.
pub open spec fn number_at(p: Seq<u8>, i: int) -> nat {
    (0x100 * p[i] + p[i + 1]) as nat
}

/// The length that an IP packet says it has, if it has a whole header.
pub open spec fn stated_len(p: Seq<u8>) -> Option<nat> {
    if p.len() >= 20 && p[0] / 16 == 4 {
        Some(number_at(p, 2))
    } else if p.len() >= 40 && p[0] / 16 == 6 {
        Some(number_at(p, 4) + 40)
    } else {
        None
    }
}

/// Whether the bytes are an IP packet as long as it says.
pub open spec fn is_ip_packet(p: Seq<u8>) -> bool {
    stated_len(p) == Some(p.len())
}

/// What comes of a packet that was decrypted: an IP packet is delivered, without what
/// follows it; nothing else is.
pub open spec fn decrypted(p: Seq<u8>) -> Reception {
    match stated_len(p) {
        Some(n) => if n <= p.len() {
            Reception::Delivered(p.take(n as int))
        } else {
            Reception::Ignored
        },
        None => Reception::Ignored,
    }
}

/// A session opens the message `d`, which is sealed with `seal` and holds `packet`.
pub open spec fn opened(s: TunnelState, d: Seq<u8>, seal: Seal, packet: Seq<u8>) -> bool {
    s.opens.contains(seal) && d == sealed(seal.key, seal.receiver, seal.counter, packet)
}

/// Opening the message `d`, which is sealed with `seal`, leaves the state `t`: the
/// message is not opened again; those of other sessions, and later ones of the same,
/// still are.
pub open spec fn used_up(s: TunnelState, d: Seq<u8>, seal: Seal, t: TunnelState) -> bool {
    &&& forall|x: Seal, packet: Seq<u8>| !#[trigger] opened(t, d, x, packet)
    &&& forall|x: Seal| #[trigger]
        s.opens.contains(x) && (x.receiver != seal.receiver || x.counter > seal.counter)
            ==> t.opens.contains(x)
}

/// What comes of the data message `d`, which leaves the state `t`: that of the packet
/// in it where a session opens it, else nothing.
pub open spec fn hears(s: TunnelState, d: Seq<u8>, comes: Reception, t: TunnelState) -> bool {
    &&& forall|seal: Seal, packet: Seq<u8>| #[trigger]
        opened(s, d, seal, packet) ==> comes == decrypted(packet) && used_up(s, d, seal, t)
    &&& (forall|seal: Seal, packet: Seq<u8>| !#[trigger] opened(s, d, seal, packet)) ==> comes
        is Ignored && t.opens == s.opens
}

// ---------------------------------------------------------------------------
// What the state machine does
// ---------------------------------------------------------------------------

/// The counter after `n` messages: it begins anew after the largest.
pub open spec fn counter_after(counter: u64, n: nat) -> u64
    decreases n,
{
    if n == 0 {
        counter
    } else if counter == u64::MAX {
        counter_after(0, (n - 1) as nat)
    } else {
        counter_after((counter + 1) as u64, (n - 1) as nat)
    }
}

/// The session after `n` messages.
pub open spec fn session_after(k: SessionState, n: nat) -> SessionState {
    SessionState { counter: counter_after(k.counter, n), ..k }
}

/// The data message that a session makes of a packet after `n` others.
pub open spec fn sealed_by(k: SessionState, n: nat, packet: Seq<u8>) -> Seq<u8> {
    sealed(k.key, k.receiver, counter_after(k.counter, n), packet)
}

/// `d` is the data message that a session makes of a packet after `n` others.
pub open spec fn seals(k: SessionState, n: nat, packet: Seq<u8>, d: Seq<u8>) -> bool {
    &&& d == sealed_by(k, n, packet)
    &&& carries(d, packet.len())
    &&& data_counter(d) == counter_after(k.counter, n)
}

/// The queue after a packet came to its end, if there was room.
pub open spec fn enqueued(queue: Seq<Seq<u8>>, packet: Seq<u8>) -> Seq<Seq<u8>> {
    if queue.len() < MAX_QUEUED {
        queue.push(packet)
    } else {
        queue
    }
}

/// The state after a packet of the host: a session counts it; without one the packet
/// is queued, and a handshake is in progress.
pub open spec fn encapsulated(s: TunnelState, packet: Seq<u8>) -> TunnelState {
    match s.session {
        Some(k) => TunnelState { session: Some(session_after(k, 1)), ..s },
        None => TunnelState { handshaking: true, queue: enqueued(s.queue, packet), ..s },
    }
}

/// What is sent for a packet of the host: the packet itself, encrypted, where there
/// is a session, else the initiation of a handshake unless one is in progress.
pub open spec fn encapsulation(s: TunnelState, packet: Seq<u8>, sent: Option<Seq<u8>>) -> bool {
    if s.session is Some {
        sent is Some && seals(s.session->0, 0, packet, sent->0)
    } else if s.handshaking {
        sent is None
    } else {
        sent is Some && wire_kind(sent->0) == WireKind::Initiation
    }
}

/// The state without the first packet of its queue.
pub open spec fn dequeued(s: TunnelState) -> TunnelState {
    TunnelState { queue: s.queue.skip(1), ..s }
}

/// The state after an empty datagram: the first packet of the queue is taken as if
/// it had just come from the host.
pub open spec fn nudged(s: TunnelState) -> TunnelState {
    if s.queue.len() == 0 {
        s
    } else {
        encapsulated(dequeued(s), s.queue[0])
    }
}

/// What is sent for an empty datagram.
pub open spec fn nudge(s: TunnelState, sent: Option<Seq<u8>>) -> bool {
    if s.queue.len() == 0 {
        sent is None
    } else {
        encapsulation(dequeued(s), s.queue[0], sent)
    }
}

/// The datagram `d` is answered with `answer` and leaves the state `t`: an
/// initiation with a response; a response, which completes the handshake, with an
/// empty packet, the first of the new session.
pub open spec fn answers(
    s: TunnelState,
    d: Seq<u8>,
    answer: Seq<u8>,
    t: TunnelState,
) -> bool {
    match wire_kind(d) {
        WireKind::Initiation => {
            &&& wire_kind(answer) == WireKind::Response
            &&& s.session is Some ==> t.session is Some
            &&& t == TunnelState {
                session: t.session,
                handshaking: false,
                opens: t.opens,
                ..s
            }
        },
        WireKind::Response => {
            &&& t.handshaking ==> s.handshaking
            &&& t.session matches Some(k) && k.counter == 1 && seals(
                SessionState { counter: 0, ..k },
                0,
                Seq::empty(),
                answer,
            )
            &&& t == TunnelState {
                session: t.session,
                handshaking: t.handshaking,
                opens: t.opens,
                ..s
            }
        },
        _ => false,
    }
}

/// The datagram `d` holds `packet` for the host and leaves the state `t`. The packet
/// is shorter than the datagram by at least the overhead.
pub open spec fn delivers(
    s: TunnelState,
    d: Seq<u8>,
    packet: Seq<u8>,
    t: TunnelState,
) -> bool {
    &&& wire_kind(d) == WireKind::Data
    &&& packet.len() + DATA_OVERHEAD <= d.len()
    &&& t.session is Some
    &&& t == TunnelState { session: t.session, opens: t.opens, ..s }
}

/// The datagram `d` leads to nothing and leaves the state `t`.
pub open spec fn passes_by(s: TunnelState, d: Seq<u8>, t: TunnelState) -> bool {
    if wire_kind(d) == WireKind::Data {
        &&& s.session is Some ==> t.session is Some
        &&& t == TunnelState { session: t.session, opens: t.opens, ..s }
    } else {
        t == s
    }
}

/// The advance of the timers sends `sent` and leaves the state `t`. What is sent is
/// the initiation of a handshake, or an empty packet, encrypted; where there is no
/// session the empty packet is queued. Sessions may end, and where the peer is given
/// up so does all else.
pub open spec fn ticks(s: TunnelState, sent: Option<Seq<u8>>, t: TunnelState) -> bool {
    let same_queue = t.queue == s.queue || t.queue == enqueued(s.queue, Seq::empty());
    let same_session = t.session is None || t.session == s.session;
    &&& t == TunnelState {
        session: t.session,
        handshaking: t.handshaking,
        queue: t.queue,
        opens: t.opens,
        ..s
    }
    &&& t.opens.subset_of(s.opens)
    &&& match sent {
        Some(d) => {
            ||| wire_kind(d) == WireKind::Initiation && t.handshaking && same_session && same_queue
            ||| s.session is Some && encapsulation(s, Seq::empty(), sent) && t == encapsulated(
                TunnelState { opens: t.opens, ..s },
                Seq::empty(),
            )
        },
        None => {
            ||| t.handshaking == s.handshaking && same_session && same_queue
            ||| !t.handshaking && t.session is None && t.queue.len() == 0
        },
    }
}

/// Whether every packet of the queue fits into the scratch buffer once encrypted.
pub open spec fn queue_fits(s: TunnelState) -> bool {
    forall|i: int|
        0 <= i < s.queue.len() ==> (#[trigger] s.queue[i]).len() + DATA_OVERHEAD <= SCRATCH_LEN
}

/// The queue with its first packet put last.
pub open spec fn rotated(queue: Seq<Seq<u8>>) -> Seq<Seq<u8>> {
    enqueued(queue.skip(1), queue[0])
}

/// Empty datagrams, until nothing more is sent, send `sent` and leave the state `t`.
/// With a session they send the whole queue, each packet in its turn. Without one
/// they initiate a handshake where there is something to send.
pub open spec fn drains(s: TunnelState, sent: Seq<Seq<u8>>, t: TunnelState) -> bool {
    if s.session is Some {
        let k = s.session->0;
        &&& t == TunnelState {
            session: Some(session_after(k, s.queue.len())),
            queue: Seq::empty(),
            ..s
        }
        &&& sent.len() == s.queue.len()
        &&& forall|i: int|
            0 <= i < sent.len() ==> seals(k, i as nat, s.queue[i], #[trigger] sent[i])
    } else if s.queue.len() == 0 {
        &&& t == s
        &&& sent.len() == 0
    } else if s.handshaking {
        &&& t == TunnelState { queue: rotated(s.queue), ..s }
        &&& sent.len() == 0
    } else {
        &&& t == TunnelState { handshaking: true, queue: rotated(rotated(s.queue)), ..s }
        &&& sent.len() == 1
        &&& wire_kind(sent[0]) == WireKind::Initiation
    }
}

/// What one datagram leads to, given what comes of it. An empty one drains the queue.
/// Another is answered, and then the queue is drained; or it holds a packet for the
/// host; or it leads to nothing.
pub open spec fn receives(
    s: TunnelState,
    d: Seq<u8>,
    comes: Reception,
    peer: Seq<Seq<u8>>,
    host: Seq<Seq<u8>>,
    t: TunnelState,
) -> bool {
    if d.len() == 0 {
        host.len() == 0 && drains(s, peer, t)
    } else {
        &&& wire_kind(d) == WireKind::Data ==> hears(s, d, comes, t)
        &&& match comes {
            Reception::Answered => {
                &&& host.len() == 0
                &&& peer.len() > 0
                &&& exists|m: TunnelState| #[trigger]
                    answers(s, d, peer[0], m) && drains(m, peer.skip(1), t)
            },
            Reception::Delivered(packet) => {
                &&& peer.len() == 0
                &&& host == seq![packet]
                &&& delivers(s, d, packet, t)
            },
            Reception::Ignored => peer.len() == 0 && host.len() == 0 && passes_by(s, d, t),
        }
    }
}

/// Draining may begin with a single empty datagram.
proof fn drains_onward(
    s: TunnelState,
    first: Seq<u8>,
    rest: Seq<Seq<u8>>,
    t: TunnelState,
)
    requires
        nudge(s, Some(first)),
        drains(nudged(s), rest, t),
    ensures
        drains(s, seq![first] + rest, t),
{
    let all = seq![first] + rest;
    if s.session is Some && s.queue.len() > 0 {
        let k = s.session->0;
        let next = session_after(k, 1);
        reveal_with_fuel(counter_after, 2);
        assert(nudged(s).session == Some(next));
        assert forall|i: int| 0 <= i < all.len() implies seals(
            k,
            i as nat,
            s.queue[i],
            #[trigger] all[i],
        ) by {
            if i > 0 {
                assert(all[i] == rest[i - 1]);
                assert(s.queue.skip(1)[i - 1] == s.queue[i]);
                assert(counter_after(k.counter, i as nat) == counter_after(
                    next.counter,
                    (i - 1) as nat,
                ));
            }
        }
        assert(counter_after(k.counter, s.queue.len()) == counter_after(
            next.counter,
            (s.queue.len() - 1) as nat,
        ));
    } else {
        assert(nudged(s).queue == rotated(s.queue));
        assert(all[0] == first);
    }
}

/// Draining ends with an empty datagram that sends nothing.
proof fn drains_nothing(s: TunnelState)
    requires
        nudge(s, None),
    ensures
        drains(s, Seq::empty(), nudged(s)),
{
    assert(s.queue =~= Seq::empty() || s.session is None);
}

proof fn nudged_fits(s: TunnelState)
    requires
        queue_fits(s),
    ensures
        queue_fits(nudged(s)),
{
    if s.queue.len() > 0 {
        let q = nudged(s).queue;
        assert forall|i: int| 0 <= i < q.len() implies (#[trigger] q[i]).len() + DATA_OVERHEAD
            <= SCRATCH_LEN by {
            if i < s.queue.len() - 1 {
                assert(q[i] == s.queue[i + 1]);
            } else {
                assert(q[i] == s.queue[0]);
            }
        }
    }
}

/// What the state machine wants done after one call.
pub enum Emitted {
    /// Send these bytes to the peer.
    ToPeer(Vec<u8>),
    /// Hand this decrypted IP packet to the host.
    ToHost(Vec<u8>),
    /// Nothing.
    Nothing,
    /// Nothing: the input was not accepted.
    Rejected,
}

/// What is sent to the peer, if anything is.
pub open spec fn sent_by(emitted: Emitted) -> Option<Seq<u8>> {
    match emitted {
        Emitted::ToPeer(b) => Some(b@),
        _ => None,
    }
}

/// What came of a datagram, by what the state machine wants done.
pub open spec fn reception_of(emitted: Emitted) -> Reception {
    match emitted {
        Emitted::ToPeer(_) => Reception::Answered,
        Emitted::ToHost(b) => Reception::Delivered(b@),
        _ => Reception::Ignored,
    }
}

/// The bytes of what is sent, if anything is.
pub open spec fn opt_bytes(r: Option<Vec<u8>>) -> Option<Seq<u8>> {
    match r {
        Some(b) => Some(b@),
        None => None,
    }
}

/// What one datagram led to: the datagrams for the peer and the packets for the
/// host, each in the order in which they came.
pub struct Outputs {
    pub to_peer: Vec<Vec<u8>>,
    pub to_host: Vec<Vec<u8>>,
}

impl Outputs {
    /// The datagrams for the peer.
    pub open spec fn peer(self) -> Seq<Seq<u8>> {
        bytes::byte_lists(self.to_peer@)
    }

    /// The packets for the host.
    pub open spec fn host(self) -> Seq<Seq<u8>> {
        bytes::byte_lists(self.to_host@)
    }

    /// Notes what one call of the state machine wants done. True where there may
    /// be more to send to the peer.
    pub fn note(&mut self, emitted: Emitted) -> (more: bool)
        ensures
            more == (emitted is ToPeer),
            final(self).peer() == (match emitted {
                Emitted::ToPeer(b) => old(self).peer().push(b@),
                _ => old(self).peer(),
            }),
            final(self).host() == (match emitted {
                Emitted::ToHost(b) => old(self).host().push(b@),
                _ => old(self).host(),
            }),
    {
        match emitted {
            Emitted::ToPeer(b) => {
                self.to_peer.push(b);
                true
            },
            Emitted::ToHost(b) => {
                self.to_host.push(b);
                false
            },
            Emitted::Nothing => false,
            Emitted::Rejected => false,
        }
    }
}

/// Calls `boringtun::noise::Tunn::new` with the local secret and the peer's
/// public key, without a preshared key, keepalive or rate limiter. A new tunnel has
/// the keys that are given and the low 24 bits of the index, an empty queue, and
/// neither a session nor a handshake in progress, so that it opens nothing.
#[verifier::external_body]
fn new_tunn(secret: &[u8; 32], peer: &[u8; 32], index: u32) -> (r: boringtun::noise::Tunn)
    ensures
        tunnel_state(r) == (TunnelState {
            secret: secret@,
            peer: peer@,
            index: kept_index(index),
            session: None,
            handshaking: false,
            queue: Seq::empty(),
            opens: Set::empty(),
        }),
{
    let secret = boringtun::x25519::StaticSecret::from(*secret);
    let peer = boringtun::x25519::PublicKey::from(*peer);
    boringtun::noise::Tunn::new(secret, peer, None, None, index, None)
}

/// Calls `boringtun::noise::Tunn::decapsulate` without the sender's address. What
/// comes of a datagram depends on the tunnel and the datagram alone, but for the bytes
/// of an answer, which depend on chance. An initiation that is accepted is answered
/// with a response, and a response with an empty packet; a data message may hold a
/// packet for the host. No other datagram leads to anything, and none touches the
/// queue, but for the empty one: it takes the first packet of the queue as
/// [`tunn_encapsulate`] would. A data message that a session sealed is opened by the
/// session with its index and key that has not got its counter yet; the IP packet in it
/// is for the host, cut to the length it states. A message that no session opens leads to
/// nothing. A response makes its session the current one; which one is current after
/// another message, and what the sessions open after a handshake message, is left unsaid:
/// it depends on chance and on the time. Without the address no cookie is asked for. It
/// panics on a buffer that cannot hold the decrypted packet, or the queued one and the
/// overhead, and may panic on a counter that leaves no room for the replay window. The
/// buffer keeps its length.
#[verifier::external_body]
fn tunn_decapsulate(
    tunn: &mut boringtun::noise::Tunn,
    datagram: &[u8],
    scratch: &mut Vec<u8>,
) -> (r: Emitted)
    requires
        datagram@.len() <= SCRATCH_LEN,
        is_sound(datagram@),
        queue_fits(tunnel_state(*old(tunn))),
        old(scratch)@.len() == SCRATCH_LEN,
    ensures
        final(scratch)@.len() == old(scratch)@.len(),
        datagram@.len() == 0 ==> r !is ToHost && nudge(tunnel_state(*old(tunn)), sent_by(r))
            && tunnel_state(*final(tunn)) == nudged(tunnel_state(*old(tunn))),
        datagram@.len() > 0 ==> reception(*old(tunn), datagram@) == reception_of(r),
        wire_kind(datagram@) == WireKind::Data ==> hears(
            tunnel_state(*old(tunn)),
            datagram@,
            reception(*old(tunn), datagram@),
            tunnel_state(*final(tunn)),
        ),
        datagram@.len() > 0 ==> match r {
            Emitted::ToPeer(b) => answers(
                tunnel_state(*old(tunn)),
                datagram@,
                b@,
                tunnel_state(*final(tunn)),
            ),
            Emitted::ToHost(b) => delivers(
                tunnel_state(*old(tunn)),
                datagram@,
                b@,
                tunnel_state(*final(tunn)),
            ),
            _ => passes_by(tunnel_state(*old(tunn)), datagram@, tunnel_state(*final(tunn))),
        },
{
    match tunn.decapsulate(None, datagram, scratch) {
        boringtun::noise::TunnResult::WriteToNetwork(b) => Emitted::ToPeer(b.to_vec()),
        boringtun::noise::TunnResult::WriteToTunnelV4(b, _) => Emitted::ToHost(b.to_vec()),
        boringtun::noise::TunnResult::WriteToTunnelV6(b, _) => Emitted::ToHost(b.to_vec()),
        boringtun::noise::TunnResult::Done => Emitted::Nothing,
        boringtun::noise::TunnResult::Err(_) => Emitted::Rejected,
    }
}

/// Calls `boringtun::noise::Tunn::encapsulate`. It never decrypts. With a session it
/// sends the packet, encrypted: the bytes depend on the session's key, index and
/// counter and on the packet alone, and the counter goes on by one. Without one it
/// queues the packet, if there is room, and sends the initiation of a handshake unless
/// one is in progress; the bytes of an initiation depend on chance. What the sessions
/// open stays the same. It panics on a buffer that cannot hold the packet and the
/// overhead. The buffer keeps its length.
#[verifier::external_body]
fn tunn_encapsulate(
    tunn: &mut boringtun::noise::Tunn,
    packet: &[u8],
    scratch: &mut Vec<u8>,
) -> (r: Emitted)
    requires
        packet@.len() + DATA_OVERHEAD <= SCRATCH_LEN,
        old(scratch)@.len() == SCRATCH_LEN,
    ensures
        final(scratch)@.len() == old(scratch)@.len(),
        r !is ToHost,
        tunnel_state(*old(tunn)).session matches Some(k) ==> sent_by(r) == Some(
            sealed(k.key, k.receiver, k.counter, packet@),
        ),
        encapsulation(tunnel_state(*old(tunn)), packet@, sent_by(r)),
        tunnel_state(*final(tunn)) == encapsulated(tunnel_state(*old(tunn)), packet@),
{
    match tunn.encapsulate(packet, scratch) {
        boringtun::noise::TunnResult::WriteToNetwork(b) => Emitted::ToPeer(b.to_vec()),
        boringtun::noise::TunnResult::WriteToTunnelV4(b, _) => Emitted::ToHost(b.to_vec()),
        boringtun::noise::TunnResult::WriteToTunnelV6(b, _) => Emitted::ToHost(b.to_vec()),
        boringtun::noise::TunnResult::Done => Emitted::Nothing,
        boringtun::noise::TunnResult::Err(_) => Emitted::Rejected,
    }
}

/// Calls `boringtun::noise::Tunn::update_timers`. It never decrypts. Whether anything
/// is due depends on the time alone, so that nothing is promised to be sent. Sessions may
/// expire, and none is added. The buffer keeps its length.
#[verifier::external_body]
fn tunn_update_timers(tunn: &mut boringtun::noise::Tunn, scratch: &mut Vec<u8>) -> (r: Emitted)
    requires
        old(scratch)@.len() == SCRATCH_LEN,
    ensures
        final(scratch)@.len() == old(scratch)@.len(),
        r !is ToHost,
        ticks(tunnel_state(*old(tunn)), sent_by(r), tunnel_state(*final(tunn))),
{
    match tunn.update_timers(scratch) {
        boringtun::noise::TunnResult::WriteToNetwork(b) => Emitted::ToPeer(b.to_vec()),
        boringtun::noise::TunnResult::WriteToTunnelV4(b, _) => Emitted::ToHost(b.to_vec()),
        boringtun::noise::TunnResult::WriteToTunnelV6(b, _) => Emitted::ToHost(b.to_vec()),
        boringtun::noise::TunnResult::Done => Emitted::Nothing,
        boringtun::noise::TunnResult::Err(_) => Emitted::Rejected,
    }
}

/// What is sent to the peer, if anything is.
pub fn for_peer(emitted: Emitted) -> (r: Option<Vec<u8>>)
    ensures
        r == (match emitted {
            Emitted::ToPeer(b) => Some(b),
            _ => None,
        }),
{
    match emitted {
        Emitted::ToPeer(b) => Some(b),
        _ => None,
    }
}

/// A `WireGuard` tunnel to a single peer.
pub struct WgTunnel {
    tunn: boringtun::noise::Tunn,
    scratch: Vec<u8>,
}

impl WgTunnel {
    /// What the tunnel holds.
    pub closed spec fn state(self) -> TunnelState {
        tunnel_state(self.tunn)
    }

    /// What comes of a datagram that is not empty.
    pub closed spec fn reception(self, datagram: Seq<u8>) -> Reception {
        reception(self.tunn, datagram)
    }

    /// The scratch buffer has its full length, which every queued packet fits into.
    pub closed spec fn wf(self) -> bool {
        &&& self.scratch@.len() == SCRATCH_LEN
        &&& queue_fits(self.state())
    }

    /// Creates a tunnel from the local private key and the peer's public key.
    ///
    /// `index` is the local receiver index; with a single peer any value works.
    #[must_use]
    pub fn new(local_secret: &[u8; 32], peer_public: &[u8; 32], index: u32) -> (r: WgTunnel)
        ensures
            r.wf(),
            r.state() == (TunnelState {
                secret: local_secret@,
                peer: peer_public@,
                index: kept_index(index),
                session: None,
                handshaking: false,
                queue: Seq::empty(),
                opens: Set::empty(),
            }),
    {
        WgTunnel {
            tunn: new_tunn(local_secret, peer_public, index),
            scratch: vec![0u8; SCRATCH_LEN],
        }
    }

    /// Decapsulates a datagram received from the peer: what to send back
    /// (handshake responses, then the packets queued meanwhile), and the decrypted
    /// packet, if there is one. A datagram yields at most one packet, and then
    /// nothing is sent back.
    pub fn decapsulate(&mut self, datagram: &[u8]) -> (r: Outputs)
        requires
            old(self).wf(),
            datagram@.len() <= SCRATCH_LEN,
            is_sound(datagram@),
        ensures
            final(self).wf(),
            receives(
                old(self).state(),
                datagram@,
                old(self).reception(datagram@),
                r.peer(),
                r.host(),
                final(self).state(),
            ),
    {
        let ghost s = self.state();
        let mut out = Outputs { to_peer: Vec::new(), to_host: Vec::new() };
        assert(out.peer() =~= Seq::empty());
        assert(out.host() =~= Seq::empty());
        let first = tunn_decapsulate(&mut self.tunn, datagram, &mut self.scratch);
        let ghost m = self.state();
        proof {
            nudged_fits(s);
        }
        let more = out.note(first);
        if more {
            self.drain(&mut out);
        }
        proof {
            if more {
                let sent = out.peer().skip(1);
                assert(out.peer().take(1)[0] == out.peer()[0]);
                assert(out.peer() =~= seq![first->ToPeer_0@] + sent);
                if datagram@.len() == 0 {
                    drains_onward(s, first->ToPeer_0@, sent, self.state());
                } else {
                    assert(answers(s, datagram@, out.peer()[0], m));
                }
            } else if datagram@.len() == 0 {
                drains_nothing(s);
            } else if first is ToHost {
                assert(out.host() =~= seq![first->ToHost_0@]);
            }
        }
        out
    }

    /// Calls the state machine with empty datagrams until it has nothing left to
    /// send.
    fn drain(&mut self, out: &mut Outputs)
        requires
            old(self).wf(),
        ensures
            final(self).wf(),
            final(out).host() == old(out).host(),
            old(out).peer().len() <= final(out).peer().len(),
            final(out).peer().take(old(out).peer().len() as int) == old(out).peer(),
            drains(
                old(self).state(),
                final(out).peer().skip(old(out).peer().len() as int),
                final(self).state(),
            ),
    {
        let ghost s = self.state();
        let ghost n = out.peer().len() as int;
        let ghost before = out.peer();
        let none: [u8; 0] = [];
        let mut more: bool = true;
        proof {
            assert forall|rest: Seq<Seq<u8>>, t: TunnelState| #[trigger]
                drains(self.state(), rest, t) implies drains(s, out.peer().skip(n) + rest, t) by {
                assert(out.peer().skip(n) + rest =~= rest);
            }
            assert(out.peer().take(n) =~= before);
        }
        while more
            invariant
                self.wf(),
                none@.len() == 0,
                n == before.len(),
                n <= out.peer().len(),
                out.peer().take(n) == before,
                out.host() == old(out).host(),
                more ==> forall|rest: Seq<Seq<u8>>, t: TunnelState| #[trigger]
                    drains(self.state(), rest, t) ==> drains(s, out.peer().skip(n) + rest, t),
                !more ==> drains(s, out.peer().skip(n), self.state()),
            decreases
                    (if more {
                        1 + 2 * self.state().queue.len() + (if self.state().handshaking {
                            0int
                        } else {
                            1
                        })
                    } else {
                        0
                    }),
        {
            let ghost now = self.state();
            let ghost so_far = out.peer();
            let next = tunn_decapsulate(&mut self.tunn, none.as_slice(), &mut self.scratch);
            proof {
                nudged_fits(now);
            }
            more = out.note(next);
            proof {
                if more {
                    let b = next->ToPeer_0@;
                    assert forall|rest: Seq<Seq<u8>>, t: TunnelState| #[trigger]
                        drains(self.state(), rest, t) implies drains(
                        s,
                        out.peer().skip(n) + rest,
                        t,
                    ) by {
                        drains_onward(now, b, rest, t);
                        assert(so_far.skip(n) + (seq![b] + rest) =~= out.peer().skip(n) + rest);
                    }
                    assert(out.peer().take(n) =~= so_far.take(n));
                } else {
                    drains_nothing(now);
                    assert(so_far.skip(n) + Seq::<Seq<u8>>::empty() =~= out.peer().skip(n));
                }
            }
        }
    }

    /// Encrypts a packet of the host: the datagram to send to the peer. There is
    /// none where the packet was queued behind a handshake under way.
    pub fn encapsulate(&mut self, packet: &[u8]) -> (r: Option<Vec<u8>>)
        requires
            old(self).wf(),
            packet@.len() + DATA_OVERHEAD <= SCRATCH_LEN,
        ensures
            final(self).wf(),
            encapsulation(old(self).state(), packet@, opt_bytes(r)),
            final(self).state() == encapsulated(old(self).state(), packet@),
    {
        for_peer(tunn_encapsulate(&mut self.tunn, packet, &mut self.scratch))
    }

    /// Advances the timers: the handshake initiation or keepalive to send to the
    /// peer, if one is due. To be called every 250 ms or so.
    pub fn tick(&mut self) -> (r: Option<Vec<u8>>)
        requires
            old(self).wf(),
        ensures
            final(self).wf(),
            ticks(old(self).state(), opt_bytes(r), final(self).state()),
    {
        for_peer(tunn_update_timers(&mut self.tunn, &mut self.scratch))
    }
}

/// Of the packets decrypted from one datagram, the one handed to the network
/// stack: the first that fits into the room it has.
pub fn deliverable(packets: &Vec<Vec<u8>>, room: usize) -> (r: Option<usize>)
    ensures
        match r {
            Some(i) => i < packets@.len() && packets@[i as int]@.len() <= room && (forall|j: int|
                0 <= j < i ==> #[trigger] packets@[j]@.len() > room),
            None => forall|j: int| 0 <= j < packets@.len() ==> #[trigger] packets@[j]@.len() > room,
        },
{
    let mut i: usize = 0;
    while i < packets.len()
        invariant
            i <= packets@.len(),
            forall|j: int| 0 <= j < i ==> #[trigger] packets@[j]@.len() > room,
        decreases packets@.len() - i,
    {
        if packets[i].len() <= room {
            return Some(i);
        }
        i += 1;
    }
    None
}

// ---------------------------------------------------------------------------
// Laws
// ---------------------------------------------------------------------------

/// Whether `a` and `b` share a session: `b` opens what `a` seals from now on.
pub open spec fn reaches(a: TunnelState, b: TunnelState) -> bool {
    &&& a.session is Some
    &&& forall|seal: Seal|
        seal.key == a.session->0.key && seal.receiver == a.session->0.receiver && seal.counter
            >= a.session->0.counter ==> #[trigger] b.opens.contains(seal)
}

/// What one end of a tunnel encrypts, the other delivers: an IP packet comes out as
/// it went in, nothing is answered, and the next one comes through as well. The
/// datagram can be handed to the other end as long as the session has counters left.
pub proof fn packets_come_through(
    a: TunnelState,
    b: TunnelState,
    packet: Seq<u8>,
    sent: Option<Seq<u8>>,
    comes: Reception,
    peer: Seq<Seq<u8>>,
    host: Seq<Seq<u8>>,
    b_after: TunnelState,
)
    requires
        reaches(a, b),
        a.session->0.counter + REPLAY_WINDOW <= u64::MAX,
        encapsulation(a, packet, sent),
        receives(b, sent->0, comes, peer, host, b_after),
    ensures
        sent is Some,
        is_sound(sent->0),
        comes == decrypted(packet),
        is_ip_packet(packet) ==> host == seq![packet],
        peer.len() == 0,
        reaches(encapsulated(a, packet), b_after),
{
    let k = a.session->0;
    let seal = Seal { key: k.key, receiver: k.receiver, counter: k.counter };
    assert(b.opens.contains(seal));
    assert(opened(b, sent->0, seal, packet));
    assert(used_up(b, sent->0, seal, b_after));
    reveal_with_fuel(counter_after, 2);
    assert forall|x: Seal|
        x.key == k.key && x.receiver == k.receiver && x.counter >= k.counter
            + 1 implies #[trigger] b_after.opens.contains(x) by {
        assert(b.opens.contains(x));
    }
    if is_ip_packet(packet) {
        assert(packet.take(packet.len() as int) =~= packet);
    }
}

/// A data message counts once: when it comes again it leads to nothing.
pub proof fn replays_lead_to_nothing(
    s: TunnelState,
    d: Seq<u8>,
    comes: Reception,
    peer: Seq<Seq<u8>>,
    host: Seq<Seq<u8>>,
    t: TunnelState,
    comes_again: Reception,
    peer_again: Seq<Seq<u8>>,
    host_again: Seq<Seq<u8>>,
    t_again: TunnelState,
)
    requires
        wire_kind(d) == WireKind::Data,
        receives(s, d, comes, peer, host, t),
        receives(t, d, comes_again, peer_again, host_again, t_again),
    ensures
        peer_again.len() == 0,
        host_again.len() == 0,
{
    assert forall|seal: Seal, packet: Seq<u8>| !#[trigger] opened(t, d, seal, packet) by {
        if exists|x: Seal, p: Seq<u8>| #[trigger] opened(s, d, x, p) {
            let (x, p) = choose|x: Seal, p: Seq<u8>| #[trigger] opened(s, d, x, p);
            assert(used_up(s, d, x, t));
        } else {
            assert(t.opens == s.opens);
            assert(!opened(s, d, seal, packet));
        }
    }
}

/// Nothing reaches the host but what was sealed with the key of a session.
pub proof fn delivered_packets_were_sealed(
    s: TunnelState,
    d: Seq<u8>,
    comes: Reception,
    peer: Seq<Seq<u8>>,
    host: Seq<Seq<u8>>,
    t: TunnelState,
)
    requires
        receives(s, d, comes, peer, host, t),
        host.len() > 0,
    ensures
        exists|seal: Seal, packet: Seq<u8>| #[trigger]
            opened(s, d, seal, packet) && decrypted(packet) == Reception::Delivered(host[0]),
{
    assert(comes == Reception::Delivered(host[0]));
    let (seal, packet) = choose|seal: Seal, packet: Seq<u8>| #[trigger]
        opened(s, d, seal, packet);
    assert(opened(s, d, seal, packet));
}

/// What can be handed to the state machine: every datagram but a data message whose
/// counter is within the replay window of the largest.
pub proof fn soundness_leaves_out_the_last_counters(d: Seq<u8>)
    ensures
        d.len() < 32 ==> is_sound(d),
        d.len() >= 1 && d[0] != 4u8 ==> is_sound(d),
        d.len() >= 32 && d[0] == 4u8 && d[1] == 0u8 && d[2] == 0u8 && d[3] == 0u8 ==> (is_sound(d)
            <==> data_counter(d) <= 0xffff_ffff_ffff_fbff),
{
}

} // verus!
