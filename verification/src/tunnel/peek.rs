//! Connection-time hostname extraction for egress policy.
//!
//! Before a guest TCP flow is forwarded, its first bytes are read ahead to find
//! the destination hostname that the policy filters on:
//! - port 443: the TLS SNI from the `ClientHello` ([`sni_from_client_hello`]);
//! - port 80: the HTTP `Host` header ([`host_from_http`]).
//!
//! The bytes read ahead collect in a [`Peeker`] and are replayed to the upstream
//! socket once the flow is allowed, so nothing is lost. Reading ahead is bounded
//! in time and size; beyond either bound the hostname is unknown and the policy
//! goes by address and port alone.
use vstd::prelude::*;
use vstd::utf8::*;

use crate::bytes;
use crate::text;

verus! {

/// Maximum time, in seconds, to wait for enough bytes to identify a hostname.
pub const PEEK_TIMEOUT_SECS: u64 = 5;

/// Maximum bytes to buffer while peeking.
pub const PEEK_MAX: usize = 8192;

/// The number of bytes asked for at a time.
pub const PEEK_CHUNK: usize = 1024;

/// TLS record content type for a handshake message; a `ClientHello` always
/// starts with this byte.
pub const TLS_HANDSHAKE_CONTENT_TYPE: u8 = 0x16;

/// Result of attempting to extract a hostname from the bytes seen so far.
#[derive(Debug, PartialEq)]
pub enum Peek {
    /// A hostname was found.
    Found(String),
    /// Parsed enough to know no hostname is present here.
    Absent,
    /// More bytes are needed to decide.
    Incomplete,
}

/// The model of [`Peek`].
pub ghost enum PeekView {
    Found(Seq<char>),
    Absent,
    Incomplete,
}

impl Peek {
    pub open spec fn view(&self) -> PeekView {
        match self {
            Peek::Found(s) => PeekView::Found(s@),
            Peek::Absent => PeekView::Absent,
            Peek::Incomplete => PeekView::Incomplete,
        }
    }
}

/// What a wire parser makes of a byte string.
#[derive(Debug)]
pub enum Wire<T> {
    /// A complete structure.
    Parsed(T),
    /// The bytes end too early.
    Incomplete,
    /// The bytes are not such a structure.
    Malformed,
}

// ---------------------------------------------------------------------------
// TLS
// ---------------------------------------------------------------------------

/// The messages of a TLS record: of a `ClientHello` its extension block, where it
/// has one; nothing of any other message.
pub type HelloList = Vec<Option<Option<Vec<u8>>>>;

pub open spec fn opt_bytes(b: Option<Vec<u8>>) -> Option<Seq<u8>> {
    match b {
        Some(v) => Some(v@),
        None => None,
    }
}

pub open spec fn hello_views(v: Seq<Option<Option<Vec<u8>>>>) -> Seq<Option<Option<Seq<u8>>>> {
    v.map_values(
        |m: Option<Option<Vec<u8>>>|
            match m {
                Some(ext) => Some(opt_bytes(ext)),
                None => None,
            },
    )
}

pub open spec fn record_view(r: Wire<HelloList>) -> Wire<Seq<Option<Option<Seq<u8>>>>> {
    match r {
        Wire::Parsed(v) => Wire::Parsed(hello_views(v@)),
        Wire::Incomplete => Wire::Incomplete,
        Wire::Malformed => Wire::Malformed,
    }
}

/// The extensions of a `ClientHello`: of a server name extension its names;
/// nothing of any other extension.
pub type ExtensionList = Vec<Option<Vec<Vec<u8>>>>;

pub open spec fn extension_views(v: Seq<Option<Vec<Vec<u8>>>>) -> Seq<Option<Seq<Seq<u8>>>> {
    v.map_values(
        |x: Option<Vec<Vec<u8>>>|
            match x {
                Some(names) => Some(bytes::byte_lists(names@)),
                None => None,
            },
    )
}

pub open spec fn extensions_view(r: Wire<ExtensionList>) -> Wire<Seq<Option<Seq<Seq<u8>>>>> {
    match r {
        Wire::Parsed(v) => Wire::Parsed(extension_views(v@)),
        Wire::Incomplete => Wire::Incomplete,
        Wire::Malformed => Wire::Malformed,
    }
}

/// What `tls_parser::parse_tls_plaintext` makes of a byte string.
pub uninterp spec fn tls_record(bytes: Seq<u8>) -> Wire<Seq<Option<Option<Seq<u8>>>>>;

/// `tls_parser::parse_tls_plaintext`: a function of the bytes alone. Each message
/// of the record comes back as the extension block of a `ClientHello`, or as
/// something else. The empty byte string is incomplete.
#[verifier::external_body]
fn parse_record(bytes: &[u8]) -> (r: Wire<HelloList>)
    ensures
        record_view(r) == tls_record(bytes@),
        bytes@.len() == 0 ==> r is Incomplete,
{
    match tls_parser::parse_tls_plaintext(bytes) {
        Ok((_, record)) => Wire::Parsed(record.msg.iter().map(|m| match m {
            tls_parser::TlsMessage::Handshake(
                tls_parser::TlsMessageHandshake::ClientHello(hello),
            ) => Some(hello.ext.map(|e| e.to_vec())),
            _ => None,
        }).collect()),
        Err(tls_parser::nom::Err::Incomplete(_)) => Wire::Incomplete,
        Err(_) => Wire::Malformed,
    }
}

/// What `tls_parser::parse_tls_client_hello_extensions` makes of a byte string.
pub uninterp spec fn tls_extensions(bytes: Seq<u8>) -> Wire<Seq<Option<Seq<Seq<u8>>>>>;

/// `tls_parser::parse_tls_client_hello_extensions`: a function of the bytes alone.
/// Each extension comes back as the names of a server name extension, or as
/// something else.
#[verifier::external_body]
fn parse_extensions(bytes: &[u8]) -> (r: Wire<ExtensionList>)
    ensures
        extensions_view(r) == tls_extensions(bytes@),
{
    match tls_parser::parse_tls_client_hello_extensions(bytes) {
        Ok((_, extensions)) => Wire::Parsed(extensions.iter().map(|x| match x {
            tls_parser::TlsExtension::SNI(names) => {
                Some(names.iter().map(|(_, raw)| raw.to_vec()).collect())
            },
            _ => None,
        }).collect()),
        Err(tls_parser::nom::Err::Incomplete(_)) => Wire::Incomplete,
        Err(_) => Wire::Malformed,
    }
}

/// The first name that is valid UTF-8, in ASCII lowercase.
pub open spec fn first_utf8(names: Seq<Seq<u8>>) -> Option<Seq<char>>
    decreases names.len(),
{
    if names.len() == 0 {
        None
    } else if valid_utf8(names[0]) {
        Some(text::ascii_lowered(decode_utf8(names[0])))
    } else {
        first_utf8(names.skip(1))
    }
}

/// The first hostname that a server name extension yields.
pub open spec fn first_sni(extensions: Seq<Option<Seq<Seq<u8>>>>) -> Option<Seq<char>>
    decreases extensions.len(),
{
    if extensions.len() == 0 {
        None
    } else {
        let here = match extensions[0] {
            Some(names) => first_utf8(names),
            None => None,
        };
        if here is Some {
            here
        } else {
            first_sni(extensions.skip(1))
        }
    }
}

/// What the extensions of a `ClientHello` say of the hostname.
pub open spec fn sni_of_extensions(r: Wire<Seq<Option<Seq<Seq<u8>>>>>) -> PeekView {
    match r {
        Wire::Parsed(extensions) => match first_sni(extensions) {
            Some(host) => PeekView::Found(host),
            None => PeekView::Absent,
        },
        Wire::Incomplete => PeekView::Incomplete,
        Wire::Malformed => PeekView::Absent,
    }
}

/// The extension block of the first `ClientHello`; the outer `None` where there
/// is no `ClientHello` at all.
pub open spec fn first_hello(messages: Seq<Option<Option<Seq<u8>>>>) -> Option<Option<Seq<u8>>>
    decreases messages.len(),
{
    if messages.len() == 0 {
        None
    } else if messages[0] is Some {
        messages[0]
    } else {
        first_hello(messages.skip(1))
    }
}

/// What a TLS record says of the hostname: the extension block to look into, or
/// the answer.
pub open spec fn hello_of_record(r: Wire<Seq<Option<Option<Seq<u8>>>>>) -> Result<
    Seq<u8>,
    PeekView,
> {
    match r {
        Wire::Parsed(messages) => match first_hello(messages) {
            Some(Some(ext)) => Ok(ext),
            _ => Err(PeekView::Absent),
        },
        Wire::Incomplete => Err(PeekView::Incomplete),
        Wire::Malformed => Err(PeekView::Absent),
    }
}

/// What a buffer that should begin with a TLS `ClientHello` record says of the
/// hostname.
pub open spec fn sni_of(buf: Seq<u8>) -> PeekView {
    if buf.len() > 0 && buf[0] != TLS_HANDSHAKE_CONTENT_TYPE {
        PeekView::Absent
    } else {
        match hello_of_record(tls_record(buf)) {
            Ok(ext) => sni_of_extensions(tls_extensions(ext)),
            Err(p) => p,
        }
    }
}

/// The first name that is valid UTF-8, in ASCII lowercase.
fn sni_hostname(names: &Vec<Vec<u8>>) -> (r: Option<String>)
    ensures
        match r {
            Some(s) => first_utf8(bytes::byte_lists(names@)) == Some(s@),
            None => first_utf8(bytes::byte_lists(names@)) is None,
        },
{
    let ghost all = bytes::byte_lists(names@);
    let mut i: usize = 0;
    assert(all.skip(0) =~= all);
    while i < names.len()
        invariant
            all == bytes::byte_lists(names@),
            i <= names@.len(),
            first_utf8(all.skip(i as int)) == first_utf8(all),
        decreases names@.len() - i,
    {
        assert(all.skip(i as int)[0] == names@[i as int]@);
        assert(all.skip(i as int).skip(1) =~= all.skip(i + 1));
        match text::from_utf8(names[i].as_slice()) {
            Some(s) => return Some(text::ascii_lowercase(s.as_str())),
            None => {},
        }
        i = i + 1;
    }
    assert(all.skip(i as int).len() == 0);
    None
}

/// What the extensions of a `ClientHello` say of the hostname.
pub fn sni_from_extensions(r: &Wire<ExtensionList>) -> (p: Peek)
    ensures
        p@ == sni_of_extensions(extensions_view(*r)),
{
    match r {
        Wire::Parsed(extensions) => {
            let ghost all = extension_views(extensions@);
            let mut i: usize = 0;
            assert(all.skip(0) =~= all);
            while i < extensions.len()
                invariant
                    all == extension_views(extensions@),
                    i <= extensions@.len(),
                    first_sni(all.skip(i as int)) == first_sni(all),
                    *r matches Wire::Parsed(v) && v == *extensions,
                decreases extensions@.len() - i,
            {
                assert(all.skip(i as int)[0] == all[i as int]);
                assert(all.skip(i as int).skip(1) =~= all.skip(i + 1));
                match &extensions[i] {
                    Some(names) => {
                        match sni_hostname(names) {
                            Some(host) => return Peek::Found(host),
                            None => {},
                        }
                    },
                    None => {},
                }
                i = i + 1;
            }
            assert(all.skip(i as int).len() == 0);
            Peek::Absent
        },
        Wire::Incomplete => Peek::Incomplete,
        Wire::Malformed => Peek::Absent,
    }
}

/// The extension block of the first `ClientHello` of a record, or the answer
/// where there is none to look into.
pub fn hello_from_record(r: &Wire<HelloList>) -> (h: Result<Vec<u8>, Peek>)
    ensures
        match h {
            Ok(ext) => hello_of_record(record_view(*r)) == Ok::<Seq<u8>, PeekView>(ext@),
            Err(p) => hello_of_record(record_view(*r)) == Err::<Seq<u8>, PeekView>(p@),
        },
{
    match r {
        Wire::Parsed(messages) => {
            let ghost all = hello_views(messages@);
            let mut i: usize = 0;
            assert(all.skip(0) =~= all);
            while i < messages.len()
                invariant
                    all == hello_views(messages@),
                    i <= messages@.len(),
                    first_hello(all.skip(i as int)) == first_hello(all),
                    *r matches Wire::Parsed(v) && v == *messages,
                decreases messages@.len() - i,
            {
                assert(all.skip(i as int)[0] == all[i as int]);
                assert(all.skip(i as int).skip(1) =~= all.skip(i + 1));
                match &messages[i] {
                    Some(Some(ext)) => return Ok(bytes::copy_bytes(ext.as_slice(), 0, ext.len())),
                    Some(None) => return Err(Peek::Absent),
                    None => {},
                }
                i = i + 1;
            }
            assert(all.skip(i as int).len() == 0);
            Err(Peek::Absent)
        },
        Wire::Incomplete => Err(Peek::Incomplete),
        Wire::Malformed => Err(Peek::Absent),
    }
}

/// Extracts the SNI hostname from a buffer that should begin with a TLS
/// `ClientHello` record.
pub fn sni_from_client_hello(buf: &[u8]) -> (p: Peek)
    ensures
        p@ == sni_of(buf@),
        buf@.len() == 0 ==> p is Incomplete,
{
    // Non-TLS traffic that happens to reach port 443 is not buffered.
    if buf.len() > 0 && buf[0] != TLS_HANDSHAKE_CONTENT_TYPE {
        return Peek::Absent;
    }
    let record = parse_record(buf);
    match hello_from_record(&record) {
        Ok(ext) => sni_from_extensions(&parse_extensions(ext.as_slice())),
        Err(p) => p,
    }
}

// ---------------------------------------------------------------------------
// HTTP
// ---------------------------------------------------------------------------

/// The ASCII lowercase of a byte.
pub open spec fn byte_lower(b: u8) -> u8 {
    if 65 <= b <= 90 {
        (b + 32) as u8
    } else {
        b
    }
}

/// The blank line that ends an HTTP header block: `\r\n\r\n`.
pub open spec fn blank_line() -> Seq<u8> {
    seq![13u8, 10u8, 13u8, 10u8]
}

/// `host:`
pub open spec fn host_field() -> Seq<u8> {
    seq![104u8, 111u8, 115u8, 116u8, 58u8]
}

/// The bytes before the last occurrence of `c`; nothing where there is none.
pub open spec fn before_last(s: Seq<u8>, c: u8) -> Seq<u8>
    decreases s.len(),
{
    if s.len() == 0 {
        s
    } else if s.last() == c {
        s.drop_last()
    } else {
        before_last(s.drop_last(), c)
    }
}

/// The part of the buffer that holds complete lines only: up to the end of the
/// headers, or up to the last newline seen so far.
pub open spec fn complete_lines(buf: Seq<u8>) -> Seq<u8> {
    match text::first_from(buf, blank_line(), 0) {
        Some(end) => buf.take(end),
        None => before_last(buf, 10),
    }
}

/// The host in a `Host` header value: the value without surrounding white space,
/// without brackets and port, in ASCII lowercase.
pub open spec fn host_value(raw: Seq<u8>) -> Option<Seq<char>> {
    if !valid_utf8(raw) {
        None
    } else {
        let value = text::trimmed(decode_utf8(raw));
        if value.len() == 0 {
            None
        } else {
            let host = if value[0] == '[' {
                let rest = value.skip(1);
                if rest.contains(']') {
                    text::split_on(rest, ']')[0]
                } else {
                    value
                }
            } else if text::split_on(value, ':').len() == 2 {
                text::split_on(value, ':')[0]
            } else {
                value
            };
            Some(text::ascii_lowered(host))
        }
    }
}

/// The host that a header line names, if it is a `Host` header with a usable value.
pub open spec fn host_of_line(line: Seq<u8>) -> Option<Seq<char>> {
    let line = if line.len() > 0 && line.last() == 13 {
        line.drop_last()
    } else {
        line
    };
    if line.len() >= 5 && line.take(5).map_values(|b: u8| byte_lower(b)) == host_field() {
        host_value(line.skip(5))
    } else {
        None
    }
}

/// The host that the first header line naming one names.
pub open spec fn first_host(lines: Seq<Seq<u8>>) -> Option<Seq<char>>
    decreases lines.len(),
{
    if lines.len() == 0 {
        None
    } else if host_of_line(lines[0]) is Some {
        host_of_line(lines[0])
    } else {
        first_host(lines.skip(1))
    }
}

/// What buffered HTTP request bytes say of the host.
pub open spec fn host_of(buf: Seq<u8>) -> PeekView {
    match first_host(text::split_on(complete_lines(buf), 10u8)) {
        Some(host) => PeekView::Found(host),
        None => if text::first_from(buf, blank_line(), 0) is Some {
            PeekView::Absent
        } else {
            PeekView::Incomplete
        },
    }
}

/// Index of the first blank line in `buf`.
fn find_blank_line(buf: &[u8]) -> (r: Option<usize>)
    ensures
        match r {
            Some(i) => i <= buf@.len() && text::first_from(buf@, blank_line(), 0) == Some(i as int),
            None => text::first_from(buf@, blank_line(), 0) is None,
        },
{
    if buf.len() < 4 {
        return None;
    }
    let mut i: usize = 0;
    while i <= buf.len() - 4
        invariant
            4 <= buf@.len(),
            i <= buf@.len() - 3,
            text::first_from(buf@, blank_line(), i as int) == text::first_from(
                buf@,
                blank_line(),
                0,
            ),
        decreases buf@.len() - i,
    {
        if buf[i] == 13 && buf[i + 1] == 10 && buf[i + 2] == 13 && buf[i + 3] == 10 {
            assert(buf@.subrange(i as int, i + 4) =~= blank_line());
            return Some(i);
        }
        proof {
            let here = buf@.subrange(i as int, i + 4);
            assert(here[0] == buf@[i as int] && here[1] == buf@[i + 1] && here[2] == buf@[i + 2]
                && here[3] == buf@[i + 3]);
            assert(here != blank_line());
        }
        i = i + 1;
    }
    None
}

/// The length of what stands before the last newline in `buf`.
fn last_newline(buf: &[u8]) -> (n: usize)
    ensures
        n <= buf@.len(),
        buf@.take(n as int) == before_last(buf@, 10),
{
    let mut i: usize = buf.len();
    assert(buf@.take(i as int) =~= buf@);
    while i > 0
        invariant
            i <= buf@.len(),
            before_last(buf@.take(i as int), 10) == before_last(buf@, 10),
        decreases i,
    {
        assert(buf@.take(i as int).drop_last() =~= buf@.take(i - 1));
        if buf[i - 1] == 10 {
            return i - 1;
        }
        i = i - 1;
    }
    0
}

/// Normalizes a `Host` header value: trims white space, drops any `:port`,
/// lowercases.
fn parse_host_value(raw: &[u8]) -> (r: Option<String>)
    ensures
        match r {
            Some(s) => host_value(raw@) == Some(s@),
            None => host_value(raw@) is None,
        },
{
    let decoded = match text::from_utf8(raw) {
        Some(s) => s,
        None => return None,
    };
    let value = text::trim(decoded.as_str());
    let v = text::chars_of(value.as_str());
    if v.len() == 0 {
        return None;
    }
    if v[0] == '[' {
        // Bracketed IPv6 literal: `[::1]` or `[::1]:8080`.
        let ghost rest = value@.skip(1);
        let mut k: usize = 1;
        while k < v.len() && v[k] != ']'
            invariant
                v@ == value@,
                rest == value@.skip(1),
                1 <= k <= v@.len(),
                forall|j: int| 0 <= j < k - 1 ==> rest[j] != ']',
            decreases v@.len() - k,
        {
            k = k + 1;
        }
        if k == v.len() {
            assert(!rest.contains(']'));
            return Some(text::ascii_lowercase(value.as_str()));
        }
        proof {
            assert(rest[k - 1] == ']');
            assert(!rest.take(k - 1).contains(']'));
            text::split_first(rest, ']', k - 1);
            assert(rest.take(k - 1) =~= value@.subrange(1, k as int));
        }
        let addr = text::string_of(&v, 1, k);
        return Some(text::ascii_lowercase(addr.as_str()));
    }
    let pieces = text::split(value.as_str(), ':');
    if pieces.len() == 2 {
        assert(text::split_on(value@, ':')[0] == pieces@[0]@);
        return Some(text::ascii_lowercase(pieces[0].as_str()));
    }
    Some(text::ascii_lowercase(value.as_str()))
}

/// Whether the first five bytes are `host:`, in any case.
fn is_host_field(line: &[u8]) -> (r: bool)
    requires
        line@.len() >= 5,
    ensures
        r == (line@.take(5).map_values(|b: u8| byte_lower(b)) == host_field()),
{
    let ghost head = line@.take(5).map_values(|b: u8| byte_lower(b));
    let r = (line[0] == 104 || line[0] == 72) && (line[1] == 111 || line[1] == 79) && (line[2]
        == 115 || line[2] == 83) && (line[3] == 116 || line[3] == 84) && line[4] == 58;
    proof {
        assert(head[0] == byte_lower(line@[0]));
        assert(head[1] == byte_lower(line@[1]));
        assert(head[2] == byte_lower(line@[2]));
        assert(head[3] == byte_lower(line@[3]));
        assert(head[4] == byte_lower(line@[4]));
        if r {
            assert(head =~= host_field());
        }
    }
    r
}

/// The host that a header line names.
fn host_in_line(line: &[u8]) -> (r: Option<String>)
    ensures
        match r {
            Some(s) => host_of_line(line@) == Some(s@),
            None => host_of_line(line@) is None,
        },
{
    let n = if line.len() > 0 && line[line.len() - 1] == 13 {
        line.len() - 1
    } else {
        line.len()
    };
    let ghost kept = line@.take(n as int);
    proof {
        if line@.len() > 0 {
            assert(line@.take(line@.len() - 1) =~= line@.drop_last());
        }
        assert(line@.take(line@.len() as int) =~= line@);
    }
    if n < 5 {
        return None;
    }
    assert(kept.take(5) =~= line@.take(5));
    if !is_host_field(line) {
        return None;
    }
    let value = bytes::copy_bytes(line, 5, n);
    assert(value@ =~= kept.skip(5));
    parse_host_value(value.as_slice())
}

/// Extracts the `Host` header value (host only, no port) from buffered HTTP
/// request bytes.
pub fn host_from_http(buf: &[u8]) -> (p: Peek)
    ensures
        p@ == host_of(buf@),
{
    let headers_end = find_blank_line(buf);
    let n = match headers_end {
        Some(end) => end,
        None => last_newline(buf),
    };
    let region = bytes::copy_bytes(buf, 0, n);
    assert(region@ =~= complete_lines(buf@));
    let lines = bytes::split_bytes(region.as_slice(), 10);
    let ghost all = bytes::byte_lists(lines@);
    let mut i: usize = 0;
    assert(all.skip(0) =~= all);
    while i < lines.len()
        invariant
            all == bytes::byte_lists(lines@),
            all == text::split_on(complete_lines(buf@), 10u8),
            i <= lines@.len(),
            first_host(all.skip(i as int)) == first_host(all),
        decreases lines@.len() - i,
    {
        assert(all.skip(i as int)[0] == lines@[i as int]@);
        assert(all.skip(i as int).skip(1) =~= all.skip(i + 1));
        match host_in_line(lines[i].as_slice()) {
            Some(host) => return Peek::Found(host),
            None => {},
        }
        i = i + 1;
    }
    assert(all.skip(i as int).len() == 0);
    match headers_end {
        Some(_) => Peek::Absent,
        None => Peek::Incomplete,
    }
}

// ---------------------------------------------------------------------------
// Reading ahead
// ---------------------------------------------------------------------------

/// How a flow names its host.
#[derive(Clone, Copy, Debug, PartialEq, Eq, Structural)]
pub enum Sniff {
    /// By the server name in a TLS `ClientHello`.
    Tls,
    /// By the `Host` header of an HTTP request.
    Http,
}

/// What to do with a flow whose first bytes are being read ahead.
#[derive(Debug, PartialEq)]
pub enum PeekStep {
    /// Stop: the hostname, if it is known.
    Decided(Option<String>),
    /// Wait for more bytes.
    Read,
}

/// The model of [`PeekStep`].
pub ghost enum StepView {
    Decided(Option<Seq<char>>),
    Read,
}

impl PeekStep {
    pub open spec fn view(&self) -> StepView {
        match self {
            PeekStep::Decided(Some(s)) => StepView::Decided(Some(s@)),
            PeekStep::Decided(None) => StepView::Decided(None),
            PeekStep::Read => StepView::Read,
        }
    }
}

/// What the bytes say of the hostname.
pub open spec fn sniffed(how: Sniff, bytes: Seq<u8>) -> PeekView {
    match how {
        Sniff::Tls => sni_of(bytes),
        Sniff::Http => host_of(bytes),
    }
}

/// What to do after `bytes` have been read ahead.
pub open spec fn step_after(how: Sniff, bytes: Seq<u8>) -> StepView {
    match sniffed(how, bytes) {
        PeekView::Found(host) => StepView::Decided(Some(host)),
        PeekView::Absent => StepView::Decided(None),
        PeekView::Incomplete => if bytes.len() >= PEEK_MAX {
            StepView::Decided(None)
        } else {
            StepView::Read
        },
    }
}

/// The outcome of reading ahead when the reads return `reads` in turn, `bytes`
/// being there already: the hostname, if any, and all bytes read. A read that
/// returns nothing, or that never returns, ends it.
pub open spec fn peeked(how: Sniff, bytes: Seq<u8>, reads: Seq<Seq<u8>>) -> (
    Option<Seq<char>>,
    Seq<u8>,
)
    decreases reads.len(),
{
    match step_after(how, bytes) {
        StepView::Decided(host) => (host, bytes),
        StepView::Read => if reads.len() == 0 || reads[0].len() == 0 {
            (None, bytes)
        } else {
            peeked(how, bytes + reads[0], reads.skip(1))
        },
    }
}

/// The bytes read ahead on one flow.
#[derive(Debug)]
pub struct Peeker {
    pub how: Sniff,
    pub prefix: Vec<u8>,
}

impl Peeker {
    /// Nothing read ahead yet.
    pub fn new(how: Sniff) -> (p: Peeker)
        ensures
            p.how == how,
            p.prefix@.len() == 0,
    {
        Peeker { how, prefix: Vec::new() }
    }

    /// What to do with the bytes read ahead so far.
    pub fn step(&self) -> (r: PeekStep)
        ensures
            r@ == step_after(self.how, self.prefix@),
            r is Read ==> self.prefix@.len() < PEEK_MAX,
    {
        let seen = match self.how {
            Sniff::Tls => sni_from_client_hello(self.prefix.as_slice()),
            Sniff::Http => host_from_http(self.prefix.as_slice()),
        };
        match seen {
            Peek::Found(host) => PeekStep::Decided(Some(host)),
            Peek::Absent => PeekStep::Decided(None),
            Peek::Incomplete => {
                if self.prefix.len() >= PEEK_MAX {
                    PeekStep::Decided(None)
                } else {
                    PeekStep::Read
                }
            },
        }
    }

    /// Takes in what a read returned.
    pub fn feed(&mut self, chunk: &[u8])
        ensures
            final(self).how == old(self).how,
            final(self).prefix@ == old(self).prefix@ + chunk@,
    {
        let mut i: usize = 0;
        let ghost before = self.prefix@;
        assert(before + chunk@.take(0) =~= before);
        while i < chunk.len()
            invariant
                self.how == old(self).how,
                i <= chunk@.len(),
                self.prefix@ == before + chunk@.take(i as int),
            decreases chunk@.len() - i,
        {
            self.prefix.push(chunk[i]);
            assert((before + chunk@.take(i as int)).push(chunk@[i as int]) =~= before
                + chunk@.take(i + 1));
            i = i + 1;
        }
        assert(chunk@.take(i as int) =~= chunk@);
    }
}

/// Reads ahead on a flow whose reads return `reads` in turn: the hostname, if it
/// can be told, and the bytes to replay.
pub fn peek_with(how: Sniff, reads: &Vec<Vec<u8>>) -> (r: (Option<String>, Vec<u8>))
    ensures
        ({
            let (host, bytes) = peeked(how, Seq::empty(), bytes::byte_lists(reads@));
            &&& r.1@ == bytes
            &&& match r.0 {
                Some(s) => host == Some(s@),
                None => host is None,
            }
        }),
{
    let ghost all = bytes::byte_lists(reads@);
    let mut peeker = Peeker::new(how);
    let mut i: usize = 0;
    assert(peeker.prefix@ =~= Seq::<u8>::empty());
    assert(all.skip(0) =~= all);
    loop
        invariant
            all == bytes::byte_lists(reads@),
            peeker.how == how,
            i <= reads@.len(),
            peeked(how, peeker.prefix@, all.skip(i as int)) == peeked(how, Seq::empty(), all),
        decreases reads@.len() - i,
    {
        match peeker.step() {
            PeekStep::Decided(host) => return (host, peeker.prefix),
            PeekStep::Read => {},
        }
        if i == reads.len() {
            return (None, peeker.prefix);
        }
        assert(all.skip(i as int)[0] == reads@[i as int]@);
        assert(all.skip(i as int).skip(1) =~= all.skip(i + 1));
        if reads[i].len() == 0 {
            return (None, peeker.prefix);
        }
        peeker.feed(reads[i].as_slice());
        i = i + 1;
    }
}

// ---------------------------------------------------------------------------
// Laws
// ---------------------------------------------------------------------------

/// The first `k` reads, one after the other.
pub open spec fn joined(reads: Seq<Seq<u8>>, k: nat) -> Seq<u8>
    decreases k,
{
    if k == 0 || k > reads.len() {
        Seq::empty()
    } else {
        joined(reads, (k - 1) as nat) + reads[k - 1]
    }
}

proof fn joined_front(reads: Seq<Seq<u8>>, k: nat)
    requires
        k < reads.len(),
    ensures
        joined(reads, k + 1) == reads[0] + joined(reads.skip(1), k),
    decreases k,
{
    if k == 0 {
        assert(joined(reads, 1) =~= joined(reads, 0) + reads[0]);
        assert(joined(reads, 1) =~= reads[0] + joined(reads.skip(1), 0));
    } else {
        joined_front(reads, (k - 1) as nat);
        assert(reads.skip(1)[k - 1] == reads[k as int]);
        assert(joined(reads, k + 1) =~= reads[0] + joined(reads.skip(1), k));
    }
}

/// Nothing read ahead is lost, added or reordered: the bytes to replay are those
/// of the first reads, in order.
pub proof fn peeked_bytes_are_the_reads(how: Sniff, bytes: Seq<u8>, reads: Seq<Seq<u8>>)
    ensures
        exists|k: nat|
            k <= reads.len() && #[trigger] (bytes + joined(reads, k)) == peeked(
                how,
                bytes,
                reads,
            ).1,
    decreases reads.len(),
{
    assert(bytes + joined(reads, 0) =~= bytes);
    if step_after(how, bytes) is Read && reads.len() > 0 && reads[0].len() > 0 {
        peeked_bytes_are_the_reads(how, bytes + reads[0], reads.skip(1));
        let k = choose|k: nat|
            k <= reads.skip(1).len() && #[trigger] (bytes + reads[0] + joined(reads.skip(1), k))
                == peeked(how, bytes + reads[0], reads.skip(1)).1;
        joined_front(reads, k);
        assert(bytes + joined(reads, k + 1) =~= bytes + reads[0] + joined(reads.skip(1), k));
    }
}

/// What is read ahead is bounded: a flow is read only while fewer than
/// `PEEK_MAX` bytes are there, so that reads of at most `PEEK_CHUNK` bytes never
/// leave as much as `PEEK_MAX + PEEK_CHUNK`.
pub proof fn peeking_is_bounded(how: Sniff, bytes: Seq<u8>, reads: Seq<Seq<u8>>)
    requires
        bytes.len() < PEEK_MAX + PEEK_CHUNK,
        forall|i: int| 0 <= i < reads.len() ==> (#[trigger] reads[i]).len() <= PEEK_CHUNK,
    ensures
        peeked(how, bytes, reads).1.len() < PEEK_MAX + PEEK_CHUNK,
    decreases reads.len(),
{
    if step_after(how, bytes) is Read && reads.len() > 0 && reads[0].len() > 0 {
        assert forall|i: int| 0 <= i < reads.skip(1).len() implies (#[trigger] reads.skip(
            1,
        )[i]).len() <= PEEK_CHUNK by {
            assert(reads.skip(1)[i] == reads[i + 1]);
        }
        peeking_is_bounded(how, bytes + reads[0], reads.skip(1));
    }
}

proof fn lowered_is_lower(s: Seq<char>)
    ensures
        text::ascii_lowered(text::ascii_lowered(s)) == text::ascii_lowered(s),
{
    assert(text::ascii_lowered(text::ascii_lowered(s)) =~= text::ascii_lowered(s));
}

/// A hostname that was found is in ASCII lowercase.
pub proof fn found_hostnames_are_lowercase(how: Sniff, bytes: Seq<u8>)
    ensures
        sniffed(how, bytes) matches PeekView::Found(h) ==> text::ascii_lowered(h) == h,
{
    match how {
        Sniff::Tls => {
            if let Ok(ext) = hello_of_record(tls_record(bytes)) {
                if let Wire::Parsed(extensions) = tls_extensions(ext) {
                    sni_is_lowercase(extensions);
                }
            }
        },
        Sniff::Http => {
            host_is_lowercase(text::split_on(complete_lines(bytes), 10u8));
        },
    }
}

proof fn utf8_is_lowercase(names: Seq<Seq<u8>>)
    ensures
        first_utf8(names) matches Some(h) ==> text::ascii_lowered(h) == h,
    decreases names.len(),
{
    if names.len() > 0 {
        if valid_utf8(names[0]) {
            lowered_is_lower(decode_utf8(names[0]));
        } else {
            utf8_is_lowercase(names.skip(1));
        }
    }
}

proof fn sni_is_lowercase(extensions: Seq<Option<Seq<Seq<u8>>>>)
    ensures
        first_sni(extensions) matches Some(h) ==> text::ascii_lowered(h) == h,
    decreases extensions.len(),
{
    if extensions.len() > 0 {
        if let Some(names) = extensions[0] {
            utf8_is_lowercase(names);
        }
        sni_is_lowercase(extensions.skip(1));
    }
}

proof fn host_is_lowercase(lines: Seq<Seq<u8>>)
    ensures
        first_host(lines) matches Some(h) ==> text::ascii_lowered(h) == h,
    decreases lines.len(),
{
    if lines.len() > 0 {
        if let Some(h) = host_of_line(lines[0]) {
            let value = text::trimmed(
                decode_utf8(
                    (if lines[0].len() > 0 && lines[0].last() == 13 {
                        lines[0].drop_last()
                    } else {
                        lines[0]
                    }).skip(5),
                ),
            );
            lowered_is_lower(value);
            lowered_is_lower(text::split_on(value.skip(1), ']')[0]);
            lowered_is_lower(text::split_on(value, ':')[0]);
        }
        host_is_lowercase(lines.skip(1));
    }
}

proof fn first_from_found<A>(s: Seq<A>, p: Seq<A>, i: int)
    requires
        0 <= i,
    ensures
        match text::first_from(s, p, i) {
            Some(e) => i <= e && text::occurs_at(s, p, e),
            None => forall|j: int| i <= j ==> !text::occurs_at(s, p, j),
        },
    decreases s.len() + 1 - i,
{
    if i + p.len() <= s.len() && !text::occurs_at(s, p, i) {
        first_from_found(s, p, i + 1);
        assert forall|j: int| i <= j && text::first_from(s, p, i) is None implies !text::occurs_at(
            s,
            p,
            j,
        ) by {
            if i < j {
                assert(i + 1 <= j);
            }
        }
    }
}

proof fn first_from_stays<A>(s: Seq<A>, more: Seq<A>, p: Seq<A>, i: int)
    requires
        0 <= i,
        text::first_from(s, p, i) is Some,
    ensures
        text::first_from(s + more, p, i) == text::first_from(s, p, i),
    decreases s.len() + 1 - i,
{
    assert((s + more).subrange(i, i + p.len()) =~= s.subrange(i, i + p.len()));
    if !text::occurs_at(s, p, i) {
        first_from_stays(s, more, p, i + 1);
    }
}

proof fn before_last_is(s: Seq<u8>, c: u8)
    ensures
        ({
            let n = before_last(s, c).len() as int;
            &&& n <= s.len()
            &&& before_last(s, c) == s.take(n)
            &&& s.contains(c) ==> n < s.len() && s[n] == c && forall|j: int|
                n < j < s.len() ==> s[j] != c
            &&& !s.contains(c) ==> n == 0
        }),
    decreases s.len(),
{
    if s.len() > 0 {
        let t = s.drop_last();
        assert(s[s.len() - 1] == s.last());
        if s.last() == c {
            assert(t =~= s.take(t.len() as int));
        } else {
            before_last_is(t, c);
            let n = before_last(t, c).len() as int;
            assert(t.take(n) =~= s.take(n));
            if s.contains(c) {
                let k = choose|k: int| 0 <= k < s.len() && s[k] == c;
                assert(t[k] == c);
                assert(forall|j: int| n < j < t.len() ==> s[j] == t[j]);
            }
            if t.contains(c) {
                let k = choose|k: int| 0 <= k < t.len() && t[k] == c;
                assert(s[k] == c);
            }
        }
    } else {
        assert(s =~= s.take(0));
    }
}

proof fn first_host_of_more(lines: Seq<Seq<u8>>, more: Seq<Seq<u8>>)
    requires
        first_host(lines) is Some,
        lines.len() <= more.len(),
        forall|i: int| 0 <= i < lines.len() ==> #[trigger] more[i] == lines[i],
    ensures
        first_host(more) == first_host(lines),
    decreases lines.len(),
{
    assert(more[0] == lines[0]);
    if host_of_line(lines[0]) is None {
        let (a, b) = (lines.skip(1), more.skip(1));
        assert forall|i: int| 0 <= i < a.len() implies #[trigger] b[i] == a[i] by {
            assert(more[i + 1] == lines[i + 1]);
        }
        first_host_of_more(a, b);
    }
}

proof fn first_host_by_line(a: Seq<Seq<u8>>, b: Seq<Seq<u8>>)
    requires
        a.len() == b.len(),
        forall|i: int| 0 <= i < a.len() ==> host_of_line(#[trigger] a[i]) == host_of_line(b[i]),
    ensures
        first_host(a) == first_host(b),
    decreases a.len(),
{
    if a.len() > 0 {
        assert(host_of_line(a[0]) == host_of_line(b[0]));
        let (x, y) = (a.skip(1), b.skip(1));
        assert forall|i: int| 0 <= i < x.len() implies host_of_line(#[trigger] x[i])
            == host_of_line(y[i]) by {
            assert(host_of_line(a[i + 1]) == host_of_line(b[i + 1]));
        }
        first_host_by_line(x, y);
    }
}

proof fn trimmed_start_of_more(s: Seq<char>, c: char)
    requires
        text::white_space(c),
    ensures
        ({
            let ws = |c: char| text::white_space(c);
            let t = text::trimmed_start(s, ws);
            text::trimmed_start(s.push(c), ws) == if t.len() == 0 {
                t
            } else {
                t.push(c)
            }
        }),
    decreases s.len(),
{
    let ws = |c: char| text::white_space(c);
    if s.len() == 0 {
        assert(s.push(c).skip(1) =~= s);
        reveal_with_fuel(text::trimmed_start, 2);
    } else if text::white_space(s[0]) {
        trimmed_start_of_more(s.skip(1), c);
        assert(s.push(c).skip(1) =~= s.skip(1).push(c));
    }
}

/// White space after a value makes no difference.
proof fn trimmed_of_more(s: Seq<char>, c: char)
    requires
        text::white_space(c),
    ensures
        text::trimmed(s.push(c)) == text::trimmed(s),
{
    let ws = |c: char| text::white_space(c);
    trimmed_start_of_more(s, c);
    let t = text::trimmed_start(s, ws);
    assert(t.push(c).drop_last() =~= t);
}

proof fn return_after_value(raw: Seq<u8>)
    ensures
        host_value(raw.push(13)) == host_value(raw),
{
    let whole = raw.push(13);
    let n = raw.len() as int;
    let one = seq![13u8];
    assert(whole =~= raw + one);
    assert(valid_utf8(one) && decode_utf8(one) == seq!['\r']) by {
        let end = seq!['\r'];
        assert(is_ascii_chars(end));
        is_ascii_chars_encode_utf8(end);
        assert(encode_utf8(end) =~= one);
        encode_utf8_valid_utf8(end);
        encode_utf8_decode_utf8(end);
    }
    if valid_utf8(raw) {
        valid_utf8_concat(raw, one);
    }
    if valid_utf8(whole) {
        assert(whole[n] == 13);
        is_char_boundary_iff_not_is_continuation_byte(whole, n);
        valid_utf8_split(whole, n);
        decode_utf8_split(whole, n);
        assert(whole.subrange(0, n) =~= raw);
        assert(whole.subrange(n, whole.len() as int) =~= one);
        assert(decode_utf8(whole) =~= decode_utf8(raw).push('\r'));
        trimmed_of_more(decode_utf8(raw), '\r');
    }
}

/// A carriage return after a line makes no difference.
proof fn return_after_line(line: Seq<u8>)
    ensures
        host_of_line(line.push(13)) == host_of_line(line),
{
    let whole = line.push(13);
    assert(whole.drop_last() =~= line);
    if line.len() > 0 && line.last() == 13 {
        let kept = line.drop_last();
        if line.len() >= 6 {
            assert(kept.take(5) =~= line.take(5));
            assert(line.skip(5) =~= kept.skip(5).push(13));
            return_after_value(kept.skip(5));
        } else if line.len() == 5 {
            let head = line.take(5).map_values(|b: u8| byte_lower(b));
            assert(head[4] == byte_lower(line[4]));
            assert(host_field()[4] == 58);
        }
    }
}

/// Once the host of an HTTP request is decided, more bytes do not change the answer.
/// It is undecided only before the end of the headers, and absent only after.
pub proof fn decided_hosts_stay(buf: Seq<u8>, more: Seq<u8>)
    ensures
        host_of(buf) != PeekView::Incomplete ==> host_of(buf + more) == host_of(buf),
        host_of(buf) == PeekView::Incomplete ==> !text::contains_text(buf, blank_line()),
        host_of(buf) == PeekView::Absent ==> text::contains_text(buf, blank_line()),
{
    let whole = buf + more;
    let blank = blank_line();
    first_from_found(buf, blank, 0);
    first_from_found(whole, blank, 0);
    if let Some(e) = text::first_from(buf, blank, 0) {
        first_from_stays(buf, more, blank, 0);
        assert(whole.take(e) =~= buf.take(e));
    } else if host_of(buf) != PeekView::Incomplete {
        let region = complete_lines(buf);
        let lines = text::split_on(region, 10u8);
        before_last_is(buf, 10);
        before_last_is(whole, 10);
        let n = region.len() as int;
        if !buf.contains(10u8) {
            assert(region =~= Seq::empty());
            assert(lines =~= seq![Seq::<u8>::empty()]);
            assert(lines.skip(1).len() == 0);
            assert(host_of_line(lines[0]) is None);
            assert(first_host(lines.skip(1)) is None);
            assert(first_host(lines) is None);
        } else {
            assert(whole[n] == 10);
            assert(whole.contains(10u8));
            let after = complete_lines(whole);
            if let Some(e) = text::first_from(whole, blank, 0) {
                let found = whole.subrange(e, e + 4);
                assert(found[0] == whole[e] && found[1] == whole[e + 1] && found[2] == whole[e + 2]
                    && found[3] == whole[e + 3]);
                assert(e + 4 > buf.len()) by {
                    if e + 4 <= buf.len() {
                        assert(buf.subrange(e, e + 4) =~= found);
                        assert(text::occurs_at(buf, blank, e));
                    }
                }
                if e < n {
                    assert(n == e + 1);
                    assert(after =~= region.drop_last());
                    shorter_by_a_return(region, after);
                } else {
                    assert(after.take(n) =~= region);
                    longer_region(after, n, region);
                }
            } else if after.len() == n {
                assert(after =~= region);
            } else {
                assert(after.take(n) =~= region);
                longer_region(after, n, region);
            }
        }
    }
}

proof fn shorter_by_a_return(region: Seq<u8>, after: Seq<u8>)
    requires
        region.len() > 0,
        region.last() == 13,
        after == region.drop_last(),
    ensures
        first_host(text::split_on(after, 10u8)) == first_host(text::split_on(region, 10u8)),
{
    let a = text::split_on(after, 10u8);
    let b = text::split_on(region, 10u8);
    text::split_on_nonempty(after, 10u8);
    return_after_line(a.last());
    first_host_by_line(a, b);
}

proof fn longer_region(after: Seq<u8>, n: int, region: Seq<u8>)
    requires
        0 <= n < after.len(),
        after[n] == 10,
        region == after.take(n),
        first_host(text::split_on(region, 10u8)) is Some,
    ensures
        first_host(text::split_on(after, 10u8)) == first_host(text::split_on(region, 10u8)),
{
    let lines = text::split_on(region, 10u8);
    let all = text::split_on(after, 10u8);
    let cut = after.take(n + 1);
    assert(cut.drop_last() =~= region);
    assert(text::split_on(cut, 10u8) == lines.push(Seq::empty()));
    text::split_on_nonempty(region, 10u8);
    text::pieces_stay(after, 10u8, n + 1, 0);
    assert forall|i: int| 0 <= i < lines.len() implies #[trigger] all[i] == lines[i] by {
        text::pieces_stay(after, 10u8, n + 1, i);
    }
    first_host_of_more(lines, all);
}

/// Whether five bytes spell `host:`, in letters of any case.
pub open spec fn spells_host(b: Seq<u8>) -> bool {
    &&& b.len() == 5
    &&& b[0] == 104u8 || b[0] == 72u8
    &&& b[1] == 111u8 || b[1] == 79u8
    &&& b[2] == 115u8 || b[2] == 83u8
    &&& b[3] == 116u8 || b[3] == 84u8
    &&& b[4] == 58u8
}

proof fn host_fields_spell_host(b: Seq<u8>)
    requires
        b.len() == 5,
    ensures
        b.map_values(|x: u8| byte_lower(x)) == host_field() <==> spells_host(b),
{
    let low = b.map_values(|x: u8| byte_lower(x));
    assert(low[0] == byte_lower(b[0]) && low[1] == byte_lower(b[1]) && low[2] == byte_lower(b[2])
        && low[3] == byte_lower(b[3]) && low[4] == byte_lower(b[4]));
    if spells_host(b) {
        assert(low =~= host_field());
    }
}

/// What the value of a `Host` header names: the host, in lower case, without the white
/// space around it, and without the port where it has one.
pub proof fn host_values_name_hosts(
    start: Seq<char>,
    host: Seq<char>,
    port: Seq<char>,
    end: Seq<char>,
)
    requires
        forall|i: int| 0 <= i < start.len() ==> text::white_space(#[trigger] start[i]),
        forall|i: int| 0 <= i < end.len() ==> text::white_space(#[trigger] end[i]),
        host.len() > 0,
        host[0] != '[',
        !host.contains(':'),
        !text::white_space(host[0]),
        !text::white_space(host.last()),
        !port.contains(':'),
        port.len() > 0,
        !text::white_space(port.last()),
    ensures
        host_value(encode_utf8(start + host + end)) matches Some(h) && text::same_letters(h, host)
            && text::ascii_lowered(h) == h,
        host_value(encode_utf8(start + (host.push(':') + port) + end)) matches Some(h)
            && text::same_letters(h, host) && text::ascii_lowered(h) == h,
{
    let a = start + host + end;
    let both = host.push(':') + port;
    let b = start + both + end;
    encode_utf8_valid_utf8(a);
    encode_utf8_decode_utf8(a);
    encode_utf8_valid_utf8(b);
    encode_utf8_decode_utf8(b);
    text::trimming_cuts_white_space(start, host, end);
    assert(both[0] == host[0] && both.last() == port.last());
    text::trimming_cuts_white_space(start, both, end);
    text::split_without(host, ':');
    text::split_append(host, ':', port);
    assert(text::split_on(both, ':') =~= seq![host, port]);
    let low = text::ascii_lowered(host);
    text::lowercase_tells_letters(host, low);
    text::lowercase_tells_letters(low, host);
}

/// An address in brackets is the host without them, with a port after it or without.
pub proof fn bracketed_values_name_addresses(host: Seq<char>, rest: Seq<char>)
    requires
        host.len() > 0,
        !host.contains(']'),
        rest.len() == 0 || !text::white_space(rest.last()),
    ensures
        host_value(encode_utf8(seq!['['] + host + seq![']'] + rest)) matches Some(h)
            && text::same_letters(h, host) && text::ascii_lowered(h) == h,
{
    let value = seq!['['] + host + seq![']'] + rest;
    let none = Seq::<char>::empty();
    encode_utf8_valid_utf8(value);
    encode_utf8_decode_utf8(value);
    assert(none + value + none =~= value);
    assert(value.last() == if rest.len() == 0 {
        ']'
    } else {
        rest.last()
    });
    text::trimming_cuts_white_space(none, value, none);
    let inner = value.skip(1);
    let k = host.len() as int;
    assert(inner.take(k) =~= host);
    assert(inner[k] == ']');
    assert(inner.contains(']'));
    text::split_first(inner, ']', k);
    let low = text::ascii_lowered(host);
    text::lowercase_tells_letters(host, low);
    text::lowercase_tells_letters(low, host);
}

proof fn no_host_before(lines: Seq<Seq<u8>>, line: Seq<u8>)
    requires
        forall|i: int| 0 <= i < lines.len() ==> host_of_line(#[trigger] lines[i]) is None,
    ensures
        first_host(lines.push(line)) == host_of_line(line),
    decreases lines.len(),
{
    let all = lines.push(line);
    if lines.len() == 0 {
        assert(all[0] == line);
        assert(all.skip(1).len() == 0);
        assert(first_host(all.skip(1)) is None);
    } else {
        assert(all[0] == lines[0]);
        assert(host_of_line(lines[0]) is None);
        let rest = lines.skip(1);
        assert(all.skip(1) =~= rest.push(line));
        assert forall|i: int| 0 <= i < rest.len() implies host_of_line(
            #[trigger] rest[i],
        ) is None by {
            assert(rest[i] == lines[i + 1]);
        }
        no_host_before(rest, line);
    }
}

/// The host of an HTTP request is found as soon as its `Host` header is complete,
/// whatever the lines before it are, provided that none of them names a host and the
/// headers are not over; and whatever follows.
#[verifier::spinoff_prover]
#[verifier::rlimit(60)]
pub proof fn http_hosts_are_found(
    before: Seq<u8>,
    field: Seq<u8>,
    value: Seq<u8>,
    more: Seq<u8>,
    host: Seq<char>,
)
    requires
        before.len() == 0 || before.last() == 10u8,
        forall|i: int|
            0 <= i < text::split_on(before, 10u8).len() ==> host_of_line(
                #[trigger] text::split_on(before, 10u8)[i],
            ) is None,
        spells_host(field),
        !value.contains(10u8),
        host_value(value) == Some(host),
        !text::contains_text(before + field + value + seq![13u8, 10u8], seq![13u8, 10u8, 13u8, 10u8]),
    ensures
        host_of(before + field + value + seq![13u8, 10u8] + more) == PeekView::Found(host),
{
    let seen = before + field + value + seq![13u8, 10u8];
    let line = field + value;
    let region = before + line + seq![13u8];
    assert(blank_line() == seq![13u8, 10u8, 13u8, 10u8]);
    first_from_found(seen, blank_line(), 0);
    assert(text::first_from(seen, blank_line(), 0) is None);
    assert(seen =~= region.push(10u8));
    assert(seen.drop_last() =~= region);
    assert(complete_lines(seen) == region);
    // The line itself.
    let ended = line.push(13u8);
    assert(line.take(5) =~= field);
    assert(line.skip(5) =~= value);
    host_fields_spell_host(field);
    return_after_line(line);
    if line.last() == 13u8 {
        line_with_return(field, value);
    }
    assert(host_of_line(line) == Some(host));
    assert(!ended.contains(10u8)) by {
        assert forall|i: int| 0 <= i < ended.len() implies ended[i] != 10u8 by {
            if 5 <= i < line.len() {
                assert(ended[i] == value[i - 5]);
            } else if i < 5 {
                assert(ended[i] == field[i]);
            }
        }
    }
    // The lines before it.
    if before.len() == 0 {
        assert(region =~= ended);
        text::split_without(ended, 10u8);
        assert(text::split_on(region, 10u8) =~= Seq::<Seq<u8>>::empty().push(ended));
        no_host_before(Seq::empty(), ended);
    } else {
        let stem = before.drop_last();
        assert(before =~= stem.push(10u8));
        assert(region =~= stem.push(10u8) + ended);
        text::split_append(stem, 10u8, ended);
        let lines = text::split_on(stem, 10u8);
        assert(text::split_on(before, 10u8) =~= lines.push(Seq::empty()));
        assert forall|i: int| 0 <= i < lines.len() implies host_of_line(
            #[trigger] lines[i],
        ) is None by {
            assert(text::split_on(before, 10u8)[i] == lines[i]);
        }
        no_host_before(lines, ended);
    }
    assert(host_of(seen) == PeekView::Found(host));
    decided_hosts_stay(seen, more);
    assert(seen + more =~= before + field + value + seq![13u8, 10u8] + more);
}

proof fn line_with_return(field: Seq<u8>, value: Seq<u8>)
    requires
        field.len() == 5,
        (field + value).last() == 13u8,
        spells_host(field),
    ensures
        host_of_line(field + value) == host_value(value),
{
    let line = field + value;
    host_fields_spell_host(field);
    if value.len() == 0 {
        assert(line.last() == field[4]);
    } else {
        let kept = line.drop_last();
        assert(kept.take(5) =~= field);
        assert(kept.skip(5) =~= value.drop_last());
        assert(value =~= value.drop_last().push(13u8));
        return_after_value(value.drop_last());
    }
}

/// A host is found only where a line of the request spells `host:` and its value names
/// it.
pub proof fn found_hosts_stand_in_a_line(buf: Seq<u8>, host: Seq<char>)
    requires
        host_of(buf) == PeekView::Found(host),
    ensures
        exists|i: int|
            0 <= i < text::split_on(complete_lines(buf), 10u8).len() && ({
                let line = #[trigger] text::split_on(complete_lines(buf), 10u8)[i];
                &&& line.len() >= 5
                &&& spells_host(line.take(5))
                &&& host_value(line.skip(5)) == Some(host)
            }),
{
    let lines = text::split_on(complete_lines(buf), 10u8);
    let i = first_host_stands(lines);
    let line = lines[i];
    let kept = if line.len() > 0 && line.last() == 13 {
        line.drop_last()
    } else {
        line
    };
    assert(kept.take(5) =~= line.take(5));
    host_fields_spell_host(kept.take(5));
    if line.last() == 13 {
        assert(line.skip(5) =~= kept.skip(5).push(13u8));
        return_after_value(kept.skip(5));
    }
}

proof fn first_host_stands(lines: Seq<Seq<u8>>) -> (i: int)
    requires
        first_host(lines) is Some,
    ensures
        0 <= i < lines.len(),
        host_of_line(lines[i]) == first_host(lines),
    decreases lines.len(),
{
    if host_of_line(lines[0]) is Some {
        0
    } else {
        let j = first_host_stands(lines.skip(1));
        assert(lines.skip(1)[j] == lines[j + 1]);
        j + 1
    }
}

proof fn first_utf8_is(names: Seq<Seq<u8>>, j: int)
    requires
        0 <= j < names.len(),
        valid_utf8(names[j]),
        forall|i: int| 0 <= i < j ==> !valid_utf8(#[trigger] names[i]),
    ensures
        first_utf8(names) == Some(text::ascii_lowered(decode_utf8(names[j]))),
    decreases names.len(),
{
    if j > 0 {
        assert(!valid_utf8(names[0]));
        let rest = names.skip(1);
        assert(rest[j - 1] == names[j]);
        assert forall|i: int| 0 <= i < j - 1 implies !valid_utf8(#[trigger] rest[i]) by {
            assert(rest[i] == names[i + 1]);
        }
        first_utf8_is(rest, j - 1);
    }
}

proof fn first_utf8_is_none(names: Seq<Seq<u8>>)
    requires
        forall|i: int| 0 <= i < names.len() ==> !valid_utf8(#[trigger] names[i]),
    ensures
        first_utf8(names) is None,
    decreases names.len(),
{
    if names.len() > 0 {
        let rest = names.skip(1);
        assert forall|i: int| 0 <= i < rest.len() implies !valid_utf8(#[trigger] rest[i]) by {
            assert(rest[i] == names[i + 1]);
        }
        first_utf8_is_none(rest);
    }
}

/// Whether an extension names no host: it is no server name extension, or none of its
/// names is UTF-8.
pub open spec fn names_no_host(extension: Option<Seq<Seq<u8>>>) -> bool {
    extension matches Some(names) ==> forall|i: int|
        0 <= i < names.len() ==> !valid_utf8(#[trigger] names[i])
}

/// The host of a TLS flow is the first name of UTF-8 in its server name extensions, in
/// lower case; it has none where there is no such name.
pub proof fn tls_hosts_are_server_names(
    extensions: Seq<Option<Seq<Seq<u8>>>>,
    k: int,
    names: Seq<Seq<u8>>,
    j: int,
)
    requires
        0 <= k <= extensions.len(),
        forall|i: int| 0 <= i < k ==> names_no_host(#[trigger] extensions[i]),
        k < extensions.len() ==> extensions[k] == Some(names) && 0 <= j < names.len()
            && valid_utf8(names[j]) && forall|i: int| 0 <= i < j ==> !valid_utf8(
            #[trigger] names[i],
        ),
    ensures
        k < extensions.len() ==> sni_of_extensions(Wire::Parsed(extensions)) == PeekView::Found(
            text::ascii_lowered(decode_utf8(names[j])),
        ),
        k == extensions.len() ==> sni_of_extensions(Wire::Parsed(extensions)) == PeekView::Absent,
    decreases extensions.len(),
{
    if extensions.len() > 0 {
        if k == 0 {
            first_utf8_is(names, j);
        } else {
            assert(names_no_host(extensions[0]));
            if let Some(none) = extensions[0] {
                first_utf8_is_none(none);
            }
            let rest = extensions.skip(1);
            assert forall|i: int| 0 <= i < k - 1 implies names_no_host(#[trigger] rest[i]) by {
                assert(rest[i] == extensions[i + 1]);
            }
            if k < extensions.len() {
                assert(rest[k - 1] == extensions[k]);
            }
            tls_hosts_are_server_names(rest, k - 1, names, j);
        }
    }
}

/// The extensions of a TLS record are those of its first `ClientHello`; a record without
/// one, or whose `ClientHello` has none, names no host.
pub proof fn tls_hosts_stand_in_the_client_hello(
    messages: Seq<Option<Option<Seq<u8>>>>,
    k: int,
)
    requires
        0 <= k <= messages.len(),
        forall|i: int| 0 <= i < k ==> (#[trigger] messages[i]) is None,
        k < messages.len() ==> messages[k] is Some,
    ensures
        k == messages.len() ==> hello_of_record(Wire::Parsed(messages)) == Err::<
            Seq<u8>,
            PeekView,
        >(PeekView::Absent),
        k < messages.len() ==> hello_of_record(Wire::Parsed(messages)) == (match messages[k]->0 {
            Some(extensions) => Ok::<Seq<u8>, PeekView>(extensions),
            None => Err(PeekView::Absent),
        }),
    decreases messages.len(),
{
    if messages.len() > 0 && k > 0 {
        assert(messages[0] is None);
        let rest = messages.skip(1);
        assert forall|i: int| 0 <= i < k - 1 implies (#[trigger] rest[i]) is None by {
            assert(rest[i] == messages[i + 1]);
        }
        if k < messages.len() {
            assert(rest[k - 1] == messages[k]);
        }
        tls_hosts_stand_in_the_client_hello(rest, k - 1);
    }
}

/// A flow that does not begin as TLS handshakes do names no host; one whose record or
/// extensions are cut short has yet to name one.
pub proof fn tls_hosts_need_a_handshake(buf: Seq<u8>)
    ensures
        buf.len() > 0 && buf[0] != 0x16u8 ==> sni_of(buf) == PeekView::Absent,
        (buf.len() == 0 || buf[0] == 0x16u8) && tls_record(buf) is Incomplete ==> sni_of(buf)
            == PeekView::Incomplete,
        (buf.len() == 0 || buf[0] == 0x16u8) && tls_record(buf) is Malformed ==> sni_of(buf)
            == PeekView::Absent,
        (buf.len() == 0 || buf[0] == 0x16u8) ==> (hello_of_record(tls_record(buf)) matches Ok(ext)
            ==> sni_of(buf) == sni_of_extensions(tls_extensions(ext))),
{
}

/// What reading ahead comes to is what the bytes that were read say: the host that they
/// name, and none where they name none. It ends without a host only where the bytes say
/// that there is none, or as many were read as are looked at, or nothing more came.
pub proof fn peeking_tells_what_the_bytes_say(how: Sniff, bytes: Seq<u8>, reads: Seq<Seq<u8>>)
    ensures
        ({
            let (host, all) = peeked(how, bytes, reads);
            let says = match how {
                Sniff::Tls => sni_of(all),
                Sniff::Http => host_of(all),
            };
            &&& host is Some <==> says is Found
            &&& says matches PeekView::Found(h) ==> host == Some(h)
            &&& says is Incomplete && all.len() < 8192 ==> all == bytes + joined(
                reads,
                reads.len(),
            ) || exists|i: int| 0 <= i < reads.len() && (#[trigger] reads[i]).len() == 0
        }),
    decreases reads.len(),
{
    if step_after(how, bytes) is Read {
        if reads.len() == 0 {
            assert(bytes + joined(reads, 0) =~= bytes);
        } else if reads[0].len() > 0 {
            let rest = reads.skip(1);
            peeking_tells_what_the_bytes_say(how, bytes + reads[0], rest);
            joined_front(reads, rest.len());
            assert(bytes + reads[0] + joined(rest, rest.len()) =~= bytes + joined(
                reads,
                reads.len(),
            ));
            if exists|i: int| 0 <= i < rest.len() && (#[trigger] rest[i]).len() == 0 {
                let i = choose|i: int| 0 <= i < rest.len() && (#[trigger] rest[i]).len() == 0;
                assert(reads[i + 1].len() == 0);
            }
        }
    }
}

/// Reading ahead stops short of nine kibibytes where reads bring a kibibyte at most.
pub proof fn at_most_nine_kibibytes_are_read_ahead(how: Sniff, reads: Seq<Seq<u8>>)
    requires
        forall|i: int| 0 <= i < reads.len() ==> (#[trigger] reads[i]).len() <= 1024,
    ensures
        peeked(how, Seq::empty(), reads).1.len() < 9216,
        PEEK_MAX == 8192,
        PEEK_CHUNK == 1024,
        PEEK_TIMEOUT_SECS == 5,
{
    peeking_is_bounded(how, Seq::empty(), reads);
}

} // verus!
