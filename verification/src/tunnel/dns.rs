//! In-tunnel DNS pinning.
//!
//! The guest's `resolv.conf` points at a single pinned resolver, and its queries
//! are answered here: one for a name that a domain rule covers goes to the real
//! resolver, whose response is relayed as it is; any other name gets a synthesized
//! `NXDOMAIN`. A denied name therefore fails at resolution already, and not only
//! when its address is dialed.
//!
//! This is for UDP port 53. Only the query is parsed, to read its name and to echo
//! it; responses are opaque bytes, so every record type works.
use vstd::prelude::*;

use crate::text;
use crate::tunnel::policy::{self, Policy};

verus! {

/// Buffer for a single DNS message: it covers the sizes that EDNS advertises.
pub const DNS_BUF: usize = 4096;

/// How long to wait for the upstream resolver to answer, in seconds.
pub const UPSTREAM_TIMEOUT_SECS: u64 = 5;

/// The response code "non-existent domain".
pub const NXDOMAIN: u16 = 3;

/// `hickory_proto::op::Query`, a question carried through unread.
#[verifier::external_type_specification]
#[verifier::external_body]
pub struct ExQuery(hickory_proto::op::Query);

// ---------------------------------------------------------------------------
// Messages
// ---------------------------------------------------------------------------

/// A question of a message, with its name as text.
pub struct Question {
    /// The name in ASCII, with its trailing dot.
    pub name: String,
    pub query: hickory_proto::op::Query,
}

/// What is read of a DNS message, and written into a reply.
pub struct DnsMessage {
    pub id: u16,
    pub response: bool,
    pub op_code: u8,
    pub response_code: u16,
    pub recursion_desired: bool,
    pub recursion_available: bool,
    pub questions: Vec<Question>,
}

/// The mathematical model of [`Question`].
pub ghost struct QuestionView {
    pub name: Seq<char>,
    pub query: hickory_proto::op::Query,
}

/// The mathematical model of [`DnsMessage`].
pub ghost struct DnsView {
    pub id: u16,
    pub response: bool,
    pub op_code: u8,
    pub response_code: u16,
    pub recursion_desired: bool,
    pub recursion_available: bool,
    pub questions: Seq<QuestionView>,
}

impl Question {
    pub open spec fn view(&self) -> QuestionView {
        QuestionView { name: self.name@, query: self.query }
    }
}

impl DnsMessage {
    pub open spec fn view(&self) -> DnsView {
        DnsView {
            id: self.id,
            response: self.response,
            op_code: self.op_code,
            response_code: self.response_code,
            recursion_desired: self.recursion_desired,
            recursion_available: self.recursion_available,
            questions: self.questions@.map_values(|q: Question| q@),
        }
    }
}

/// The model of a message, if there is one.
pub open spec fn opt_view(m: Option<DnsMessage>) -> Option<DnsView> {
    match m {
        Some(m) => Some(m@),
        None => None,
    }
}

/// What `hickory_proto::op::Message::from_vec` reads from some bytes.
pub uninterp spec fn dns_message(bytes: Seq<u8>) -> Option<DnsView>;

/// What `hickory_proto::op::Message::to_vec` writes for a message.
pub uninterp spec fn dns_bytes(message: DnsView) -> Option<Seq<u8>>;

/// Whether the question was read from some bytes.
pub open spec fn was_read(q: QuestionView) -> bool {
    exists|bytes: Seq<u8>|
        dns_message(bytes) is Some && (#[trigger] dns_message(bytes))->0.questions.contains(q)
}

/// Calls `hickory_proto::op::Message::from_vec`, and `Name::to_ascii` on the name
/// of each question. What is read depends on the bytes alone; an op code has four
/// bits.
#[verifier::external_body]
fn read_message(datagram: &[u8]) -> (r: Option<DnsMessage>)
    ensures
        opt_view(r) == dns_message(datagram@),
        r matches Some(m) ==> m.op_code < 16,
{
    let message = hickory_proto::op::Message::from_vec(datagram).ok()?;
    Some(DnsMessage {
        id: message.metadata.id,
        response: matches!(message.metadata.message_type, hickory_proto::op::MessageType::Response),
        op_code: message.metadata.op_code.into(),
        response_code: message.metadata.response_code.into(),
        recursion_desired: message.metadata.recursion_desired,
        recursion_available: message.metadata.recursion_available,
        questions: message.queries.into_iter()
            .map(|query| Question { name: query.name().to_ascii(), query }).collect(),
    })
}

/// Calls `hickory_proto::op::Message::error_msg`, `add_queries` and `to_vec`.
/// What is written depends on the message alone. Questions that were read come
/// out again: reading the bytes gives the same message back. A single question
/// that was read can always be written; several may not fit into a message.
#[verifier::external_body]
fn write_response(message: DnsMessage) -> (r: Option<Vec<u8>>)
    requires
        message.response,
        message.op_code < 16,
        message.response_code < 16,
    ensures
        (match r {
            Some(b) => Some(b@),
            None => None,
        }) == dns_bytes(message@),
        r is Some && (forall|i: int|
            0 <= i < message@.questions.len() ==> was_read(#[trigger] message@.questions[i]))
            ==> dns_message(r->0@) == Some(message@),
        message@.questions.len() <= 1 && (forall|i: int|
            0 <= i < message@.questions.len() ==> was_read(#[trigger] message@.questions[i]))
            ==> r is Some,
{
    let op_code = hickory_proto::op::OpCode::from_u8(message.op_code);
    let code = message.response_code.into();
    let mut out = hickory_proto::op::Message::error_msg(message.id, op_code, code);
    out.metadata.recursion_desired = message.recursion_desired;
    out.metadata.recursion_available = message.recursion_available;
    out.add_queries(message.questions.into_iter().map(|question| question.query));
    out.to_vec().ok()
}

// ---------------------------------------------------------------------------
// Verdicts
// ---------------------------------------------------------------------------

/// What to do with one query.
#[derive(Debug, PartialEq, Eq)]
pub enum Verdict {
    /// Resolve the name upstream: a domain rule covers it.
    Resolve(String),
    /// Answer `NXDOMAIN` for the name: no rule covers it.
    Refuse(String),
    /// The datagram was no query with a question.
    Unparsable,
}

/// The mathematical model of [`Verdict`].
pub ghost enum VerdictView {
    Resolve(Seq<char>),
    Refuse(Seq<char>),
    Unparsable,
}

impl Verdict {
    pub open spec fn view(&self) -> VerdictView {
        match self {
            Verdict::Resolve(name) => VerdictView::Resolve(name@),
            Verdict::Refuse(name) => VerdictView::Refuse(name@),
            Verdict::Unparsable => VerdictView::Unparsable,
        }
    }
}

/// A name as the rules write it: in lower case, without trailing dots.
pub open spec fn plain_name(name: Seq<char>) -> Seq<char> {
    text::ascii_lowered(text::trimmed_end(name, |c: char| c == '.'))
}

/// The verdict on a query: it is on the name of the first question.
pub open spec fn verdict(message: Option<DnsView>, rules: Seq<policy::RuleView>) -> VerdictView {
    match message {
        Some(m) => if m.questions.len() == 0 {
            VerdictView::Unparsable
        } else {
            let name = plain_name(m.questions[0].name);
            if policy::name_allowed(rules, name) {
                VerdictView::Resolve(name)
            } else {
                VerdictView::Refuse(name)
            }
        },
        None => VerdictView::Unparsable,
    }
}

/// A name as the rules write it: in lower case, without trailing dots.
pub fn normalize_name(name: &str) -> (r: String)
    ensures
        r@ == plain_name(name@),
{
    let v = text::chars_of(name);
    let ghost dot = |c: char| c == '.';
    let mut k: usize = v.len();
    assert(name@.subrange(0, k as int) =~= name@);
    while k > 0 && v[k - 1] == '.'
        invariant
            v@ == name@,
            k <= v@.len(),
            dot == (|c: char| c == '.'),
            text::trimmed_end(name@.subrange(0, k as int), dot) == text::trimmed_end(name@, dot),
        decreases k,
    {
        assert(name@.subrange(0, k as int).drop_last() =~= name@.subrange(0, k - 1));
        k = k - 1;
    }
    let kept = text::string_of(&v, 0, k);
    text::ascii_lowercase(kept.as_str())
}

/// Judges a query that was read, or could not be.
pub fn judge(message: &Option<DnsMessage>, policy: &Policy) -> (r: Verdict)
    ensures
        r@ == verdict(opt_view(*message), policy.rules()),
{
    match message {
        Some(m) => {
            if m.questions.len() == 0 {
                return Verdict::Unparsable;
            }
            assert(m@.questions[0] == m.questions@[0]@);
            let name = normalize_name(m.questions[0].name.as_str());
            if policy.allows_name(name.as_str()) {
                Verdict::Resolve(name)
            } else {
                Verdict::Refuse(name)
            }
        },
        None => Verdict::Unparsable,
    }
}

/// Decides what to do with a raw DNS query datagram.
pub fn decide(datagram: &[u8], policy: &Policy) -> (r: Verdict)
    ensures
        r@ == verdict(dns_message(datagram@), policy.rules()),
{
    judge(&read_message(datagram), policy)
}

// ---------------------------------------------------------------------------
// Refusals
// ---------------------------------------------------------------------------

/// The `NXDOMAIN` response to a request: it has the request's id, op code,
/// recursion flag and questions.
pub open spec fn refusal_of(request: DnsView) -> DnsView {
    DnsView {
        id: request.id,
        response: true,
        op_code: request.op_code,
        response_code: NXDOMAIN,
        recursion_desired: request.recursion_desired,
        recursion_available: true,
        questions: request.questions,
    }
}

/// The `NXDOMAIN` response to a request, echoing its id and question.
pub fn refusal(request: DnsMessage) -> (r: DnsMessage)
    ensures
        r@ == refusal_of(request@),
{
    DnsMessage {
        id: request.id,
        response: true,
        op_code: request.op_code,
        response_code: NXDOMAIN,
        recursion_desired: request.recursion_desired,
        recursion_available: true,
        questions: request.questions,
    }
}

/// What is sent for a query that is refused; nothing for one that cannot be read.
pub open spec fn refusal_bytes(request: Option<DnsView>) -> Option<Seq<u8>> {
    match request {
        Some(m) => dns_bytes(refusal_of(m)),
        None => None,
    }
}

/// Builds an `NXDOMAIN` response echoing the query's id and question. What is
/// built reads back as that response; and it is built for every query with one
/// question.
pub fn nxdomain(query: &[u8]) -> (r: Option<Vec<u8>>)
    ensures
        (match r {
            Some(b) => Some(b@),
            None => None,
        }) == refusal_bytes(dns_message(query@)),
        r matches Some(b) ==> dns_message(query@) matches Some(m) && dns_message(b@) == Some(
            refusal_of(m),
        ),
        dns_message(query@) matches Some(m) && m.questions.len() <= 1 ==> r is Some,
{
    match read_message(query) {
        Some(request) => {
            let ghost questions = request@.questions;
            assert forall|i: int| 0 <= i < questions.len() implies was_read(
                #[trigger] questions[i],
            ) by {
                assert(dns_message(query@)->0.questions.contains(questions[i]));
            }
            write_response(refusal(request))
        },
        None => None,
    }
}

// ---------------------------------------------------------------------------
// Serving
// ---------------------------------------------------------------------------

/// What is done about one datagram from the guest.
pub enum DnsStep {
    /// Forward the datagram to the resolver and relay what comes back; the name is
    /// for the audit log.
    Forward(String),
    /// Send these bytes, if any, to the guest: the name is refused.
    Refuse(String, Option<Vec<u8>>),
    /// Drop the datagram.
    Drop,
}

/// Whether `r` is what is done about a datagram that was read as `message`.
pub open spec fn serves(
    r: DnsStep,
    message: Option<DnsView>,
    rules: Seq<policy::RuleView>,
) -> bool {
    match verdict(message, rules) {
        VerdictView::Resolve(name) => r matches DnsStep::Forward(n) && n@ == name,
        VerdictView::Refuse(name) => r matches DnsStep::Refuse(n, reply) && n@ == name && (
        match reply {
            Some(b) => Some(b@),
            None => None,
        }) == refusal_bytes(message) && (reply matches Some(b) ==> dns_message(b@) == Some(
            refusal_of(message->0),
        )),
        VerdictView::Unparsable => r is Drop,
    }
}

/// Serves one datagram of a guest's DNS flow. Only names that a domain rule covers
/// go to the resolver; a query for any other is answered here. One with a single
/// question always is.
pub fn serve_query(datagram: &[u8], policy: &Policy) -> (r: DnsStep)
    ensures
        serves(r, dns_message(datagram@), policy.rules()),
        r matches DnsStep::Forward(n) ==> policy::name_allowed(policy.rules(), n@),
        dns_message(datagram@) matches Some(m) && m.questions.len() <= 1 ==> (
        r matches DnsStep::Refuse(_, reply) ==> reply is Some),
{
    match decide(datagram, policy) {
        Verdict::Resolve(name) => DnsStep::Forward(name),
        Verdict::Refuse(name) => {
            let reply = nxdomain(datagram);
            DnsStep::Refuse(name, reply)
        },
        Verdict::Unparsable => DnsStep::Drop,
    }
}

// ---------------------------------------------------------------------------
// Laws
// ---------------------------------------------------------------------------

/// A trailing dot makes no difference: a name counts only as the rules write it.
pub proof fn trailing_dot_is_irrelevant(name: Seq<char>)
    ensures
        plain_name(name.push('.')) == plain_name(name),
{
    assert(name.push('.').drop_last() =~= name);
}

/// A name that no domain rule covers is refused, and the response to a query for
/// it carries the same id and questions and says that there is no such domain.
pub proof fn uncovered_names_are_refused(request: DnsView, rules: Seq<policy::RuleView>)
    requires
        request.questions.len() > 0,
        !policy::name_allowed(rules, plain_name(request.questions[0].name)),
    ensures
        verdict(Some(request), rules) == VerdictView::Refuse(
            plain_name(request.questions[0].name),
        ),
        refusal_of(request).id == request.id,
        refusal_of(request).questions == request.questions,
        refusal_of(request).response,
        refusal_of(request).response_code == NXDOMAIN,
{
}

/// Names are judged in lower case and without the dots at their end.
pub proof fn names_are_judged_plainly(name: Seq<char>, dots: Seq<char>)
    requires
        name.len() == 0 || name.last() != '.',
        forall|i: int| 0 <= i < dots.len() ==> #[trigger] dots[i] == '.',
    ensures
        plain_name(name + dots).len() == name.len(),
        text::same_letters(plain_name(name + dots), name),
        forall|i: int|
            0 <= i < name.len() ==> !('A' <= #[trigger] plain_name(name + dots)[i] && plain_name(
                name + dots,
            )[i] <= 'Z'),
{
    let dot = |c: char| c == '.';
    assert forall|i: int| 0 <= i < dots.len() implies dot(#[trigger] dots[i]) by {}
    text::trimming_cuts_the_end(name, dots, dot);
    text::lowercase_tells_letters(name, name);
    text::lowercase_tells_letters(text::ascii_lowered(name), name);
    let plain = plain_name(name + dots);
    assert(plain == text::ascii_lowered(name));
    assert forall|i: int| 0 <= i < name.len() implies !('A' <= #[trigger] plain[i] && plain[i]
        <= 'Z') by {
        assert(plain[i] == text::ascii_lower(name[i]));
    }
}

/// With an allow entry that is a domain, a query is resolved exactly where its first
/// question is for that very name, up to the case of ASCII letters and dots at the end;
/// for any other name it is refused.
pub proof fn only_covered_names_are_resolved(
    message: DnsView,
    domain: Seq<char>,
    resolver: policy::IpAddress,
    name: Seq<char>,
    dots: Seq<char>,
)
    requires
        domain.len() > 0,
        domain[0] != '[',
        !domain.contains(':'),
        policy::net_literal(domain) is None,
        policy::ip_literal(domain) is None,
        message.questions.len() > 0,
        message.questions[0].name == name + dots,
        name.len() == 0 || name.last() != '.',
        forall|i: int| 0 <= i < dots.len() ==> #[trigger] dots[i] == '.',
    ensures
        ({
            let rules = policy::entry_rules(seq![domain]).push(policy::dns_rule(resolver));
            let v = verdict(Some(message), rules);
            &&& v is Resolve <==> text::same_letters(domain, name)
            &&& v is Refuse <==> !text::same_letters(domain, name)
            &&& v matches VerdictView::Resolve(n) ==> text::same_letters(n, name)
            &&& v matches VerdictView::Refuse(n) ==> text::same_letters(n, name)
        }),
{
    names_are_judged_plainly(name, dots);
    let plain = plain_name(name + dots);
    policy::domain_entries_admit_their_name_alone(
        domain,
        None,
        resolver,
        resolver,
        53,
        Some(plain),
    );
    text::lowercase_tells_letters(domain, plain);
    text::lowercase_tells_letters(domain, name);
    text::lowercase_tells_letters(plain, name);
}

/// What cannot be read, or asks nothing, is neither resolved nor refused.
pub proof fn unreadable_queries_are_dropped(
    message: Option<DnsView>,
    rules: Seq<policy::RuleView>,
)
    ensures
        verdict(message, rules) is Unparsable <==> message is None || message->0.questions.len()
            == 0,
{
}

/// A refusal answers its request: it has the same id, op code, questions and wish for
/// recursion, is a response, offers recursion, and says that there is no such domain.
pub proof fn refusals_answer_their_requests(request: DnsView)
    ensures
        refusal_of(request).id == request.id,
        refusal_of(request).op_code == request.op_code,
        refusal_of(request).recursion_desired == request.recursion_desired,
        refusal_of(request).questions == request.questions,
        refusal_of(request).response,
        refusal_of(request).recursion_available,
        refusal_of(request).response_code == 3,
{
}

/// With an allow entry that is a domain, a query goes to the resolver exactly where its
/// first question is for that very name; a query for another name is refused, and what is
/// sent for it reads as a response to the query that says there is no such domain.
pub proof fn queries_are_served_by_the_allowlist(
    r: DnsStep,
    message: DnsView,
    domain: Seq<char>,
    resolver: policy::IpAddress,
    name: Seq<char>,
    dots: Seq<char>,
)
    requires
        domain.len() > 0,
        domain[0] != '[',
        !domain.contains(':'),
        policy::net_literal(domain) is None,
        policy::ip_literal(domain) is None,
        message.questions.len() > 0,
        message.questions[0].name == name + dots,
        name.len() == 0 || name.last() != '.',
        forall|i: int| 0 <= i < dots.len() ==> #[trigger] dots[i] == '.',
        serves(
            r,
            Some(message),
            policy::entry_rules(seq![domain]).push(policy::dns_rule(resolver)),
        ),
    ensures
        r is Forward <==> text::same_letters(domain, name),
        r is Refuse <==> !text::same_letters(domain, name),
        r matches DnsStep::Refuse(_, Some(b)) ==> (dns_message(b@) matches Some(answer)
            && answer.id == message.id && answer.questions == message.questions && answer.response
            && answer.response_code == 3),
{
    only_covered_names_are_resolved(message, domain, resolver, name, dots);
}

} // verus!
