//! Per-session container networks.
//!
//! A container whose egress is filtered runs on a host-only (`--internal`) network
//! of its own, created for the session and deleted after it. Such a network has no
//! route to the internet.
use vstd::prelude::*;

use super::command;
use super::command::Outcome;
use crate::config::merge::{NetworkPolicy, NetworkView};
use crate::error::NpxcError;
use crate::paths::publish;
use crate::text;

verus! {

/// A container network that belongs to one session.
#[derive(Debug)]
pub struct ManagedNetwork {
    pub name: String,
    /// The container CLI that the network was created with.
    pub container_cli: String,
    /// IPv4 subnet assigned to the network.
    pub subnet: String,
    /// IPv4 gateway: the host's address on the network.
    pub gateway: String,
}

/// A UUID without its dashes, among the first `k` characters.
pub open spec fn undashed(s: Seq<char>, k: nat) -> Seq<char>
    decreases k,
{
    if k == 0 {
        Seq::empty()
    } else if s[k - 1] == '-' {
        undashed(s, (k - 1) as nat)
    } else {
        undashed(s, (k - 1) as nat).push(s[k - 1])
    }
}

/// The name of the network for a UUID.
pub open spec fn network_name_of(uuid: Seq<char>) -> Seq<char> {
    "npxc-"@ + undashed(uuid, uuid.len())
}

/// The name of the network for a UUID: `npxc-` and its digits.
pub fn network_name(uuid: &str) -> (r: String)
    ensures
        r@ == network_name_of(uuid@),
{
    let v = text::chars_of(uuid);
    let mut digits = String::new();
    let mut i: usize = 0;
    while i < v.len()
        invariant
            v@ == uuid@,
            i <= v@.len(),
            digits@ == undashed(uuid@, i as nat),
        decreases v@.len() - i,
    {
        if v[i] != '-' {
            digits.push(v[i]);
        }
        i = i + 1;
    }
    text::cat("npxc-", digits.as_str())
}

/// How a session gets its network.
#[derive(Debug)]
pub enum Provision {
    /// Pass this to `--network`; there is nothing to create.
    Ready(String),
    /// Create an isolated network of this name.
    Create(String),
}

impl ManagedNetwork {
    /// The network's name, which is its `--network` argument.
    #[must_use]
    pub fn name(&self) -> (r: &str)
        ensures
            r@ == self.name@,
    {
        self.name.as_str()
    }

    /// How a policy is provided for: no network and named networks need nothing; an
    /// allowlist needs an isolated network with a fresh name.
    pub fn provision(policy: &NetworkPolicy) -> (r: Provision)
        ensures
            provides(r, policy@),
    {
        match policy {
            NetworkPolicy::NoNetwork => Provision::Ready("none".to_owned()),
            NetworkPolicy::Named(name) => Provision::Ready(name.clone()),
            NetworkPolicy::Allowlist { .. } => {
                let uuid = publish::fresh_uuid();
                let name = network_name(uuid.as_str());
                assert(publish::is_uuid(uuid@) && name@ == network_name_of(uuid@));
                Provision::Create(name)
            },
        }
    }

    /// The arguments that delete the network.
    pub fn delete_args(&self) -> (r: Vec<String>)
        ensures
            text::texts(r@) == seq!["network"@, "delete"@, self.name@],
    {
        let mut r: Vec<String> = Vec::new();
        text::push_text(&mut r, "network");
        text::push_text(&mut r, "delete");
        text::push_text(&mut r, self.name.as_str());
        assert(text::texts(r@) =~= seq!["network"@, "delete"@, self.name@]);
        r
    }

    /// What came of deleting the network.
    pub fn delete(&self, outcome: &Outcome) -> (r: Result<(), NpxcError>)
        ensures
            match outcome {
                Outcome::NotStarted(e) => r matches Err(NpxcError::RuntimeNotAvailable(m)) && m@
                    == command::not_started(self.container_cli@, e@),
                Outcome::Exited(code) => if outcome.ok() {
                    r is Ok
                } else {
                    r matches Err(NpxcError::Runtime(m)) && m@ == "failed to delete network '"@
                        + self.name@ + "' (exit code: "@ + command::debug_code(*code) + ")"@
                },
            },
    {
        match outcome {
            Outcome::NotStarted(e) => Err(
                command::spawn_error(self.container_cli.as_str(), e.as_str()),
            ),
            Outcome::Exited(code) => if outcome.success() {
                Ok(())
            } else {
                let s = text::cat("failed to delete network '", self.name.as_str());
                let s = text::cat(s.as_str(), "' (exit code: ");
                let s = text::cat(s.as_str(), command::code_text(*code).as_str());
                Err(NpxcError::Runtime(text::cat(s.as_str(), ")")))
            },
        }
    }
}

/// Whether a policy is provided for: no network and named networks by their name, an
/// allowlist by an isolated network with a fresh name.
pub open spec fn provides(r: Provision, policy: NetworkView) -> bool {
    match policy {
        NetworkView::NoNetwork => r matches Provision::Ready(s) && s@ == "none"@,
        NetworkView::Named(name) => r matches Provision::Ready(s) && s@ == name,
        NetworkView::Allowlist(_) => r matches Provision::Create(s) && is_fresh_name(s@),
    }
}

/// What follows an attempt at deleting a network.
pub open spec fn delete_step(attempt: u32, deleted: bool) -> DeleteStep {
    if deleted {
        DeleteStep::Done
    } else if attempt < DELETE_ATTEMPTS {
        DeleteStep::RetryAfter((150 * attempt) as u64)
    } else {
        DeleteStep::GiveUp
    }
}

/// A name made from a UUID.
pub open spec fn is_fresh_name(name: Seq<char>) -> bool {
    exists|uuid: Seq<char>| #[trigger]
        publish::is_uuid(uuid) && name == network_name_of(uuid)
}

/// The number of attempts at deleting a network.
pub const DELETE_ATTEMPTS: u32 = 5;

/// What follows an attempt at deleting a network.
#[derive(Clone, Copy, Debug, PartialEq, Eq, Structural)]
pub enum DeleteStep {
    /// The network is gone.
    Done,
    /// Wait so many milliseconds, then try again.
    RetryAfter(u64),
    /// Warn that the network is still there.
    GiveUp,
}

/// What follows the attempt `attempt`, counted from 1: each failure is followed by
/// a longer wait, up to the last. The runtime may report a network busy for a
/// moment after its container is gone.
pub fn delete_with_retry(attempt: u32, deleted: bool) -> (r: DeleteStep)
    ensures
        r == delete_step(attempt, deleted),
{
    if deleted {
        DeleteStep::Done
    } else if attempt < DELETE_ATTEMPTS {
        DeleteStep::RetryAfter(150 * (attempt as u64))
    } else {
        DeleteStep::GiveUp
    }
}

/// The arguments that create an isolated network.
pub fn create_args(name: &str) -> (r: Vec<String>)
    ensures
        text::texts(r@) == seq!["network"@, "create"@, "--internal"@, name@],
{
    let mut r: Vec<String> = Vec::new();
    text::push_text(&mut r, "network");
    text::push_text(&mut r, "create");
    text::push_text(&mut r, "--internal");
    text::push_text(&mut r, name);
    assert(text::texts(r@) =~= seq!["network"@, "create"@, "--internal"@, name@]);
    r
}

/// The arguments that inspect a network.
pub fn inspect_args(name: &str) -> (r: Vec<String>)
    ensures
        text::texts(r@) == seq!["network"@, "inspect"@, name@],
{
    let mut r: Vec<String> = Vec::new();
    text::push_text(&mut r, "network");
    text::push_text(&mut r, "inspect");
    text::push_text(&mut r, name);
    assert(text::texts(r@) =~= seq!["network"@, "inspect"@, name@]);
    r
}

/// What came of creating the network `name`.
pub fn created(container_cli: &str, name: &str, outcome: &Outcome, stderr: &[u8]) -> (r: Result<
    (),
    NpxcError,
>)
    ensures
        match outcome {
            Outcome::NotStarted(e) => r matches Err(NpxcError::RuntimeNotAvailable(m)) && m@
                == command::not_started(container_cli@, e@),
            Outcome::Exited(_) => if outcome.ok() {
                r is Ok
            } else {
                r matches Err(NpxcError::Runtime(m)) && m@ == command::failed_text(
                    container_cli@,
                    "network create --internal "@ + name@,
                    stderr@,
                )
            },
        },
{
    match outcome {
        Outcome::NotStarted(e) => Err(command::spawn_error(container_cli, e.as_str())),
        Outcome::Exited(_) => if outcome.success() {
            Ok(())
        } else {
            let what = text::cat("network create --internal ", name);
            Err(command::command_error(container_cli, what.as_str(), stderr))
        },
    }
}

/// The addresses of a network, as `network inspect` reports them.
#[derive(Debug)]
pub struct NetworkInspectStatus {
    pub ipv4_subnet: String,
    pub ipv4_gateway: String,
}

/// One record of `network inspect`.
#[derive(Debug)]
pub struct NetworkInspect {
    pub status: NetworkInspectStatus,
}

/// What the output of `network inspect` comes to, once it was read as records or
/// could not be: the subnet and gateway of its first record.
pub open spec fn is_inspection(
    r: Result<(String, String), NpxcError>,
    items: Result<Vec<NetworkInspect>, String>,
) -> bool {
    match items {
        Err(t) => r matches Err(NpxcError::Json(m)) && m@ == t@,
        Ok(records) => if records@.len() == 0 {
            r matches Err(NpxcError::Runtime(m)) && m@ == "empty `network inspect` output"@
        } else {
            r matches Ok((subnet, gateway)) && subnet@ == records@[0].status.ipv4_subnet@
                && gateway@ == records@[0].status.ipv4_gateway@
        },
    }
}

/// The subnet and gateway that `network inspect` printed, given its output read as
/// records, or the text of the error.
pub fn parse_inspect(items: &Result<Vec<NetworkInspect>, String>) -> (r: Result<
    (String, String),
    NpxcError,
>)
    ensures
        is_inspection(r, *items),
{
    match items {
        Err(m) => Err(NpxcError::Json(m.clone())),
        Ok(records) => if records.len() == 0 {
            Err(NpxcError::Runtime("empty `network inspect` output".to_owned()))
        } else {
            let status = &records[0].status;
            Ok((status.ipv4_subnet.clone(), status.ipv4_gateway.clone()))
        },
    }
}

/// What came of inspecting the network `name`: its subnet and gateway.
pub fn inspected(
    container_cli: &str,
    name: &str,
    outcome: &Outcome,
    items: &Result<Vec<NetworkInspect>, String>,
    stderr: &[u8],
) -> (r: Result<(String, String), NpxcError>)
    ensures
        match outcome {
            Outcome::NotStarted(e) => r matches Err(NpxcError::RuntimeNotAvailable(m)) && m@
                == command::not_started(container_cli@, e@),
            Outcome::Exited(_) => if outcome.ok() {
                is_inspection(r, *items)
            } else {
                r matches Err(NpxcError::Runtime(m)) && m@ == command::failed_text(
                    container_cli@,
                    "network inspect "@ + name@,
                    stderr@,
                )
            },
        },
{
    match outcome {
        Outcome::NotStarted(e) => Err(command::spawn_error(container_cli, e.as_str())),
        Outcome::Exited(_) => if outcome.success() {
            parse_inspect(items)
        } else {
            let what = text::cat("network inspect ", name);
            Err(command::command_error(container_cli, what.as_str(), stderr))
        },
    }
}

/// What becomes of a network that was created.
#[derive(Debug)]
pub enum NetworkSetup {
    /// The session can use it.
    Ready(ManagedNetwork),
    /// Delete it and report the error: a network whose addresses are not known must
    /// not be left behind.
    Discard(ManagedNetwork, NpxcError),
}

/// What becomes of the network `name` once it was created and inspected.
pub fn settle_network(
    container_cli: &str,
    name: String,
    inspection: Result<(String, String), NpxcError>,
) -> (r: NetworkSetup)
    ensures
        match inspection {
            Ok((subnet, gateway)) => r matches NetworkSetup::Ready(n) && n.name == name
                && n.container_cli@ == container_cli@ && n.subnet == subnet && n.gateway == gateway,
            Err(e) => r matches NetworkSetup::Discard(n, error) && n.name == name
                && n.container_cli@ == container_cli@ && error == e,
        },
{
    match inspection {
        Ok((subnet, gateway)) => NetworkSetup::Ready(
            ManagedNetwork { name, container_cli: container_cli.to_owned(), subnet, gateway },
        ),
        Err(e) => NetworkSetup::Discard(
            ManagedNetwork {
                name,
                container_cli: container_cli.to_owned(),
                subnet: String::new(),
                gateway: String::new(),
            },
            e,
        ),
    }
}

// ---------------------------------------------------------------------------
// Laws
// ---------------------------------------------------------------------------

proof fn undashed_digits(uuid: Seq<char>, k: nat)
    requires
        publish::is_uuid(uuid),
        k <= 36,
    ensures
        forall|i: int|
            0 <= i < undashed(uuid, k).len() ==> publish::is_hex(#[trigger] undashed(uuid, k)[i]),
        undashed(uuid, k).len() == k - (if k > 8 {
            1int
        } else {
            0
        }) - (if k > 13 {
            1int
        } else {
            0
        }) - (if k > 18 {
            1int
        } else {
            0
        }) - (if k > 23 {
            1int
        } else {
            0
        }),
    decreases k,
{
    if k > 0 {
        undashed_digits(uuid, (k - 1) as nat);
        let i = k - 1;
        if i == 8 || i == 13 || i == 18 || i == 23 {
            assert(uuid[i] == '-');
        } else {
            assert(publish::is_hex(uuid[i]));
        }
    }
}

/// The name of an isolated network is `npxc-` and 32 hexadecimal digits.
pub proof fn network_names_are_plain(name: Seq<char>)
    requires
        is_fresh_name(name),
    ensures
        "npxc-"@.is_prefix_of(name),
        name.len() == 37,
        forall|i: int| 5 <= i < 37 ==> publish::is_hex(#[trigger] name[i]),
{
    reveal_strlit("npxc-");
    let uuid = choose|uuid: Seq<char>| #[trigger]
        publish::is_uuid(uuid) && name == network_name_of(uuid);
    undashed_digits(uuid, 36);
    assert(name.subrange(0, 5) =~= "npxc-"@);
    assert forall|i: int| 5 <= i < 37 implies publish::is_hex(#[trigger] name[i]) by {
        assert(name[i] == undashed(uuid, 36)[i - 5]);
    }
}

proof fn undashed_tells_apart(a: Seq<char>, b: Seq<char>, k: nat)
    requires
        publish::is_uuid(a),
        publish::is_uuid(b),
        k <= 36,
        undashed(a, k) == undashed(b, k),
    ensures
        forall|i: int| 0 <= i < k ==> a[i] == b[i],
    decreases k,
{
    if k > 0 {
        let i = k - 1;
        let (x, y) = (undashed(a, i as nat), undashed(b, i as nat));
        if i == 8 || i == 13 || i == 18 || i == 23 {
            assert(a[i] == '-' && b[i] == '-');
        } else {
            assert(publish::is_hex(a[i]) && publish::is_hex(b[i]));
            assert(x.push(a[i]).last() == a[i] && y.push(b[i]).last() == b[i]);
            assert(x.push(a[i]).drop_last() =~= x && y.push(b[i]).drop_last() =~= y);
        }
        undashed_tells_apart(a, b, i as nat);
    }
}

/// Different UUIDs give networks different names: no digit is lost.
pub proof fn network_names_tell_sessions_apart(a: Seq<char>, b: Seq<char>)
    requires
        publish::is_uuid(a),
        publish::is_uuid(b),
        network_name_of(a) == network_name_of(b),
    ensures
        a == b,
{
    let (x, y) = (undashed(a, 36), undashed(b, 36));
    let n = "npxc-"@.len() as int;
    assert(network_name_of(a).skip(n) =~= x);
    assert(network_name_of(b).skip(n) =~= y);
    undashed_tells_apart(a, b, 36);
    assert(a =~= b);
}

/// A network is tried to be deleted five times before it is given up, with a longer wait
/// after each failure.
pub proof fn networks_are_deleted_in_five_attempts(attempt: u32)
    ensures
        delete_step(attempt, true) == DeleteStep::Done,
        delete_step(1, false) == DeleteStep::RetryAfter(150),
        1 <= attempt < 4 ==> (delete_step(attempt, false) matches DeleteStep::RetryAfter(a) && (
        delete_step((attempt + 1) as u32, false) matches DeleteStep::RetryAfter(b) && b == a
            + 150)),
        attempt >= 5 ==> delete_step(attempt, false) == DeleteStep::GiveUp,
{
}

/// Only an allowlist takes a network of its own, whose name no other network has that
/// was not made for a session; without a network the container gets none, and a named
/// network is used under its name.
pub proof fn networks_are_provided_as_asked(r: Provision, policy: NetworkView)
    requires
        provides(r, policy),
    ensures
        r is Create <==> policy is Allowlist,
        r matches Provision::Create(s) ==> s@.len() == 37 && s@.take(5) == "npxc-"@,
        policy is NoNetwork ==> r->Ready_0@ == "none"@,
        policy matches NetworkView::Named(name) ==> r->Ready_0@ == name,
{
    if let Provision::Create(s) = r {
        network_names_are_plain(s@);
        reveal_strlit("npxc-");
        assert(s@.take(5) =~= s@.subrange(0, 5));
    }
}

/// A network's addresses are those of the first record about it; output that cannot be
/// read, or holds no record, gives none.
pub proof fn the_first_record_counts(
    r: Result<(String, String), NpxcError>,
    items: Result<Vec<NetworkInspect>, String>,
)
    requires
        is_inspection(r, items),
    ensures
        r is Ok <==> items is Ok && (items->Ok_0)@.len() > 0,
        r is Ok ==> (r->Ok_0).0@ == (items->Ok_0)@[0].status.ipv4_subnet@ && (r->Ok_0).1@ == (
        items->Ok_0)@[0].status.ipv4_gateway@,
        items is Err ==> (r matches Err(NpxcError::Json(m)) && m@ == (items->Err_0)@),
{
}

} // verus!
