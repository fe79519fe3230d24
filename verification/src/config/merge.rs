//! Combining the global settings with those of a package.
use vstd::prelude::*;

use super::global::{Defaults, NpxcConfig};
use super::package;
use super::package::{MountConfig, PackageConfig, StorageConfig};
use crate::table::Table;
use crate::text;

verus! {

/// Resolved network policy for a single invocation.
#[derive(Debug, PartialEq, Eq)]
pub enum NetworkPolicy {
    /// No network interface (`--network none`).
    NoNetwork,
    /// A named container network passed to `--network` verbatim.
    Named(String),
    /// A per-session isolated host-only network with an egress allowlist.
    Allowlist { allow: Vec<String> },
}

/// The model of [`NetworkPolicy`].
pub ghost enum NetworkView {
    NoNetwork,
    Named(Seq<char>),
    Allowlist(Seq<Seq<char>>),
}

impl NetworkPolicy {
    pub open spec fn view(&self) -> NetworkView {
        match self {
            NetworkPolicy::NoNetwork => NetworkView::NoNetwork,
            NetworkPolicy::Named(name) => NetworkView::Named(name@),
            NetworkPolicy::Allowlist { allow } => NetworkView::Allowlist(text::texts(allow@)),
        }
    }

    /// How the policy is shown.
    pub fn to_string(&self) -> (s: String)
        ensures
            s@ == network_text(self@),
    {
        match self {
            NetworkPolicy::NoNetwork => "none".to_owned(),
            NetworkPolicy::Named(name) => name.clone(),
            NetworkPolicy::Allowlist { allow } => {
                let s = text::cat("allowlist (", text::decimal_of(allow.len() as u64).as_str());
                text::cat(s.as_str(), " rule(s))")
            },
        }
    }

    /// Whether the policy is neither `none` nor `bridge`, which is worth a warning:
    /// a misspelled `none` would silently give up the isolation that was meant.
    pub fn is_unusual(&self) -> (r: bool)
        ensures
            r == (network_text(self@) != "none"@ && network_text(self@) != "bridge"@),
    {
        let shown = self.to_string();
        !text::str_eq(shown.as_str(), "none") && !text::str_eq(shown.as_str(), "bridge")
    }
}

/// How a policy is shown.
pub open spec fn network_text(p: NetworkView) -> Seq<char> {
    match p {
        NetworkView::NoNetwork => "none"@,
        NetworkView::Named(name) => name,
        NetworkView::Allowlist(allow) => "allowlist ("@ + text::decimal(allow.len())
            + " rule(s))"@,
    }
}

/// The fully resolved configuration for a single invocation.
#[derive(Debug)]
pub struct EffectiveConfig {
    pub node_image: String,
    pub container_cli: String,
    pub network: NetworkPolicy,
    pub memory: String,
    pub cpus: String,
    pub mount_mode: String,
    pub log_level: String,
    pub strategies: Vec<String>,
    pub heuristic_absolute_prefix: bool,
    pub heuristic_home_prefix: bool,
    pub heuristic_uri_prefix: Vec<String>,
    /// Pinned version from the package settings.
    pub version: Option<String>,
    /// The arguments to treat as paths, by tool name.
    pub path_arguments: Table<Vec<String>>,
    /// The arguments never to treat as paths, by tool name.
    pub non_path_arguments: Table<Vec<String>>,
    /// Literal environment variables for the container.
    pub env: Table<String>,
    /// Names of environment variables to forward into the container.
    pub env_passthrough: Vec<String>,
    /// Persistent and writable storage.
    pub storage: Option<StorageConfig>,
    /// Extra mounts.
    pub mounts: Vec<MountConfig>,
}

/// An override, or what it overrides.
pub open spec fn override_or(o: Option<Seq<char>>, base: Seq<char>) -> Seq<char> {
    match o {
        Some(s) => s,
        None => base,
    }
}

/// The memory that a package asks for.
pub open spec fn memory_override(pkg: Option<&PackageConfig>) -> Option<Seq<char>> {
    match pkg {
        Some(p) => match p.runtime {
            Some(rt) => text::opt(rt.memory),
            None => None,
        },
        None => None,
    }
}

/// The processors that a package asks for.
pub open spec fn cpus_override(pkg: Option<&PackageConfig>) -> Option<Seq<char>> {
    match pkg {
        Some(p) => match p.runtime {
            Some(rt) => text::opt(rt.cpus),
            None => None,
        },
        None => None,
    }
}

/// The network that a package names among its resource overrides.
pub open spec fn network_override(pkg: Option<&PackageConfig>) -> Option<Seq<char>> {
    match pkg {
        Some(p) => match p.runtime {
            Some(rt) => text::opt(rt.network),
            None => None,
        },
        None => None,
    }
}

/// The policy that a `network` string stands for.
pub open spec fn named_network(name: Seq<char>) -> NetworkView {
    if name == "none"@ {
        NetworkView::NoNetwork
    } else {
        NetworkView::Named(name)
    }
}

/// The policy that a network table stands for.
pub open spec fn table_network(mode: Seq<char>, allow: Seq<Seq<char>>) -> NetworkView {
    if mode == "allowlist"@ {
        NetworkView::Allowlist(allow)
    } else if mode == "open"@ {
        NetworkView::Named("default"@)
    } else {
        named_network(mode)
    }
}

/// The policy of a package: its network table where it has one, else the network
/// among its overrides, else the global default.
pub open spec fn resolved_network(pkg: Option<&PackageConfig>, default: Seq<char>) -> NetworkView {
    match pkg {
        Some(p) => match p.network {
            Some(nc) => table_network(nc.mode@, text::texts(nc.allow@)),
            None => named_network(override_or(network_override(pkg), default)),
        },
        None => named_network(default),
    }
}

/// The fields that come from the package settings alone, empty without them.
pub open spec fn package_fields(r: EffectiveConfig, pkg: Option<&PackageConfig>) -> bool {
    match pkg {
        Some(p) => {
            &&& text::opt(r.version) == text::opt(p.version)
            &&& package::list_entries(r.path_arguments) == package::list_entries(p.path_arguments)
            &&& package::list_entries(r.non_path_arguments) == package::list_entries(
                p.non_path_arguments,
            )
            &&& package::text_entries(r.env) == package::text_entries(p.env)
            &&& text::texts(r.env_passthrough@) == text::texts(p.env_passthrough@)
            &&& package::opt_storage(r.storage) == package::opt_storage(p.storage)
            &&& package::mount_views(r.mounts@) == package::mount_views(p.mounts@)
        },
        None => {
            &&& r.version is None
            &&& r.path_arguments.order().len() == 0
            &&& r.non_path_arguments.order().len() == 0
            &&& r.env.order().len() == 0
            &&& r.env_passthrough@.len() == 0
            &&& r.storage is None
            &&& r.mounts@.len() == 0
        },
    }
}

/// The fields that come from the global settings alone.
pub open spec fn global_fields(r: EffectiveConfig, global: NpxcConfig) -> bool {
    &&& r.node_image@ == global.defaults.node_image@
    &&& r.container_cli@ == global.defaults.container_cli@
    &&& r.mount_mode@ == global.defaults.mount_mode@
    &&& r.log_level@ == global.defaults.log_level@
    &&& text::texts(r.strategies@) == text::texts(global.paths.strategies@)
    &&& r.heuristic_absolute_prefix == global.paths.heuristic.absolute_prefix
    &&& r.heuristic_home_prefix == global.paths.heuristic.home_prefix
    &&& text::texts(r.heuristic_uri_prefix@) == text::texts(global.paths.heuristic.uri_prefix@)
}

/// What the combined settings are.
pub open spec fn is_merge(
    r: EffectiveConfig,
    global: NpxcConfig,
    pkg: Option<&PackageConfig>,
) -> bool {
    &&& global_fields(r, global)
    &&& package_fields(r, pkg)
    &&& r.memory@ == override_or(memory_override(pkg), global.defaults.memory@)
    &&& r.cpus@ == override_or(cpus_override(pkg), global.defaults.cpus@)
    &&& r.network@ == resolved_network(pkg, global.defaults.network@)
}

/// An optional text, or the default.
fn or_default(o: &Option<String>, base: &String) -> (r: String)
    ensures
        r@ == override_or(text::opt(*o), base@),
{
    match o {
        Some(s) => s.clone(),
        None => base.clone(),
    }
}

/// The policy that a `network` string stands for.
fn policy_named(name: &str) -> (r: NetworkPolicy)
    ensures
        r@ == named_network(name@),
{
    if text::str_eq(name, "none") {
        NetworkPolicy::NoNetwork
    } else {
        NetworkPolicy::Named(name.to_owned())
    }
}

/// Resolves the network policy.
fn resolve_network_policy(pkg: Option<&PackageConfig>, d: &Defaults) -> (r: NetworkPolicy)
    ensures
        r@ == resolved_network(pkg, d.network@),
{
    match pkg {
        Some(p) => {
            match &p.network {
                Some(nc) => {
                    if text::str_eq(nc.mode.as_str(), "allowlist") {
                        NetworkPolicy::Allowlist { allow: text::copy_list(&nc.allow) }
                    } else if text::str_eq(nc.mode.as_str(), "open") {
                        NetworkPolicy::Named("default".to_owned())
                    } else {
                        policy_named(nc.mode.as_str())
                    }
                },
                None => {
                    let legacy = match &p.runtime {
                        Some(rt) => or_default(&rt.network, &d.network),
                        None => d.network.clone(),
                    };
                    policy_named(legacy.as_str())
                },
            }
        },
        None => policy_named(d.network.as_str()),
    }
}

/// Combines the global settings with those of a package. A resource override of
/// the package wins over the global default.
#[must_use]
pub fn merge(global: &NpxcConfig, pkg: Option<&PackageConfig>) -> (r: EffectiveConfig)
    ensures
        is_merge(r, *global, pkg),
        pkg matches Some(p) ==> (p.network matches Some(nc) ==> match r.network {
            NetworkPolicy::NoNetwork => nc.mode@ == "none"@,
            NetworkPolicy::Named(n) => nc.mode@ != "none"@ && nc.mode@ != "allowlist"@ && n@ == (
            if nc.mode@ == "open"@ {
                "default"@
            } else {
                nc.mode@
            }),
            NetworkPolicy::Allowlist { allow } => nc.mode@ == "allowlist"@ && text::texts(allow@)
                == text::texts(nc.allow@),
        }),
{
    let d = &global.defaults;
    let p = &global.paths;
    let (memory, cpus) = match pkg {
        Some(c) => match &c.runtime {
            Some(rt) => (or_default(&rt.memory, &d.memory), or_default(&rt.cpus, &d.cpus)),
            None => (d.memory.clone(), d.cpus.clone()),
        },
        None => (d.memory.clone(), d.cpus.clone()),
    };
    let network = resolve_network_policy(pkg, d);
    proof {
        reveal_strlit("none");
        reveal_strlit("open");
        reveal_strlit("allowlist");
        assert("none"@[0] == 'n' && "open"@[0] == 'o' && "allowlist"@[0] == 'a');
    }
    let node_image = d.node_image.clone();
    let container_cli = d.container_cli.clone();
    let mount_mode = d.mount_mode.clone();
    let log_level = d.log_level.clone();
    let strategies = text::copy_list(&p.strategies);
    let heuristic_uri_prefix = text::copy_list(&p.heuristic.uri_prefix);
    match pkg {
        Some(c) => EffectiveConfig {
            node_image,
            container_cli,
            network,
            memory,
            cpus,
            mount_mode,
            log_level,
            strategies,
            heuristic_absolute_prefix: p.heuristic.absolute_prefix,
            heuristic_home_prefix: p.heuristic.home_prefix,
            heuristic_uri_prefix,
            version: text::copy_opt(&c.version),
            path_arguments: package::copy_lists(&c.path_arguments),
            non_path_arguments: package::copy_lists(&c.non_path_arguments),
            env: package::copy_texts(&c.env),
            env_passthrough: text::copy_list(&c.env_passthrough),
            storage: match &c.storage {
                Some(s) => Some(s.clone()),
                None => None,
            },
            mounts: package::copy_mounts(&c.mounts),
        },
        None => EffectiveConfig {
            node_image,
            container_cli,
            network,
            memory,
            cpus,
            mount_mode,
            log_level,
            strategies,
            heuristic_absolute_prefix: p.heuristic.absolute_prefix,
            heuristic_home_prefix: p.heuristic.home_prefix,
            heuristic_uri_prefix,
            version: None,
            path_arguments: Table::new(),
            non_path_arguments: Table::new(),
            env: Table::new(),
            env_passthrough: Vec::new(),
            storage: None,
            mounts: Vec::new(),
        },
    }
}

/// Without package settings, every resource field is the global default.
pub proof fn merge_without_package_is_global(r: EffectiveConfig, global: NpxcConfig)
    requires
        is_merge(r, global, None),
    ensures
        r.memory@ == global.defaults.memory@,
        r.cpus@ == global.defaults.cpus@,
        r.network@ == named_network(global.defaults.network@),
{
}

/// A network table decides the network alone: neither an override nor the global
/// default makes a difference.
pub proof fn network_table_is_authoritative(
    a: EffectiveConfig,
    b: EffectiveConfig,
    global_a: NpxcConfig,
    global_b: NpxcConfig,
    p: &PackageConfig,
    q: &PackageConfig,
)
    requires
        p.network is Some,
        q.network is Some,
        p.network->0.mode@ == q.network->0.mode@,
        text::texts(p.network->0.allow@) == text::texts(q.network->0.allow@),
        is_merge(a, global_a, Some(p)),
        is_merge(b, global_b, Some(q)),
    ensures
        a.network@ == b.network@,
{
}

/// The network is filtered by an allowlist only where the package's network table
/// asks for it.
pub proof fn allowlist_needs_a_table(
    r: EffectiveConfig,
    global: NpxcConfig,
    pkg: Option<&PackageConfig>,
)
    requires
        is_merge(r, global, pkg),
        r.network@ is Allowlist,
    ensures
        pkg is Some,
        pkg->0.network is Some,
        pkg->0.network->0.mode@ == "allowlist"@,
        r.network@->Allowlist_0 == text::texts(pkg->0.network->0.allow@),
{
}

/// The mode of a package's network table decides the merged network, whatever the
/// global settings and the other overrides are: `none` means no network, `open` the
/// default network, `allowlist` the entries of the table, and any other mode is the
/// name of a network.
pub proof fn network_modes_mean_what_they_say(
    r: EffectiveConfig,
    global: NpxcConfig,
    p: &PackageConfig,
)
    requires
        is_merge(r, global, Some(p)),
        p.network is Some,
    ensures
        p.network->0.mode@ == "none"@ ==> r.network is NoNetwork,
        p.network->0.mode@ == "open"@ ==> (r.network matches NetworkPolicy::Named(n) && n@
            == "default"@),
        p.network->0.mode@ == "allowlist"@ ==> (r.network matches NetworkPolicy::Allowlist {
            allow,
        } && allow@.len() == p.network->0.allow@.len() && forall|i: int|
            0 <= i < allow@.len() ==> (#[trigger] allow@[i])@ == p.network->0.allow@[i]@),
        p.network->0.mode@ != "none"@ && p.network->0.mode@ != "open"@ && p.network->0.mode@
            != "allowlist"@ ==> (r.network matches NetworkPolicy::Named(n) && n@
            == p.network->0.mode@),
{
    reveal_strlit("none");
    reveal_strlit("open");
    reveal_strlit("allowlist");
    assert("none"@[0] == 'n' && "open"@[0] == 'o' && "allowlist"@[0] == 'a');
    if p.network->0.mode@ == "allowlist"@ {
        let allow = r.network->allow;
        assert(text::texts(allow@) == text::texts(p.network->0.allow@));
        assert forall|i: int| 0 <= i < allow@.len() implies (#[trigger] allow@[i])@
            == p.network->0.allow@[i]@ by {
            assert(text::texts(allow@)[i] == text::texts(p.network->0.allow@)[i]);
        }
    }
}

/// Without a network table the network that the package names among its overrides
/// is taken, and without that the global one; `none` means no network, any other text
/// is the name of one.
pub proof fn network_names_mean_what_they_say(
    r: EffectiveConfig,
    global: NpxcConfig,
    pkg: Option<&PackageConfig>,
    name: Seq<char>,
)
    requires
        is_merge(r, global, pkg),
        pkg matches Some(p) ==> p.network is None,
        name == (if pkg is Some && pkg->0.runtime is Some && pkg->0.runtime->0.network is Some {
            pkg->0.runtime->0.network->0@
        } else {
            global.defaults.network@
        }),
    ensures
        name == "none"@ ==> r.network is NoNetwork,
        name != "none"@ ==> (r.network matches NetworkPolicy::Named(n) && n@ == name),
{
}

/// Memory and processors come from the package where it states them, each on its own,
/// else from the global settings.
pub proof fn resource_overrides_win(
    r: EffectiveConfig,
    global: NpxcConfig,
    pkg: Option<&PackageConfig>,
)
    requires
        is_merge(r, global, pkg),
    ensures
        pkg matches Some(p) ==> (p.runtime matches Some(rt) ==> (rt.memory matches Some(m)
            ==> r.memory@ == m@)),
        pkg matches Some(p) ==> (p.runtime matches Some(rt) ==> (rt.cpus matches Some(c)
            ==> r.cpus@ == c@)),
        pkg is None || pkg->0.runtime is None || pkg->0.runtime->0.memory is None ==> r.memory@
            == global.defaults.memory@,
        pkg is None || pkg->0.runtime is None || pkg->0.runtime->0.cpus is None ==> r.cpus@
            == global.defaults.cpus@,
{
}

/// What a package cannot override is the global setting, field by field.
pub proof fn global_settings_are_kept(
    r: EffectiveConfig,
    global: NpxcConfig,
    pkg: Option<&PackageConfig>,
)
    requires
        is_merge(r, global, pkg),
    ensures
        r.node_image@ == global.defaults.node_image@,
        r.container_cli@ == global.defaults.container_cli@,
        r.mount_mode@ == global.defaults.mount_mode@,
        r.log_level@ == global.defaults.log_level@,
        r.heuristic_absolute_prefix == global.paths.heuristic.absolute_prefix,
        r.heuristic_home_prefix == global.paths.heuristic.home_prefix,
        r.strategies@.len() == global.paths.strategies@.len(),
        forall|i: int|
            0 <= i < r.strategies@.len() ==> (#[trigger] r.strategies@[i])@
                == global.paths.strategies@[i]@,
        r.heuristic_uri_prefix@.len() == global.paths.heuristic.uri_prefix@.len(),
        forall|i: int|
            0 <= i < r.heuristic_uri_prefix@.len() ==> (#[trigger] r.heuristic_uri_prefix@[i])@
                == global.paths.heuristic.uri_prefix@[i]@,
{
    text::same_texts(r.strategies@, global.paths.strategies@);
    text::same_texts(r.heuristic_uri_prefix@, global.paths.heuristic.uri_prefix@);
}

/// What only a package sets is as the package sets it: nothing is added to it and
/// nothing is left out; without package settings there is none of it.
pub proof fn package_settings_are_kept(
    r: EffectiveConfig,
    global: NpxcConfig,
    pkg: Option<&PackageConfig>,
)
    requires
        is_merge(r, global, pkg),
    ensures
        match pkg {
            Some(p) => {
                &&& r.version is Some == p.version is Some
                &&& p.version matches Some(v) ==> r.version->0@ == v@
                &&& r.env_passthrough@.len() == p.env_passthrough@.len()
                &&& forall|i: int|
                    0 <= i < r.env_passthrough@.len() ==> (#[trigger] r.env_passthrough@[i])@
                        == p.env_passthrough@[i]@
                &&& r.env.order().len() == p.env.order().len()
                &&& forall|i: int|
                    0 <= i < r.env.order().len() ==> (#[trigger] r.env.order()[i]).0
                        == p.env.order()[i].0 && r.env.order()[i].1@ == p.env.order()[i].1@
                &&& r.storage is Some == p.storage is Some
                &&& p.storage matches Some(s) ==> r.storage->0.persist == s.persist
                    && r.storage->0.writable@.len() == s.writable@.len() && forall|i: int|
                    0 <= i < s.writable@.len() ==> (#[trigger] r.storage->0.writable@[i])@
                        == s.writable@[i]@
                &&& r.mounts@.len() == p.mounts@.len()
                &&& forall|i: int|
                    0 <= i < r.mounts@.len() ==> (#[trigger] r.mounts@[i]).host@
                        == p.mounts@[i].host@ && r.mounts@[i].container@
                        == p.mounts@[i].container@ && r.mounts@[i].mode@ == p.mounts@[i].mode@
            },
            None => r.version is None && r.env.order().len() == 0 && r.env_passthrough@.len() == 0
                && r.storage is None && r.mounts@.len() == 0 && r.path_arguments.order().len() == 0
                && r.non_path_arguments.order().len() == 0,
        },
{
    if let Some(p) = pkg {
        text::same_texts(r.env_passthrough@, p.env_passthrough@);
        let (a, b) = (package::text_entries(r.env), package::text_entries(p.env));
        assert(a.len() == b.len());
        assert forall|i: int| 0 <= i < r.env.order().len() implies (#[trigger] r.env.order()[i]).0
            == p.env.order()[i].0 && r.env.order()[i].1@ == p.env.order()[i].1@ by {
            assert(a[i] == b[i]);
        }
        if let Some(s) = p.storage {
            let t = r.storage->0;
            assert(t@ == s@);
            text::same_texts(t.writable@, s.writable@);
        }
        let (c, d) = (package::mount_views(r.mounts@), package::mount_views(p.mounts@));
        assert(c.len() == d.len());
        assert forall|i: int| 0 <= i < r.mounts@.len() implies (#[trigger] r.mounts@[i]).host@
            == p.mounts@[i].host@ && r.mounts@[i].container@ == p.mounts@[i].container@
            && r.mounts@[i].mode@ == p.mounts@[i].mode@ by {
            assert(c[i] == d[i]);
        }
    }
}

/// The arguments that are to be treated as paths, and those that are not, are listed
/// for each tool as the package lists them.
pub proof fn listed_arguments_are_kept(
    r: EffectiveConfig,
    global: NpxcConfig,
    p: &PackageConfig,
)
    requires
        is_merge(r, global, Some(p)),
    ensures
        r.path_arguments.order().len() == p.path_arguments.order().len(),
        forall|i: int|
            0 <= i < p.path_arguments.order().len() ==> (#[trigger] r.path_arguments.order()[i]).0
                == p.path_arguments.order()[i].0 && text::texts(r.path_arguments.order()[i].1@)
                == text::texts(p.path_arguments.order()[i].1@),
        r.non_path_arguments.order().len() == p.non_path_arguments.order().len(),
        forall|i: int|
            0 <= i < p.non_path_arguments.order().len() ==> (
            #[trigger] r.non_path_arguments.order()[i]).0 == p.non_path_arguments.order()[i].0
                && text::texts(r.non_path_arguments.order()[i].1@) == text::texts(
                p.non_path_arguments.order()[i].1@,
            ),
{
    let (a, b) = (package::list_entries(r.path_arguments), package::list_entries(p.path_arguments));
    let (c, d) = (
        package::list_entries(r.non_path_arguments),
        package::list_entries(p.non_path_arguments),
    );
    assert(a.len() == b.len() && c.len() == d.len());
    assert forall|i: int| 0 <= i < p.path_arguments.order().len() implies (
    #[trigger] r.path_arguments.order()[i]).0 == p.path_arguments.order()[i].0 && text::texts(
        r.path_arguments.order()[i].1@,
    ) == text::texts(p.path_arguments.order()[i].1@) by {
        assert(a[i] == b[i]);
    }
    assert forall|i: int| 0 <= i < p.non_path_arguments.order().len() implies (
    #[trigger] r.non_path_arguments.order()[i]).0 == p.non_path_arguments.order()[i].0
        && text::texts(r.non_path_arguments.order()[i].1@) == text::texts(
        p.non_path_arguments.order()[i].1@,
    ) by {
        assert(c[i] == d[i]);
    }
}

} // verus!
