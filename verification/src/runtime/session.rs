//! What a container is launched with.
use vstd::prelude::*;
use vstd::utf8::*;

use crate::config::merge::EffectiveConfig;
use crate::config::names;
use crate::config::package;
use crate::config::package::MountConfig;
use crate::error::NpxcError;
use crate::paths::host;
use crate::paths::host::HostPath;
use crate::paths::validate;
use crate::rpc::message;
use crate::text;

verus! {

// ---------------------------------------------------------------------------
// Mounts
// ---------------------------------------------------------------------------

/// Whether a mount is read-only or read-write.
#[derive(Clone, Copy, Debug, PartialEq, Eq, Structural)]
pub enum MountMode {
    Ro,
    Rw,
}

/// The text of a mount mode.
pub open spec fn mode_text(mode: MountMode) -> Seq<char> {
    match mode {
        MountMode::Ro => "ro"@,
        MountMode::Rw => "rw"@,
    }
}

impl MountMode {
    /// The text of the mode.
    #[must_use]
    pub fn as_str(self) -> (r: &'static str)
        ensures
            r@ == mode_text(self),
    {
        match self {
            MountMode::Ro => "ro",
            MountMode::Rw => "rw",
        }
    }

    /// The mode that a setting means: `"rw"` is read-write, anything else
    /// read-only.
    #[must_use]
    pub fn from_config_str(s: &str) -> (r: MountMode)
        ensures
            r == mode_of(s@),
    {
        if text::str_eq(s, "rw") {
            MountMode::Rw
        } else {
            MountMode::Ro
        }
    }
}

/// The mode that a setting means.
pub open spec fn mode_of(s: Seq<char>) -> MountMode {
    if s == "rw"@ {
        MountMode::Rw
    } else {
        MountMode::Ro
    }
}

/// A bind-mount of a host path into the container.
#[derive(Debug)]
pub struct Mount {
    /// Absolute host path.
    pub host: HostPath,
    /// Absolute container path.
    pub container: String,
    pub mode: MountMode,
}

/// The model of [`Mount`].
pub ghost struct MountView {
    pub host: Seq<u8>,
    pub container: Seq<char>,
    pub mode: MountMode,
}

impl Mount {
    pub open spec fn view(&self) -> MountView {
        MountView { host: self.host@, container: self.container@, mode: self.mode }
    }
}

pub open spec fn mount_views(v: Seq<Mount>) -> Seq<MountView> {
    v.map_values(|m: Mount| m@)
}

/// The volume argument of a mount.
pub open spec fn mount_text(m: MountView) -> Seq<char> {
    text::lossy_text(m.host) + ":"@ + m.container + ":"@ + mode_text(m.mode)
}

// ---------------------------------------------------------------------------
// Launch plans
// ---------------------------------------------------------------------------

/// The variable parts of a container launch.
#[derive(Debug)]
pub struct LaunchPlan {
    /// Mounts beyond the session workspace.
    pub mounts: Vec<Mount>,
    /// Environment variables with their values.
    pub env_literal: Vec<(String, String)>,
    /// Names of environment variables whose values the container inherits.
    pub env_passthrough: Vec<String>,
    /// Capabilities to add to none.
    pub cap_add: Vec<String>,
    /// Arguments for the package, after the image tag.
    pub args: Vec<String>,
}

/// The model of [`LaunchPlan`].
pub ghost struct PlanView {
    pub mounts: Seq<MountView>,
    pub env_literal: Seq<(Seq<char>, Seq<char>)>,
    pub env_passthrough: Seq<Seq<char>>,
    pub cap_add: Seq<Seq<char>>,
    pub args: Seq<Seq<char>>,
}

impl LaunchPlan {
    pub open spec fn view(&self) -> PlanView {
        PlanView {
            mounts: mount_views(self.mounts@),
            env_literal: message::pair_views(self.env_literal@),
            env_passthrough: text::texts(self.env_passthrough@),
            cap_add: text::texts(self.cap_add@),
            args: text::texts(self.args@),
        }
    }
}

impl Default for LaunchPlan {
    fn default() -> (r: Self)
        ensures
            r.mounts@.len() == 0,
            r.env_literal@.len() == 0,
            r.env_passthrough@.len() == 0,
            r.cap_add@.len() == 0,
            r.args@.len() == 0,
    {
        LaunchPlan {
            mounts: Vec::new(),
            env_literal: Vec::new(),
            env_passthrough: Vec::new(),
            cap_add: Vec::new(),
            args: Vec::new(),
        }
    }
}

/// The host path of a declared mount, to be held to the working directory: seen
/// from there if it is relative. Where that is not UTF-8 the path as declared.
pub open spec fn declared_host(host_text: Seq<char>, cwd: Seq<u8>) -> Seq<char> {
    let p = encode_utf8(host_text);
    let abs = if host::is_absolute_path(p) {
        p
    } else {
        host::joined(cwd, p)
    };
    if valid_utf8(abs) {
        decode_utf8(abs)
    } else {
        host_text
    }
}

/// The host path of a declared mount, to be held to the working directory.
pub fn mount_request(mc: &MountConfig, cwd: &HostPath) -> (r: String)
    ensures
        r@ == declared_host(mc.host@, cwd@),
{
    let path = HostPath::from_text(mc.host.as_str());
    let abs = if path.is_absolute() {
        path
    } else {
        cwd.join(&path)
    };
    match abs.to_str() {
        Some(s) => s,
        None => mc.host.clone(),
    }
}

/// The directory of a package's persistent data, below the data directory.
pub open spec fn storage_path(name: Seq<char>, data_dir: Seq<u8>) -> Seq<u8> {
    host::joined(
        host::joined(data_dir, encode_utf8("packages"@)),
        encode_utf8(names::sanitized(name)),
    )
}

/// The directory of a package's persistent data.
pub fn storage_dir(pkg_name: &str, data_dir: &HostPath) -> (r: HostPath)
    ensures
        r@ == storage_path(pkg_name@, data_dir@),
{
    let packages = data_dir.join_text("packages");
    packages.join_text(names::sanitize_package_name(pkg_name).as_str())
}

/// Whether a package keeps data between sessions.
pub open spec fn persists(config: EffectiveConfig) -> bool {
    config.storage matches Some(s) && s.persist
}

/// Whether a package keeps data between sessions.
pub fn is_persistent(config: &EffectiveConfig) -> (r: bool)
    ensures
        r == persists(*config),
{
    match &config.storage {
        Some(s) => s.persist,
        None => false,
    }
}

/// The mounts for the declared ones among the first `k`, whose host paths have
/// been resolved.
pub open spec fn declared_mounts(
    declared: Seq<package::MountView>,
    resolved: Seq<HostPath>,
    k: nat,
) -> Seq<MountView>
    decreases k,
{
    if k == 0 {
        Seq::empty()
    } else {
        declared_mounts(declared, resolved, (k - 1) as nat).push(
            MountView {
                host: resolved[k - 1]@,
                container: declared[k - 1].container,
                mode: mode_of(declared[k - 1].mode),
            },
        )
    }
}

/// The mount of the persistent data directory.
pub open spec fn storage_mount(dir: Seq<u8>) -> MountView {
    MountView { host: dir, container: "/data"@, mode: MountMode::Rw }
}

/// The mount of the working directory when isolation is disabled: at its own path,
/// read-only.
pub open spec fn cwd_mount(cwd: Seq<u8>) -> MountView {
    MountView { host: cwd, container: text::lossy_text(cwd), mode: MountMode::Ro }
}

/// The mounts of a plan.
pub open spec fn plan_mounts(
    config: EffectiveConfig,
    resolved: Seq<HostPath>,
    storage: Seq<u8>,
    cwd: Seq<u8>,
    no_isolate: bool,
) -> Seq<MountView> {
    let declared = package::mount_views(config.mounts@);
    declared_mounts(declared, resolved, declared.len()) + (if persists(config) {
        seq![storage_mount(storage)]
    } else {
        Seq::empty()
    }) + (if no_isolate {
        seq![cwd_mount(cwd)]
    } else {
        Seq::empty()
    })
}

/// The plan for the settings of a package.
pub open spec fn planned(
    config: EffectiveConfig,
    resolved: Seq<HostPath>,
    storage: Seq<u8>,
    cwd: Seq<u8>,
    no_isolate: bool,
    args: Seq<Seq<char>>,
) -> PlanView {
    PlanView {
        mounts: plan_mounts(config, resolved, storage, cwd, no_isolate),
        env_literal: package::text_entries(config.env),
        env_passthrough: text::texts(config.env_passthrough@),
        cap_add: Seq::empty(),
        args,
    }
}

/// The working directory to mount: resolved if that succeeded.
pub open spec fn mounted_cwd(cwd: Seq<u8>, canonical: Result<HostPath, String>) -> Seq<u8> {
    match canonical {
        Ok(c) => c@,
        Err(_) => cwd,
    }
}

/// A copy of the environment of the settings.
fn env_pairs(config: &EffectiveConfig) -> (r: Vec<(String, String)>)
    ensures
        message::pair_views(r@) == package::text_entries(config.env),
{
    let n = config.env.len();
    let mut r: Vec<(String, String)> = Vec::new();
    let mut i: usize = 0;
    while i < n
        invariant
            n == config.env.order().len(),
            i <= n,
            r@.len() == i,
            forall|j: int|
                0 <= j < i ==> (#[trigger] r@[j]).0@ == config.env.order()[j].0 && r@[j].1@
                    == config.env.order()[j].1@,
        decreases n - i,
    {
        let (key, value) = config.env.entry(i);
        r.push((key.clone(), value.clone()));
        i = i + 1;
    }
    assert(message::pair_views(r@) =~= package::text_entries(config.env));
    r
}

/// Appends a mount.
fn push_mount(mounts: &mut Vec<Mount>, m: Mount)
    ensures
        mount_views(final(mounts)@) == mount_views(old(mounts)@).push(m@),
{
    let ghost before = mount_views(mounts@);
    mounts.push(m);
    assert(mount_views(mounts@) =~= before.push(m@));
}

/// Whether a declared mount may be made: its host path was resolved, and lies under
/// the resolved working directory.
pub open spec fn in_scope(resolution: Option<HostPath>, base: Result<HostPath, String>) -> bool {
    resolution is Some && base is Ok && host::lies_under((resolution->0)@, (base->Ok_0)@)
}

/// Whether every declared mount may be made.
pub open spec fn all_in_scope(
    resolutions: Seq<Option<HostPath>>,
    base: Result<HostPath, String>,
) -> bool {
    forall|i: int| 0 <= i < resolutions.len() ==> in_scope(#[trigger] resolutions[i], base)
}

/// The first declared mount that may not be made is at `i`.
pub open spec fn first_refused(
    resolutions: Seq<Option<HostPath>>,
    base: Result<HostPath, String>,
    i: int,
) -> bool {
    &&& 0 <= i < resolutions.len()
    &&& !in_scope(resolutions[i], base)
    &&& forall|j: int| 0 <= j < i ==> in_scope(#[trigger] resolutions[j], base)
}

/// Whether `e` is the error of the first declared mount that may not be made.
pub open spec fn refuses_first(
    e: NpxcError,
    config: EffectiveConfig,
    cwd: Seq<u8>,
    resolutions: Seq<Option<HostPath>>,
    base: Result<HostPath, String>,
) -> bool {
    exists|i: int| #[trigger]
        first_refused(resolutions, base, i) && validate::is_validation(
            Err(e),
            declared_host(config.mounts@[i].host@, cwd),
            cwd,
            resolutions[i],
            base,
        )
}

/// The host paths of mounts that were resolved.
pub open spec fn resolved_hosts(resolutions: Seq<Option<HostPath>>) -> Seq<HostPath> {
    resolutions.map_values(|c: Option<HostPath>| c->0)
}

/// The host path of a declared mount, resolved and held to the working directory.
fn hold_mount(
    mc: &MountConfig,
    cwd: &HostPath,
    resolution: &Option<HostPath>,
    canonical_cwd: &Result<HostPath, String>,
) -> (r: Result<HostPath, NpxcError>)
    ensures
        validate::is_validation(
            r,
            declared_host(mc.host@, cwd@),
            cwd@,
            *resolution,
            *canonical_cwd,
        ),
{
    let canonical = match resolution {
        Some(c) => Some(c.clone()),
        None => None,
    };
    let base = match canonical_cwd {
        Ok(b) => Ok(b.clone()),
        Err(m) => Err(m.clone()),
    };
    validate::validate_path(mount_request(mc, cwd).as_str(), cwd, canonical, base)
}

impl LaunchPlan {
    /// Assembles a plan from the settings of a package.
    ///
    /// Every declared mount is held to the working directory. `resolutions` holds
    /// what the host resolved each [`mount_request`] to, if it could; `storage` the
    /// persistent data directory, or the error of providing it, which matters only
    /// to a package that persists data; `canonical_cwd` the resolved working
    /// directory, or the text of the error.
    pub fn build(
        effective: &EffectiveConfig,
        cwd: &HostPath,
        args: Vec<String>,
        no_isolate: bool,
        resolutions: &Vec<Option<HostPath>>,
        storage: Result<HostPath, NpxcError>,
        canonical_cwd: Result<HostPath, String>,
    ) -> (r: Result<LaunchPlan, NpxcError>)
        requires
            resolutions@.len() == effective.mounts@.len(),
        ensures
            if !all_in_scope(resolutions@, canonical_cwd) {
                r matches Err(e) && refuses_first(
                    e,
                    *effective,
                    cwd@,
                    resolutions@,
                    canonical_cwd,
                )
            } else if persists(*effective) && storage is Err {
                r == Err::<LaunchPlan, NpxcError>(storage->Err_0)
            } else {
                r matches Ok(p) && p@ == planned(
                    *effective,
                    resolved_hosts(resolutions@),
                    storage->Ok_0@,
                    mounted_cwd(cwd@, canonical_cwd),
                    no_isolate,
                    text::texts(args@),
                )
            },
    {
        let ghost given = storage;
        let ghost all = package::mount_views(effective.mounts@);
        let ghost hosts = resolved_hosts(resolutions@);
        let mut mounts: Vec<Mount> = Vec::new();
        assert(mount_views(mounts@) =~= Seq::empty());
        let mut i: usize = 0;
        while i < effective.mounts.len()
            invariant
                all == package::mount_views(effective.mounts@),
                hosts == resolved_hosts(resolutions@),
                resolutions@.len() == effective.mounts@.len(),
                i <= effective.mounts@.len(),
                forall|j: int|
                    0 <= j < i ==> in_scope(#[trigger] resolutions@[j], canonical_cwd),
                mount_views(mounts@) == declared_mounts(all, hosts, i as nat),
            decreases effective.mounts@.len() - i,
        {
            let mc = &effective.mounts[i];
            assert(all[i as int] == mc@);
            match hold_mount(mc, cwd, &resolutions[i], &canonical_cwd) {
                Ok(host) => {
                    assert(host@ == hosts[i as int]@);
                    push_mount(
                        &mut mounts,
                        Mount {
                            host,
                            container: mc.container.clone(),
                            mode: MountMode::from_config_str(mc.mode.as_str()),
                        },
                    );
                },
                Err(e) => {
                    assert(first_refused(resolutions@, canonical_cwd, i as int));
                    return Err(e);
                },
            }
            i = i + 1;
        }
        let ghost mut dir: Seq<u8> = Seq::empty();
        if is_persistent(effective) {
            match storage {
                Ok(d) => {
                    proof {
                        dir = d@;
                    }
                    push_mount(
                        &mut mounts,
                        Mount { host: d, container: "/data".to_owned(), mode: MountMode::Rw },
                    );
                },
                Err(e) => return Err(e),
            }
        }
        let ghost base = mounted_cwd(cwd@, canonical_cwd);
        if no_isolate {
            let path = match canonical_cwd {
                Ok(c) => c,
                Err(_) => cwd.clone(),
            };
            let shown = path.lossy();
            push_mount(&mut mounts, Mount { host: path, container: shown, mode: MountMode::Ro });
        }
        proof {
            assert(mount_views(mounts@) =~= plan_mounts(*effective, hosts, dir, base, no_isolate));
            if !persists(*effective) {
                let other = given->Ok_0@;
                assert(plan_mounts(*effective, hosts, dir, base, no_isolate) =~= plan_mounts(
                    *effective,
                    hosts,
                    other,
                    base,
                    no_isolate,
                ));
            }
        }
        let env_literal = env_pairs(effective);
        let env_passthrough = text::copy_list(&effective.env_passthrough);
        let cap_add: Vec<String> = Vec::new();
        assert(text::texts(cap_add@) =~= Seq::empty());
        Ok(LaunchPlan { mounts, env_literal, env_passthrough, cap_add, args })
    }

    /// Adds what a guest needs to reach the egress tunnel: its environment, the
    /// pinned resolver, and the capabilities to set up the interface and to drop
    /// its privileges afterwards.
    pub fn add_tunnel(&mut self, env: &Vec<(String, String)>, resolv_conf: HostPath)
        ensures
            final(self)@ == with_tunnel(old(self)@, message::pair_views(env@), resolv_conf@),
    {
        let ghost before = self@;
        let ghost more = message::pair_views(env@);
        let mut i: usize = 0;
        assert(before.env_literal + more.take(0) =~= before.env_literal);
        while i < env.len()
            invariant
                more == message::pair_views(env@),
                i <= env@.len(),
                before == old(self)@,
                self.mounts == old(self).mounts,
                self.env_passthrough == old(self).env_passthrough,
                self.cap_add == old(self).cap_add,
                self.args == old(self).args,
                message::pair_views(self.env_literal@) == before.env_literal + more.take(
                    i as int,
                ),
            decreases env@.len() - i,
        {
            let ghost so_far = message::pair_views(self.env_literal@);
            self.env_literal.push((env[i].0.clone(), env[i].1.clone()));
            assert(message::pair_views(self.env_literal@) =~= so_far.push(more[i as int]));
            assert(message::pair_views(self.env_literal@) =~= before.env_literal + more.take(
                i + 1,
            ));
            i = i + 1;
        }
        assert(more.take(i as int) =~= more);
        push_mount(
            &mut self.mounts,
            Mount {
                host: resolv_conf,
                container: "/etc/resolv.conf".to_owned(),
                mode: MountMode::Ro,
            },
        );
        text::push_text(&mut self.cap_add, "NET_ADMIN");
        text::push_text(&mut self.cap_add, "SETUID");
        text::push_text(&mut self.cap_add, "SETGID");
        assert(text::texts(self.cap_add@) =~= before.cap_add + tunnel_caps());
    }
}

/// The capabilities that the tunnel's entrypoint needs.
pub open spec fn tunnel_caps() -> Seq<Seq<char>> {
    seq!["NET_ADMIN"@, "SETUID"@, "SETGID"@]
}

/// A plan with what a guest needs to reach the egress tunnel.
pub open spec fn with_tunnel(
    p: PlanView,
    env: Seq<(Seq<char>, Seq<char>)>,
    resolv_conf: Seq<u8>,
) -> PlanView {
    PlanView {
        mounts: p.mounts.push(
            MountView {
                host: resolv_conf,
                container: "/etc/resolv.conf"@,
                mode: MountMode::Ro,
            },
        ),
        env_literal: p.env_literal + env,
        env_passthrough: p.env_passthrough,
        cap_add: p.cap_add + tunnel_caps(),
        args: p.args,
    }
}

// ---------------------------------------------------------------------------
// The launch command
// ---------------------------------------------------------------------------

/// What container names and workspace directories of a package begin with.
pub open spec fn session_prefix_of(name: Seq<char>) -> Seq<char> {
    "npxc-"@ + names::sanitized(name) + "-"@
}

/// What container names and workspace directories of a package begin with.
pub fn session_prefix(pkg_name: &str) -> (r: String)
    ensures
        r@ == session_prefix_of(pkg_name@),
{
    let s = text::cat("npxc-", names::sanitize_package_name(pkg_name).as_str());
    text::cat(s.as_str(), "-")
}

/// The name of the container: it holds the process id, so that sessions of the same
/// package can run side by side.
pub open spec fn container_name_of(name: Seq<char>, pid: u32) -> Seq<char> {
    session_prefix_of(name) + text::decimal(pid as nat)
}

/// The flags that every container is launched with.
pub open spec fn fixed_flags(
    container: Seq<char>,
    network: Seq<char>,
    memory: Seq<char>,
    cpus: Seq<char>,
) -> Seq<Seq<char>> {
    seq![
        "run"@,
        "--rm"@,
        "-i"@,
        "--progress"@,
        "none"@,
        "--name"@,
        container,
        "--network"@,
        network,
        "--read-only"@,
        "--tmpfs"@,
        "/tmp"@,
        "--cap-drop"@,
        "ALL"@,
        "-m"@,
        memory,
        "-c"@,
        cpus,
    ]
}

/// Each value after the flag, for the first `k` values.
pub open spec fn flagged(flag: Seq<char>, values: Seq<Seq<char>>, k: nat) -> Seq<Seq<char>>
    decreases k,
{
    if k == 0 {
        Seq::empty()
    } else {
        flagged(flag, values, (k - 1) as nat).push(flag).push(values[k - 1])
    }
}

/// Each value after the flag.
pub open spec fn all_flagged(flag: Seq<char>, values: Seq<Seq<char>>) -> Seq<Seq<char>> {
    flagged(flag, values, values.len())
}

/// The container paths that a package asks to be writable.
pub open spec fn writable_paths(config: EffectiveConfig) -> Seq<Seq<char>> {
    match config.storage {
        Some(s) => text::texts(s.writable@),
        None => Seq::empty(),
    }
}

/// The volume arguments of a plan: the workspace first.
pub open spec fn volume_texts(
    session_dir: Seq<u8>,
    mode: Seq<char>,
    mounts: Seq<MountView>,
) -> Seq<Seq<char>> {
    seq![text::lossy_text(session_dir) + ":/workspace:"@ + mode] + mounts.map_values(
        |m: MountView| mount_text(m),
    )
}

/// The environment arguments of a plan: values first, then bare names.
pub open spec fn env_texts(
    literal: Seq<(Seq<char>, Seq<char>)>,
    passthrough: Seq<Seq<char>>,
) -> Seq<Seq<char>> {
    literal.map_values(|e: (Seq<char>, Seq<char>)| e.0 + "="@ + e.1) + passthrough
}

/// The arguments of the launch command.
pub open spec fn run_args_of(
    name: Seq<char>,
    image: Seq<char>,
    config: EffectiveConfig,
    network: Seq<char>,
    plan: PlanView,
    session_dir: Seq<u8>,
    pid: u32,
) -> Seq<Seq<char>> {
    fixed_flags(container_name_of(name, pid), network, config.memory@, config.cpus@)
        + all_flagged("--cap-add"@, plan.cap_add)
        + all_flagged("--tmpfs"@, writable_paths(config))
        + all_flagged("-v"@, volume_texts(session_dir, config.mount_mode@, plan.mounts))
        + all_flagged("-e"@, env_texts(plan.env_literal, plan.env_passthrough))
        + seq![image]
        + plan.args
}

/// Appends each value after the flag.
fn push_flagged(list: &mut Vec<String>, flag: &str, values: &Vec<String>)
    ensures
        text::texts(final(list)@) == text::texts(old(list)@) + all_flagged(
            flag@,
            text::texts(values@),
        ),
{
    let ghost before = text::texts(list@);
    let ghost all = text::texts(values@);
    let mut i: usize = 0;
    assert(before + flagged(flag@, all, 0) =~= before);
    while i < values.len()
        invariant
            all == text::texts(values@),
            i <= values@.len(),
            text::texts(list@) == before + flagged(flag@, all, i as nat),
        decreases values@.len() - i,
    {
        assert(all[i as int] == values@[i as int]@);
        text::push_text(list, flag);
        text::push_text(list, values[i].as_str());
        assert(text::texts(list@) =~= before + flagged(flag@, all, (i + 1) as nat));
        i = i + 1;
    }
}

/// The volume arguments of a plan.
fn volumes(session_dir: &HostPath, mode: &str, mounts: &Vec<Mount>) -> (r: Vec<String>)
    ensures
        text::texts(r@) == volume_texts(session_dir@, mode@, mount_views(mounts@)),
{
    let ghost all = mount_views(mounts@);
    let s = text::cat(session_dir.lossy().as_str(), ":/workspace:");
    let workspace = text::cat(s.as_str(), mode);
    let mut r: Vec<String> = Vec::new();
    text::push_text(&mut r, workspace.as_str());
    let ghost texts_of = all.map_values(|m: MountView| mount_text(m));
    assert(text::texts(r@) =~= seq![workspace@] + texts_of.take(0));
    let mut i: usize = 0;
    while i < mounts.len()
        invariant
            all == mount_views(mounts@),
            texts_of == all.map_values(|m: MountView| mount_text(m)),
            i <= mounts@.len(),
            text::texts(r@) == seq![workspace@] + texts_of.take(i as int),
        decreases mounts@.len() - i,
    {
        let m = &mounts[i];
        assert(all[i as int] == m@);
        let s = text::cat(m.host.lossy().as_str(), ":");
        let s = text::cat(s.as_str(), m.container.as_str());
        let s = text::cat(s.as_str(), ":");
        let s = text::cat(s.as_str(), m.mode.as_str());
        text::push_text(&mut r, s.as_str());
        assert(text::texts(r@) =~= seq![workspace@] + texts_of.take(i + 1));
        i = i + 1;
    }
    assert(texts_of.take(i as int) =~= texts_of);
    r
}

/// The environment arguments of a plan.
fn environment(plan: &LaunchPlan) -> (r: Vec<String>)
    ensures
        text::texts(r@) == env_texts(plan@.env_literal, plan@.env_passthrough),
{
    let ghost all = plan@.env_literal;
    let ghost texts_of = all.map_values(|e: (Seq<char>, Seq<char>)| e.0 + "="@ + e.1);
    let mut r: Vec<String> = Vec::new();
    assert(text::texts(r@) =~= texts_of.take(0));
    let mut i: usize = 0;
    while i < plan.env_literal.len()
        invariant
            all == message::pair_views(plan.env_literal@),
            texts_of == all.map_values(|e: (Seq<char>, Seq<char>)| e.0 + "="@ + e.1),
            i <= plan.env_literal@.len(),
            text::texts(r@) == texts_of.take(i as int),
        decreases plan.env_literal@.len() - i,
    {
        let s = text::cat(plan.env_literal[i].0.as_str(), "=");
        let s = text::cat(s.as_str(), plan.env_literal[i].1.as_str());
        text::push_text(&mut r, s.as_str());
        assert(text::texts(r@) =~= texts_of.take(i + 1));
        i = i + 1;
    }
    assert(texts_of.take(i as int) =~= texts_of);
    text::push_all(&mut r, &plan.env_passthrough);
    r
}

/// The arguments of the launch command.
///
/// Every container is removed after its end, has a read-only root with a writable
/// `/tmp`, and starts without capabilities. Then follow the capabilities, writable
/// paths, mounts and environment of the plan, the image, and the package's own
/// arguments.
pub fn run_args(
    pkg_name: &str,
    image_tag: &str,
    config: &EffectiveConfig,
    network_arg: &str,
    plan: &LaunchPlan,
    session_dir: &HostPath,
    pid: u32,
) -> (r: Vec<String>)
    ensures
        text::texts(r@) == run_args_of(
            pkg_name@,
            image_tag@,
            *config,
            network_arg@,
            plan@,
            session_dir@,
            pid,
        ),
{
    let container = text::cat(
        session_prefix(pkg_name).as_str(),
        text::decimal_of(pid as u64).as_str(),
    );
    let mut r: Vec<String> = Vec::new();
    text::push_text(&mut r, "run");
    text::push_text(&mut r, "--rm");
    text::push_text(&mut r, "-i");
    text::push_text(&mut r, "--progress");
    text::push_text(&mut r, "none");
    text::push_text(&mut r, "--name");
    text::push_text(&mut r, container.as_str());
    text::push_text(&mut r, "--network");
    text::push_text(&mut r, network_arg);
    text::push_text(&mut r, "--read-only");
    text::push_text(&mut r, "--tmpfs");
    text::push_text(&mut r, "/tmp");
    text::push_text(&mut r, "--cap-drop");
    text::push_text(&mut r, "ALL");
    text::push_text(&mut r, "-m");
    text::push_text(&mut r, config.memory.as_str());
    text::push_text(&mut r, "-c");
    text::push_text(&mut r, config.cpus.as_str());
    assert(text::texts(r@) =~= fixed_flags(
        container@,
        network_arg@,
        config.memory@,
        config.cpus@,
    ));
    push_flagged(&mut r, "--cap-add", &plan.cap_add);
    match &config.storage {
        Some(s) => push_flagged(&mut r, "--tmpfs", &s.writable),
        None => {
            let ghost before = text::texts(r@);
            assert(before =~= before + all_flagged("--tmpfs"@, writable_paths(*config)));
        },
    }
    push_flagged(&mut r, "-v", &volumes(session_dir, config.mount_mode.as_str(), &plan.mounts));
    push_flagged(&mut r, "-e", &environment(plan));
    text::push_text(&mut r, image_tag);
    let ghost before = text::texts(r@);
    text::push_all(&mut r, &plan.args);
    assert(text::texts(r@) =~= run_args_of(
        pkg_name@,
        image_tag@,
        *config,
        network_arg@,
        plan@,
        session_dir@,
        pid,
    ));
    r
}

// ---------------------------------------------------------------------------
// Teardown
// ---------------------------------------------------------------------------

/// A step of ending a session.
#[derive(Clone, Copy, Debug, PartialEq, Eq, Structural)]
pub enum CleanupStep {
    /// Kill the container and wait for its end.
    StopContainer,
    /// Remove the workspace directory.
    RemoveWorkspace,
    /// Delete the session's network.
    DeleteNetwork,
}

/// The steps of ending a session, in order.
pub open spec fn cleanup_of(container: bool, network: bool) -> Seq<CleanupStep> {
    (if container {
        seq![CleanupStep::StopContainer]
    } else {
        Seq::empty()
    }) + seq![CleanupStep::RemoveWorkspace] + (if network {
        seq![CleanupStep::DeleteNetwork]
    } else {
        Seq::empty()
    })
}

/// The steps of ending a session that still holds its container, or has a network
/// of its own.
pub fn teardown(container: bool, network: bool) -> (r: Vec<CleanupStep>)
    ensures
        r@ == cleanup_of(container, network),
{
    let mut r: Vec<CleanupStep> = Vec::new();
    if container {
        r.push(CleanupStep::StopContainer);
    }
    r.push(CleanupStep::RemoveWorkspace);
    if network {
        r.push(CleanupStep::DeleteNetwork);
    }
    assert(r@ =~= cleanup_of(container, network));
    r
}

// ---------------------------------------------------------------------------
// Laws
// ---------------------------------------------------------------------------

/// A network is deleted only after the container on it has stopped.
pub proof fn network_outlives_container(container: bool, network: bool, i: int, j: int)
    requires
        0 <= i < cleanup_of(container, network).len(),
        0 <= j < cleanup_of(container, network).len(),
        cleanup_of(container, network)[i] == CleanupStep::StopContainer,
        cleanup_of(container, network)[j] == CleanupStep::DeleteNetwork,
    ensures
        i < j,
{
}

proof fn declared_mounts_lie_under(
    declared: Seq<package::MountView>,
    resolved: Seq<HostPath>,
    base: Seq<u8>,
    k: nat,
)
    requires
        k <= declared.len(),
        k <= resolved.len(),
        forall|i: int| 0 <= i < resolved.len() ==> host::lies_under((#[trigger] resolved[i])@, base),
    ensures
        declared_mounts(declared, resolved, k).len() == k,
        forall|i: int|
            0 <= i < k ==> host::lies_under(
                (#[trigger] declared_mounts(declared, resolved, k)[i]).host,
                base,
            ),
    decreases k,
{
    if k > 0 {
        declared_mounts_lie_under(declared, resolved, base, (k - 1) as nat);
        assert(host::lies_under(resolved[k - 1]@, base));
    }
}

/// A plan is only made where every declared mount may be made, and then the host
/// path of each, links resolved, lies under the resolved working directory.
pub proof fn declared_mounts_stay_in_scope(
    config: EffectiveConfig,
    resolutions: Seq<Option<HostPath>>,
    base: Result<HostPath, String>,
    storage: Seq<u8>,
    cwd: Seq<u8>,
    no_isolate: bool,
)
    requires
        resolutions.len() == config.mounts@.len(),
        all_in_scope(resolutions, base),
        config.mounts@.len() > 0,
    ensures
        base is Ok,
        ({
            let mounts = plan_mounts(
                config,
                resolved_hosts(resolutions),
                storage,
                mounted_cwd(cwd, base),
                no_isolate,
            );
            &&& mounts.len() >= config.mounts@.len()
            &&& forall|i: int|
                0 <= i < config.mounts@.len() ==> host::lies_under(
                    (#[trigger] mounts[i]).host,
                    (base->Ok_0)@,
                )
        }),
{
    assert(in_scope(resolutions[0], base));
    let hosts = resolved_hosts(resolutions);
    let under = (base->Ok_0)@;
    assert forall|i: int| 0 <= i < hosts.len() implies host::lies_under(
        (#[trigger] hosts[i])@,
        under,
    ) by {
        assert(in_scope(resolutions[i], base));
    }
    let declared = package::mount_views(config.mounts@);
    declared_mounts_lie_under(declared, hosts, under, declared.len());
    let mounts = plan_mounts(config, hosts, storage, mounted_cwd(cwd, base), no_isolate);
    assert forall|i: int| 0 <= i < declared.len() implies host::lies_under(
        (#[trigger] mounts[i]).host,
        under,
    ) by {
        assert(mounts[i] == declared_mounts(declared, hosts, declared.len())[i]);
    }
}

/// Every container is launched without capabilities, with a read-only root and on
/// the network that was asked for, and is removed after its end.
pub proof fn every_launch_is_confined(
    name: Seq<char>,
    image: Seq<char>,
    config: EffectiveConfig,
    network: Seq<char>,
    plan: PlanView,
    session_dir: Seq<u8>,
    pid: u32,
)
    ensures
        ({
            let args = run_args_of(name, image, config, network, plan, session_dir, pid);
            &&& args.contains("--rm"@)
            &&& args.contains("--read-only"@)
            &&& exists|i: int|
                0 <= i < args.len() - 1 && #[trigger] args[i] == "--cap-drop"@ && args[i + 1]
                    == "ALL"@
            &&& exists|i: int|
                0 <= i < args.len() - 1 && #[trigger] args[i] == "--network"@ && args[i + 1]
                    == network
        }),
{
    let args = run_args_of(name, image, config, network, plan, session_dir, pid);
    let flags = fixed_flags(container_name_of(name, pid), network, config.memory@, config.cpus@);
    assert forall|i: int| 0 <= i < 18 implies #[trigger] args[i] == flags[i] by {}
    assert(args[1] == "--rm"@);
    assert(args[9] == "--read-only"@);
    assert(args[12] == "--cap-drop"@ && args[13] == "ALL"@);
    assert(args[7] == "--network"@ && args[8] == network);
}

/// A package whose settings ask for nothing is granted nothing: no capability, no
/// mount but the workspace, and no environment.
pub proof fn nothing_is_granted_unasked(
    name: Seq<char>,
    image: Seq<char>,
    config: EffectiveConfig,
    network: Seq<char>,
    storage: Seq<u8>,
    cwd: Seq<u8>,
    args: Seq<Seq<char>>,
    session_dir: Seq<u8>,
    pid: u32,
)
    requires
        config.mounts@.len() == 0,
        config.storage is None,
        config.env.order().len() == 0,
        config.env_passthrough@.len() == 0,
    ensures
        run_args_of(
            name,
            image,
            config,
            network,
            planned(config, Seq::empty(), storage, cwd, false, args),
            session_dir,
            pid,
        ) == fixed_flags(container_name_of(name, pid), network, config.memory@, config.cpus@)
            + seq!["-v"@, text::lossy_text(session_dir) + ":/workspace:"@ + config.mount_mode@]
            + seq![image] + args,
{
    let plan = planned(config, Seq::empty(), storage, cwd, false, args);
    let workspace = text::lossy_text(session_dir) + ":/workspace:"@ + config.mount_mode@;
    let volumes = volume_texts(session_dir, config.mount_mode@, plan.mounts);
    assert(volumes =~= seq![workspace]);
    assert(env_texts(plan.env_literal, plan.env_passthrough) =~= Seq::empty());
    assert(flagged("-v"@, volumes, 0) =~= Seq::empty());
    assert(all_flagged("-v"@, volumes) =~= seq!["-v"@, workspace]);
    assert(run_args_of(name, image, config, network, plan, session_dir, pid) =~= fixed_flags(
        container_name_of(name, pid),
        network,
        config.memory@,
        config.cpus@,
    ) + seq!["-v"@, workspace] + seq![image] + args);
}

/// The package's own arguments come last, after the image, as they were given.
pub proof fn package_arguments_come_last(
    name: Seq<char>,
    image: Seq<char>,
    config: EffectiveConfig,
    network: Seq<char>,
    plan: PlanView,
    session_dir: Seq<u8>,
    pid: u32,
)
    ensures
        ({
            let args = run_args_of(name, image, config, network, plan, session_dir, pid);
            let n = args.len() - plan.args.len();
            &&& n > 0
            &&& args[n - 1] == image
            &&& args.skip(n) == plan.args
        }),
{
    let args = run_args_of(name, image, config, network, plan, session_dir, pid);
    let n = args.len() - plan.args.len();
    assert(args.skip(n) =~= plan.args);
}

proof fn flagged_stand_in_pairs(flag: Seq<char>, values: Seq<Seq<char>>, k: nat, i: int)
    requires
        k <= values.len(),
    ensures
        flagged(flag, values, k).len() == 2 * k,
        0 <= i < k ==> flagged(flag, values, k)[2 * i] == flag,
        0 <= i < k ==> flagged(flag, values, k)[2 * i + 1] == values[i],
    decreases k,
{
    if k > 0 {
        flagged_stand_in_pairs(flag, values, (k - 1) as nat, i);
    }
}

/// The arguments of a launch come in groups, one after the other.
proof fn launch_groups(
    name: Seq<char>,
    image: Seq<char>,
    config: EffectiveConfig,
    network: Seq<char>,
    plan: PlanView,
    session_dir: Seq<u8>,
    pid: u32,
    i: int,
)
    ensures
        ({
            let args = run_args_of(name, image, config, network, plan, session_dir, pid);
            let flags = fixed_flags(
                container_name_of(name, pid),
                network,
                config.memory@,
                config.cpus@,
            );
            let a = all_flagged("--cap-add"@, plan.cap_add);
            let b = all_flagged("--tmpfs"@, writable_paths(config));
            let d = all_flagged(
                "-v"@,
                volume_texts(session_dir, config.mount_mode@, plan.mounts),
            );
            let g = all_flagged("-e"@, env_texts(plan.env_literal, plan.env_passthrough));
            let n = 18 + a.len() + b.len() + d.len() + g.len();
            &&& args.len() == n + 1 + plan.args.len()
            &&& 0 <= i < 18 ==> args[i] == flags[i]
            &&& 0 <= i < a.len() ==> args[18 + i] == a[i]
            &&& 0 <= i < b.len() ==> args[18 + a.len() + i] == b[i]
            &&& 0 <= i < d.len() ==> args[18 + a.len() + b.len() + i] == d[i]
            &&& 0 <= i < g.len() ==> args[18 + a.len() + b.len() + d.len() + i] == g[i]
            &&& args[n as int] == image
            &&& 0 <= i < plan.args.len() ==> args[n + 1 + i] == plan.args[i]
        }),
{
}

proof fn group_lengths(config: EffectiveConfig, plan: PlanView, session_dir: Seq<u8>)
    ensures
        all_flagged("--cap-add"@, plan.cap_add).len() == 2 * plan.cap_add.len(),
        all_flagged("--tmpfs"@, writable_paths(config)).len() == 2 * writable_paths(config).len(),
        all_flagged(
            "-v"@,
            volume_texts(session_dir, config.mount_mode@, plan.mounts),
        ).len() == 2 + 2 * plan.mounts.len(),
        all_flagged("-e"@, env_texts(plan.env_literal, plan.env_passthrough)).len() == 2
            * plan.env_literal.len() + 2 * plan.env_passthrough.len(),
{
    let volumes = volume_texts(session_dir, config.mount_mode@, plan.mounts);
    let env = env_texts(plan.env_literal, plan.env_passthrough);
    assert(volumes.len() == 1 + plan.mounts.len());
    assert(env.len() == plan.env_literal.len() + plan.env_passthrough.len());
    flagged_stand_in_pairs("--cap-add"@, plan.cap_add, plan.cap_add.len(), 0);
    flagged_stand_in_pairs("--tmpfs"@, writable_paths(config), writable_paths(config).len(), 0);
    flagged_stand_in_pairs("-v"@, volumes, volumes.len(), 0);
    flagged_stand_in_pairs("-e"@, env, env.len(), 0);
}

/// The paths that a package may write to, besides its mounts.
pub open spec fn writable_of(config: EffectiveConfig) -> Seq<Seq<char>> {
    match config.storage {
        Some(s) => text::texts(s.writable@),
        None => Seq::empty(),
    }
}

/// A launch has the flags that every container gets, with the container's name, its
/// network, its memory and its processors; then come the other arguments, and besides
/// those of the plan and the settings there are none.
pub proof fn launches_begin_with_fixed_flags(
    name: Seq<char>,
    image: Seq<char>,
    config: EffectiveConfig,
    network: Seq<char>,
    plan: PlanView,
    session_dir: Seq<u8>,
    pid: u32,
)
    ensures
        ({
            let args = run_args_of(name, image, config, network, plan, session_dir, pid);
            &&& args.len() == 21 + 2 * plan.cap_add.len() + 2 * writable_of(config).len() + 2
                * plan.mounts.len() + 2 * plan.env_literal.len() + 2 * plan.env_passthrough.len()
                + plan.args.len()
            &&& args[0] == "run"@ && args[1] == "--rm"@ && args[2] == "-i"@
            &&& args[3] == "--progress"@ && args[4] == "none"@
            &&& args[5] == "--name"@ && args[6] == "npxc-"@ + names::sanitized(name) + "-"@
                + text::decimal(pid as nat)
            &&& args[7] == "--network"@ && args[8] == network
            &&& args[9] == "--read-only"@ && args[10] == "--tmpfs"@ && args[11] == "/tmp"@
            &&& args[12] == "--cap-drop"@ && args[13] == "ALL"@
            &&& args[14] == "-m"@ && args[15] == config.memory@
            &&& args[16] == "-c"@ && args[17] == config.cpus@
        }),
{
    group_lengths(config, plan, session_dir);
    let args = run_args_of(name, image, config, network, plan, session_dir, pid);
    let flags = fixed_flags(container_name_of(name, pid), network, config.memory@, config.cpus@);
    launch_groups(name, image, config, network, plan, session_dir, pid, 0);
    assert forall|i: int| 0 <= i < 18 implies #[trigger] args[i] == flags[i] by {
        launch_groups(name, image, config, network, plan, session_dir, pid, i);
    }
    assert(args[0] == flags[0] && args[1] == flags[1] && args[2] == flags[2] && args[3] == flags[3]
        && args[4] == flags[4] && args[5] == flags[5] && args[6] == flags[6] && args[7] == flags[7]
        && args[8] == flags[8]);
    assert(args[9] == flags[9] && args[10] == flags[10] && args[11] == flags[11] && args[12]
        == flags[12] && args[13] == flags[13] && args[14] == flags[14] && args[15] == flags[15]
        && args[16] == flags[16] && args[17] == flags[17]);
}

/// A launch adds each capability of the plan, and makes each path writable that the
/// package may write to.
pub proof fn launches_grant_what_is_asked_for(
    name: Seq<char>,
    image: Seq<char>,
    config: EffectiveConfig,
    network: Seq<char>,
    plan: PlanView,
    session_dir: Seq<u8>,
    pid: u32,
    i: int,
)
    ensures
        ({
            let args = run_args_of(name, image, config, network, plan, session_dir, pid);
            let w = 18 + 2 * plan.cap_add.len();
            &&& 0 <= i < plan.cap_add.len() ==> args[18 + 2 * i] == "--cap-add"@ && args[18 + 2 * i
                + 1] == plan.cap_add[i]
            &&& 0 <= i < writable_of(config).len() ==> args[w + 2 * i] == "--tmpfs"@ && args[w + 2
                * i + 1] == writable_of(config)[i]
        }),
{
    group_lengths(config, plan, session_dir);
    launch_groups(name, image, config, network, plan, session_dir, pid, 2 * i);
    launch_groups(name, image, config, network, plan, session_dir, pid, 2 * i + 1);
    flagged_stand_in_pairs("--cap-add"@, plan.cap_add, plan.cap_add.len(), i);
    flagged_stand_in_pairs("--tmpfs"@, writable_of(config), writable_of(config).len(), i);
}

/// A launch mounts the session directory as the workspace, in the mode of the settings,
/// and each mount of the plan where it says, in its own mode.
pub proof fn launches_mount_what_is_planned(
    name: Seq<char>,
    image: Seq<char>,
    config: EffectiveConfig,
    network: Seq<char>,
    plan: PlanView,
    session_dir: Seq<u8>,
    pid: u32,
    i: int,
)
    ensures
        ({
            let args = run_args_of(name, image, config, network, plan, session_dir, pid);
            let v = 18 + 2 * plan.cap_add.len() + 2 * writable_of(config).len();
            &&& args[v as int] == "-v"@ && args[(v + 1) as int] == text::lossy_text(session_dir)
                + ":/workspace:"@ + config.mount_mode@
            &&& 0 <= i < plan.mounts.len() ==> args[v + 2 + 2 * i] == "-v"@ && args[v + 3 + 2 * i]
                == text::lossy_text(plan.mounts[i].host) + ":"@ + plan.mounts[i].container + ":"@
                + (if plan.mounts[i].mode == MountMode::Rw {
                "rw"@
            } else {
                "ro"@
            })
        }),
{
    let volumes = volume_texts(session_dir, config.mount_mode@, plan.mounts);
    group_lengths(config, plan, session_dir);
    launch_groups(name, image, config, network, plan, session_dir, pid, 0);
    launch_groups(name, image, config, network, plan, session_dir, pid, 1);
    launch_groups(name, image, config, network, plan, session_dir, pid, 2 + 2 * i);
    launch_groups(name, image, config, network, plan, session_dir, pid, 3 + 2 * i);
    flagged_stand_in_pairs("-v"@, volumes, volumes.len(), 0);
    flagged_stand_in_pairs("-v"@, volumes, volumes.len(), i + 1);
    if 0 <= i < plan.mounts.len() {
        assert(volumes[i + 1] == mount_text(plan.mounts[i]));
    }
}

/// A launch sets each variable of the plan to its value, and passes each on by its name
/// that is to be passed through.
pub proof fn launches_set_what_is_planned(
    name: Seq<char>,
    image: Seq<char>,
    config: EffectiveConfig,
    network: Seq<char>,
    plan: PlanView,
    session_dir: Seq<u8>,
    pid: u32,
    i: int,
)
    ensures
        ({
            let args = run_args_of(name, image, config, network, plan, session_dir, pid);
            let e = 20 + 2 * plan.cap_add.len() + 2 * writable_of(config).len() + 2
                * plan.mounts.len();
            let p = e + 2 * plan.env_literal.len();
            &&& 0 <= i < plan.env_literal.len() ==> args[e + 2 * i] == "-e"@ && args[e + 2 * i + 1]
                == plan.env_literal[i].0 + "="@ + plan.env_literal[i].1
            &&& 0 <= i < plan.env_passthrough.len() ==> args[p + 2 * i] == "-e"@ && args[p + 2 * i
                + 1] == plan.env_passthrough[i]
        }),
{
    let env = env_texts(plan.env_literal, plan.env_passthrough);
    let k = plan.env_literal.len() + i;
    group_lengths(config, plan, session_dir);
    launch_groups(name, image, config, network, plan, session_dir, pid, 2 * i);
    launch_groups(name, image, config, network, plan, session_dir, pid, 2 * i + 1);
    launch_groups(name, image, config, network, plan, session_dir, pid, 2 * k);
    launch_groups(name, image, config, network, plan, session_dir, pid, 2 * k + 1);
    flagged_stand_in_pairs("-e"@, env, env.len(), i);
    flagged_stand_in_pairs("-e"@, env, env.len(), k);
    if 0 <= i < plan.env_literal.len() {
        assert(env[i] == plan.env_literal[i].0 + "="@ + plan.env_literal[i].1);
    }
    if 0 <= i < plan.env_passthrough.len() {
        assert(env[k] == plan.env_passthrough[i]);
    }
}

proof fn declared_mounts_are_made(
    declared: Seq<package::MountView>,
    resolved: Seq<HostPath>,
    k: nat,
)
    requires
        k <= declared.len(),
    ensures
        declared_mounts(declared, resolved, k).len() == k,
        forall|i: int|
            0 <= i < k ==> (#[trigger] declared_mounts(declared, resolved, k)[i]) == (MountView {
                host: resolved[i]@,
                container: declared[i].container,
                mode: mode_of(declared[i].mode),
            }),
    decreases k,
{
    if k > 0 {
        declared_mounts_are_made(declared, resolved, (k - 1) as nat);
    }
}

/// A plan holds what the settings ask for and nothing else: the declared mounts in
/// order, read-write only where they say `rw`; the storage directory at `/data` where
/// data is to persist; the working directory, read-only, where isolation is disabled; the
/// variables and their values; the names that are passed through; no capabilities; and
/// the arguments.
pub proof fn plans_hold_what_settings_ask_for(
    config: EffectiveConfig,
    resolved: Seq<HostPath>,
    storage: Seq<u8>,
    cwd: Seq<u8>,
    no_isolate: bool,
    args: Seq<Seq<char>>,
)
    ensures
        ({
            let plan = planned(config, resolved, storage, cwd, no_isolate, args);
            let n = config.mounts@.len() as int;
            let keeps = config.storage is Some && config.storage->0.persist;
            &&& plan.mounts.len() == n + (if keeps {
                1int
            } else {
                0
            }) + (if no_isolate {
                1int
            } else {
                0
            })
            &&& forall|i: int|
                0 <= i < n ==> (#[trigger] plan.mounts[i]).host == resolved[i]@
                    && plan.mounts[i].container == config.mounts@[i].container@ && (
                plan.mounts[i].mode == MountMode::Rw <==> config.mounts@[i].mode@ == "rw"@)
            &&& keeps ==> plan.mounts[n].host == storage && plan.mounts[n].container == "/data"@
                && plan.mounts[n].mode == MountMode::Rw
            &&& no_isolate ==> plan.mounts.last().host == cwd && plan.mounts.last().container
                == text::lossy_text(cwd) && plan.mounts.last().mode == MountMode::Ro
            &&& plan.env_literal.len() == config.env.order().len()
            &&& forall|i: int|
                0 <= i < plan.env_literal.len() ==> (#[trigger] plan.env_literal[i]).0
                    == config.env.order()[i].0 && plan.env_literal[i].1 == config.env.order()[i].1@
            &&& plan.env_passthrough.len() == config.env_passthrough@.len()
            &&& forall|i: int|
                0 <= i < plan.env_passthrough.len() ==> #[trigger] plan.env_passthrough[i]
                    == config.env_passthrough@[i]@
            &&& plan.cap_add.len() == 0
            &&& plan.args == args
        }),
{
    let declared = package::mount_views(config.mounts@);
    declared_mounts_are_made(declared, resolved, declared.len());
    let made = declared_mounts(declared, resolved, declared.len());
    let plan = planned(config, resolved, storage, cwd, no_isolate, args);
    let n = config.mounts@.len() as int;
    assert(declared.len() == n);
    assert forall|i: int| 0 <= i < n implies (#[trigger] plan.mounts[i]).host == resolved[i]@
        && plan.mounts[i].container == config.mounts@[i].container@ && (plan.mounts[i].mode
        == MountMode::Rw <==> config.mounts@[i].mode@ == "rw"@) by {
        assert(plan.mounts[i] == made[i]);
        assert(declared[i] == config.mounts@[i]@);
    }
}

/// The tunnel adds to a plan what the guest needs for it, and changes nothing else: its
/// variables after the others, the resolver's settings read-only in their place, and
/// three capabilities.
pub proof fn tunnels_add_what_guests_need(
    p: PlanView,
    env: Seq<(Seq<char>, Seq<char>)>,
    resolv_conf: Seq<u8>,
)
    ensures
        ({
            let t = with_tunnel(p, env, resolv_conf);
            &&& t.args == p.args
            &&& t.env_passthrough == p.env_passthrough
            &&& t.mounts.len() == p.mounts.len() + 1
            &&& forall|i: int|
                0 <= i < p.mounts.len() ==> #[trigger] t.mounts[i] == p.mounts[i]
            &&& t.mounts.last().host == resolv_conf && t.mounts.last().container
                == "/etc/resolv.conf"@ && t.mounts.last().mode == MountMode::Ro
            &&& t.env_literal.len() == p.env_literal.len() + env.len()
            &&& forall|i: int|
                0 <= i < p.env_literal.len() ==> #[trigger] t.env_literal[i] == p.env_literal[i]
            &&& forall|i: int|
                0 <= i < env.len() ==> t.env_literal[p.env_literal.len() + i]
                    == #[trigger] env[i]
            &&& t.cap_add.len() == p.cap_add.len() + 3
            &&& forall|i: int| 0 <= i < p.cap_add.len() ==> #[trigger] t.cap_add[i] == p.cap_add[i]
            &&& t.cap_add.contains("NET_ADMIN"@)
            &&& t.cap_add.contains("SETUID"@)
            &&& t.cap_add.contains("SETGID"@)
        }),
{
    let t = with_tunnel(p, env, resolv_conf);
    let n = p.cap_add.len() as int;
    assert(t.cap_add[n] == "NET_ADMIN"@);
    assert(t.cap_add[n + 1] == "SETUID"@);
    assert(t.cap_add[n + 2] == "SETGID"@);
}

/// The data of a package lies in a directory of its own, directly below the `packages`
/// of the data directory.
pub proof fn packages_keep_their_data_apart(name: Seq<char>, data_dir: Seq<u8>)
    requires
        data_dir.len() > 0,
        data_dir.last() != 47u8,
        names::sanitized(name).len() > 0,
    ensures
        storage_path(name, data_dir) == data_dir + seq![47u8] + encode_utf8("packages"@)
            + seq![47u8] + encode_utf8(names::sanitized(name)),
        !encode_utf8(names::sanitized(name)).contains(47u8),
{
    let id = names::sanitized(name);
    names::identifiers_are_file_names(name);
    assert(id[0] != '/') by {
        assert(id.contains(id[0]));
    }
    reveal_strlit("packages");
    host::encoding_begins_with("packages"@);
    host::encoding_begins_with(id);
    host::encoding_adds_no_separator(id);
    is_ascii_chars_encode_utf8("packages"@);
    assert(encode_utf8("packages"@)[7] == 's' as u8);
    let dir = data_dir.push(47u8) + encode_utf8("packages"@);
    assert(dir.last() == encode_utf8("packages"@).last());
    assert(data_dir.push(47u8) =~= data_dir + seq![47u8]);
    assert(dir.push(47u8) =~= dir + seq![47u8]);
}

/// The host path of a declared mount is the one that is declared where that is absolute,
/// else it is seen from the working directory.
pub proof fn declared_paths_are_seen_from_the_working_directory(path: Seq<char>, cwd: Seq<char>)
    requires
        path.len() > 0,
        cwd.len() > 0,
        encode_utf8(cwd).last() != 47u8,
    ensures
        path[0] == '/' ==> declared_host(path, encode_utf8(cwd)) == path,
        path[0] != '/' ==> declared_host(path, encode_utf8(cwd)) == cwd + seq!['/'] + path,
{
    let base = encode_utf8(cwd);
    let p = encode_utf8(path);
    encode_utf8_valid_utf8(path);
    encode_utf8_decode_utf8(path);
    if path[0] == '/' {
        let one = path.take(1);
        assert(path =~= one + path.skip(1));
        host::encoding_appends(one, path.skip(1));
        assert(is_ascii_chars(one));
        is_ascii_chars_encode_utf8(one);
        assert(encode_utf8(one)[0] == 47u8);
        assert(p[0] == 47u8);
    } else {
        host::encoding_begins_with(path);
        let whole = cwd + seq!['/'] + path;
        host::encoding_appends(cwd + seq!['/'], path);
        host::encoding_appends(cwd, seq!['/']);
        assert(is_ascii_chars(seq!['/']));
        is_ascii_chars_encode_utf8(seq!['/']);
        assert(encode_utf8(seq!['/']) =~= seq![47u8]);
        encoding_is_not_empty(cwd);
        assert(host::joined(base, p) =~= encode_utf8(whole));
        encode_utf8_valid_utf8(whole);
        encode_utf8_decode_utf8(whole);
    }
}

proof fn encoding_is_not_empty(s: Seq<char>)
    requires
        s.len() > 0,
    ensures
        encode_utf8(s).len() > 0,
{
    encode_utf8_decode_utf8(s);
    if encode_utf8(s).len() == 0 {
        assert(encode_utf8(s) =~= Seq::<u8>::empty());
        assert(encode_utf8(Seq::<char>::empty()) =~= Seq::<u8>::empty());
        encode_utf8_decode_utf8(Seq::<char>::empty());
    }
}

/// Ending a session removes its workspace, stops its container where it still holds one,
/// and deletes its network where it has one: each once, and nothing else.
pub proof fn sessions_end_completely(container: bool, network: bool)
    ensures
        cleanup_of(container, network).contains(CleanupStep::RemoveWorkspace),
        cleanup_of(container, network).contains(CleanupStep::StopContainer) <==> container,
        cleanup_of(container, network).contains(CleanupStep::DeleteNetwork) <==> network,
        cleanup_of(container, network).len() == 1 + (if container {
            1int
        } else {
            0
        }) + (if network {
            1int
        } else {
            0
        }),
{
    let steps = cleanup_of(container, network);
    if container {
        assert(steps[0] == CleanupStep::StopContainer);
        assert(steps[1] == CleanupStep::RemoveWorkspace);
    } else {
        assert(steps[0] == CleanupStep::RemoveWorkspace);
    }
    if network {
        assert(steps.last() == CleanupStep::DeleteNetwork);
        assert(steps[steps.len() - 1] == CleanupStep::DeleteNetwork);
    }
}

/// A declared mount may be made exactly where the host resolved its path and that is the
/// resolved working directory, or goes on after it with a separator.
pub proof fn mounts_outside_are_refused(path: HostPath, base: HostPath)
    requires
        host::is_resolved(path@),
        host::is_resolved(base@),
    ensures
        in_scope(Some(path), Ok(base)) <==> path@ == base@ || (path@.len() > base@.len()
            && path@.take(base@.len() as int) == base@ && path@[base@.len() as int] == 47u8),
        !in_scope(None, Ok(base)),
        forall|m: String| !#[trigger] in_scope(Some(path), Err(m)),
{
    host::lying_under_is_going_on(path@, base@);
}

/// The mounts of a plan are made of what the host resolved, each of its own; the working
/// directory is mounted as it was resolved, or as it was given where it could not be.
pub proof fn mounts_are_made_of_what_was_resolved(
    resolutions: Seq<Option<HostPath>>,
    i: int,
    cwd: Seq<u8>,
    base: HostPath,
    e: String,
)
    requires
        0 <= i < resolutions.len(),
        resolutions[i] is Some,
    ensures
        resolved_hosts(resolutions).len() == resolutions.len(),
        resolved_hosts(resolutions)[i] == resolutions[i]->0,
        mounted_cwd(cwd, Ok(base)) == base@,
        mounted_cwd(cwd, Err(e)) == cwd,
{
}

} // verus!
