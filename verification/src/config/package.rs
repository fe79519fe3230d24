//! The settings of one package.
use vstd::prelude::*;

use crate::table;
use crate::table::Table;
use crate::text;

verus! {

/// Per-package configuration, kept at `<config_dir>/packages/<identifier>.toml`.
#[derive(Debug)]
pub struct PackageConfig {
    /// Canonical npm package name.
    pub package: Option<String>,
    /// Pinned version. It takes precedence over `"latest"` but yields to a version
    /// in the package spec.
    pub version: Option<String>,
    /// The arguments to treat as paths, by tool name (`"*"` for every tool).
    pub path_arguments: Table<Vec<String>>,
    /// The arguments never to treat as paths, by tool name (`"*"` for every tool).
    pub non_path_arguments: Table<Vec<String>>,
    /// Resource overrides.
    pub runtime: Option<RuntimeOverride>,
    /// Literal environment variables for the container.
    pub env: Table<String>,
    /// Names of environment variables to forward into the container.
    pub env_passthrough: Vec<String>,
    /// Persistent and writable storage.
    pub storage: Option<StorageConfig>,
    /// Extra mounts beyond the session workspace.
    pub mounts: Vec<MountConfig>,
    /// Network policy. When present it takes precedence over the `network` of
    /// [`RuntimeOverride`].
    pub network: Option<NetworkConfig>,
}

/// Resource overrides; what is `None` falls back to the global default.
#[derive(Debug)]
pub struct RuntimeOverride {
    pub memory: Option<String>,
    pub cpus: Option<String>,
    pub network: Option<String>,
}

/// Storage of a package.
#[derive(Debug)]
pub struct StorageConfig {
    /// Mount a per-package host directory read-write at `/data`.
    pub persist: bool,
    /// Further container paths to make writable with `--tmpfs`.
    pub writable: Vec<String>,
}

/// A mount of a host directory into the container.
#[derive(Debug)]
pub struct MountConfig {
    /// Host path; a relative one is seen from the working directory.
    pub host: String,
    /// Absolute path inside the container.
    pub container: String,
    /// `"ro"` or `"rw"`.
    pub mode: String,
}

/// Network policy of a package.
#[derive(Debug)]
pub struct NetworkConfig {
    /// `"none"`, `"open"`, `"allowlist"`, or the name of a container network.
    pub mode: String,
    /// Allow entries for mode `"allowlist"`.
    pub allow: Vec<String>,
}

/// The model of [`MountConfig`].
pub ghost struct MountView {
    pub host: Seq<char>,
    pub container: Seq<char>,
    pub mode: Seq<char>,
}

/// The model of [`StorageConfig`].
pub ghost struct StorageView {
    pub persist: bool,
    pub writable: Seq<Seq<char>>,
}

impl MountConfig {
    pub open spec fn view(&self) -> MountView {
        MountView { host: self.host@, container: self.container@, mode: self.mode@ }
    }
}

impl StorageConfig {
    pub open spec fn view(&self) -> StorageView {
        StorageView { persist: self.persist, writable: text::texts(self.writable@) }
    }
}

pub open spec fn opt_storage(s: Option<StorageConfig>) -> Option<StorageView> {
    match s {
        Some(c) => Some(c@),
        None => None,
    }
}

pub open spec fn mount_views(v: Seq<MountConfig>) -> Seq<MountView> {
    v.map_values(|m: MountConfig| m@)
}

/// The lists of a table, in order.
pub open spec fn list_entries(t: Table<Vec<String>>) -> Seq<(Seq<char>, Seq<Seq<char>>)> {
    t.order().map_values(|e: (Seq<char>, Vec<String>)| (e.0, text::texts(e.1@)))
}

/// The texts of a table, in order.
pub open spec fn text_entries(t: Table<String>) -> Seq<(Seq<char>, Seq<char>)> {
    t.order().map_values(|e: (Seq<char>, String)| (e.0, e.1@))
}

/// The mount mode of a mount that states none.
pub fn default_mount_mode() -> (r: String)
    ensures
        r@ == "ro"@,
{
    "ro".to_owned()
}

/// The mode of a network table that states none.
pub fn default_network_mode() -> (r: String)
    ensures
        r@ == "none"@,
{
    "none".to_owned()
}

impl Default for RuntimeOverride {
    fn default() -> (r: Self)
        ensures
            r.memory is None,
            r.cpus is None,
            r.network is None,
    {
        RuntimeOverride { memory: None, cpus: None, network: None }
    }
}

impl Default for StorageConfig {
    fn default() -> (r: Self)
        ensures
            !r.persist,
            r.writable@.len() == 0,
    {
        StorageConfig { persist: false, writable: Vec::new() }
    }
}

impl Default for NetworkConfig {
    fn default() -> (r: Self)
        ensures
            r.mode@ == ""@,
            r.allow@.len() == 0,
    {
        NetworkConfig { mode: "".to_owned(), allow: Vec::new() }
    }
}

impl Default for PackageConfig {
    fn default() -> (r: Self)
        ensures
            r.package is None,
            r.version is None,
            r.path_arguments.order().len() == 0,
            r.non_path_arguments.order().len() == 0,
            r.runtime is None,
            r.env.order().len() == 0,
            r.env_passthrough@.len() == 0,
            r.storage is None,
            r.mounts@.len() == 0,
            r.network is None,
    {
        PackageConfig {
            package: None,
            version: None,
            path_arguments: Table::new(),
            non_path_arguments: Table::new(),
            runtime: None,
            env: Table::new(),
            env_passthrough: Vec::new(),
            storage: None,
            mounts: Vec::new(),
            network: None,
        }
    }
}

/// A copy of a table of lists.
pub fn copy_lists(t: &Table<Vec<String>>) -> (r: Table<Vec<String>>)
    ensures
        list_entries(r) == list_entries(*t),
{
    let n = t.len();
    let mut r: Table<Vec<String>> = Table::new();
    let mut i: usize = 0;
    while i < n
        invariant
            n == t.order().len(),
            table::distinct(t.order()),
            i <= n,
            r.order().len() == i,
            forall|j: int|
                0 <= j < i ==> (#[trigger] r.order()[j]).0 == t.order()[j].0 && text::texts(
                    r.order()[j].1@,
                ) == text::texts(t.order()[j].1@),
        decreases n - i,
    {
        let (key, value) = t.entry(i);
        proof {
            assert forall|j: int| 0 <= j < r.order().len() implies (#[trigger] r.order()[j]).0
                != key@ by {
                assert(t.order()[j].0 != t.order()[i as int].0);
            }
            table::position_absent(r.order(), key@);
        }
        r.insert(key.clone(), text::copy_list(value));
        i = i + 1;
    }
    assert(list_entries(r) =~= list_entries(*t));
    r
}

/// A copy of a table of texts.
pub fn copy_texts(t: &Table<String>) -> (r: Table<String>)
    ensures
        text_entries(r) == text_entries(*t),
{
    let n = t.len();
    let mut r: Table<String> = Table::new();
    let mut i: usize = 0;
    while i < n
        invariant
            n == t.order().len(),
            table::distinct(t.order()),
            i <= n,
            r.order().len() == i,
            forall|j: int|
                0 <= j < i ==> (#[trigger] r.order()[j]).0 == t.order()[j].0 && r.order()[j].1@
                    == t.order()[j].1@,
        decreases n - i,
    {
        let (key, value) = t.entry(i);
        proof {
            assert forall|j: int| 0 <= j < r.order().len() implies (#[trigger] r.order()[j]).0
                != key@ by {
                assert(t.order()[j].0 != t.order()[i as int].0);
            }
            table::position_absent(r.order(), key@);
        }
        r.insert(key.clone(), value.clone());
        i = i + 1;
    }
    assert(text_entries(r) =~= text_entries(*t));
    r
}

impl Clone for StorageConfig {
    fn clone(&self) -> (r: Self)
        ensures
            r@ == self@,
    {
        StorageConfig { persist: self.persist, writable: text::copy_list(&self.writable) }
    }
}

impl Clone for MountConfig {
    fn clone(&self) -> (r: Self)
        ensures
            r@ == self@,
    {
        MountConfig {
            host: self.host.clone(),
            container: self.container.clone(),
            mode: self.mode.clone(),
        }
    }
}

/// A copy of a list of mounts.
pub fn copy_mounts(v: &Vec<MountConfig>) -> (r: Vec<MountConfig>)
    ensures
        mount_views(r@) == mount_views(v@),
{
    let mut r: Vec<MountConfig> = Vec::new();
    let mut i: usize = 0;
    while i < v.len()
        invariant
            i <= v@.len(),
            r@.len() == i,
            forall|j: int| 0 <= j < i ==> (#[trigger] r@[j])@ == v@[j]@,
        decreases v@.len() - i,
    {
        r.push(v[i].clone());
        i = i + 1;
    }
    assert(mount_views(r@) =~= mount_views(v@));
    r
}

} // verus!
