//! The global settings.
use vstd::prelude::*;

use crate::text;

verus! {

/// The settings of `npxc.toml`.
#[derive(Debug)]
pub struct NpxcConfig {
    pub defaults: Defaults,
    pub paths: PathsConfig,
}

/// Execution defaults that a package can override.
#[derive(Debug)]
pub struct Defaults {
    pub node_image: String,
    pub container_cli: String,
    pub network: String,
    pub memory: String,
    pub cpus: String,
    pub mount_mode: String,
    pub log_level: String,
}

/// How tool arguments are recognized as paths.
#[derive(Debug)]
pub struct PathsConfig {
    /// Ordered list of strategies: `"config"`, `"schema"`, `"heuristic"`.
    pub strategies: Vec<String>,
    pub heuristic: HeuristicConfig,
}

/// Rules of the `"heuristic"` strategy.
#[derive(Debug)]
pub struct HeuristicConfig {
    /// Treat arguments that look like absolute paths as file paths.
    pub absolute_prefix: bool,
    /// Treat arguments that start with `~/` as file paths.
    pub home_prefix: bool,
    /// URI prefixes whose presence indicates a file path argument.
    pub uri_prefix: Vec<String>,
}

impl Default for Defaults {
    fn default() -> (r: Self)
        ensures
            r.node_image@ == "node:lts-slim"@,
            r.container_cli@ == "container"@,
            r.network@ == "none"@,
            r.memory@ == "512m"@,
            r.cpus@ == "1"@,
            r.mount_mode@ == "ro"@,
            r.log_level@ == "warn"@,
    {
        Defaults {
            node_image: "node:lts-slim".to_owned(),
            container_cli: "container".to_owned(),
            network: "none".to_owned(),
            memory: "512m".to_owned(),
            cpus: "1".to_owned(),
            mount_mode: "ro".to_owned(),
            log_level: "warn".to_owned(),
        }
    }
}

impl Default for HeuristicConfig {
    fn default() -> (r: Self)
        ensures
            r.absolute_prefix,
            r.home_prefix,
            text::texts(r.uri_prefix@) == seq!["file://"@],
    {
        let mut uri_prefix: Vec<String> = Vec::new();
        uri_prefix.push("file://".to_owned());
        assert(text::texts(uri_prefix@) =~= seq!["file://"@]);
        HeuristicConfig { absolute_prefix: true, home_prefix: true, uri_prefix }
    }
}

impl Default for PathsConfig {
    fn default() -> (r: Self)
        ensures
            text::texts(r.strategies@) == seq!["config"@, "schema"@, "heuristic"@],
            r.heuristic.absolute_prefix,
            r.heuristic.home_prefix,
            text::texts(r.heuristic.uri_prefix@) == seq!["file://"@],
    {
        let mut strategies: Vec<String> = Vec::new();
        strategies.push("config".to_owned());
        strategies.push("schema".to_owned());
        strategies.push("heuristic".to_owned());
        assert(text::texts(strategies@) =~= seq!["config"@, "schema"@, "heuristic"@]);
        PathsConfig { strategies, heuristic: HeuristicConfig::default() }
    }
}

impl Default for NpxcConfig {
    fn default() -> (r: Self)
        ensures
            r.defaults.node_image@ == "node:lts-slim"@,
            r.defaults.container_cli@ == "container"@,
            r.defaults.network@ == "none"@,
            r.defaults.memory@ == "512m"@,
            r.defaults.cpus@ == "1"@,
            r.defaults.mount_mode@ == "ro"@,
            r.defaults.log_level@ == "warn"@,
            text::texts(r.paths.strategies@) == seq!["config"@, "schema"@, "heuristic"@],
            r.paths.heuristic.absolute_prefix,
            r.paths.heuristic.home_prefix,
            text::texts(r.paths.heuristic.uri_prefix@) == seq!["file://"@],
    {
        NpxcConfig { defaults: Defaults::default(), paths: PathsConfig::default() }
    }
}

} // verus!
