//! Package specs, settings and how they combine.

use npxc::config::global::{Defaults, NpxcConfig};
use npxc::config::merge::merge;
use npxc::config::names::{check_version, clean_lowercase};
use npxc::config::package::{
    MountConfig, NetworkConfig, PackageConfig, RuntimeOverride, StorageConfig,
};
use npxc::config::resolve::{data_dir, validate_runtime};
use npxc::config::{
    config_dir, ensure_version_pinned, package_config_path, parse_package_spec,
    pin_package_version, resolve_config, sanitize_package_name, validate_package_name,
    validate_version, NetworkPolicy,
};
use npxc::error::NpxcError;
use npxc::paths::HostPath;

fn path(s: &str) -> HostPath {
    HostPath::from_text(s)
}

fn owned(list: &[&str]) -> Vec<String> {
    list.iter().map(|s| s.to_string()).collect()
}

// ── sanitize_package_name ─────────────────────────────────────────────────────

#[test]
fn sanitize_scoped_package() {
    assert_eq!(sanitize_package_name("@sylphx/pdf-reader-mcp"), "sylphx-pdf-reader-mcp");
}

#[test]
fn sanitize_unscoped_package() {
    assert_eq!(sanitize_package_name("express"), "express");
}

#[test]
fn sanitize_scoped_no_hyphen() {
    assert_eq!(sanitize_package_name("@scope/name"), "scope-name");
}

#[test]
fn sanitize_preserves_existing_hyphens() {
    assert_eq!(sanitize_package_name("@org/my-package"), "org-my-package");
}

#[test]
fn sanitize_folds_case_and_is_stable() {
    let once = sanitize_package_name("@Org/My.Pkg_1");
    assert_eq!(sanitize_package_name(&once), once);
    assert!(once.starts_with("org-my"));
    assert!(!once.contains('/'));
    assert_eq!(sanitize_package_name("ÉCOLE"), clean_lowercase("école"));
}

#[test]
fn identifiers_are_stable_in_every_script() {
    let stable = |name: &str| {
        let id = sanitize_package_name(name);
        assert_eq!(sanitize_package_name(&id), id, "{name:?}");
        assert_eq!(id.to_lowercase(), id, "{name:?}");
    };
    for name in ["@ΟΔΟΣ/ΣΊΣΥΦΟΣ", "İSTANBUL", "K", "ẞ-ÅΩ", "ǅ/ᲐᲑᲒ"] {
        stable(name);
    }
    let mut chunk = String::new();
    for c in '\0'..=char::MAX {
        chunk.push(c);
        if chunk.len() > 16384 || c == char::MAX {
            stable(&chunk);
            chunk.clear();
        }
    }
}

#[test]
fn package_files_stay_in_the_package_directory() {
    for name in ["pkg", "../../etc/passwd", "/abs", "..", "", "@a/../b", "é/ü"] {
        let file = package_config_path(name, &path("/cfg"));
        assert_eq!(file.parent().unwrap().lossy(), "/cfg/packages", "{name:?}");
    }
}

// ── parse_package_spec ────────────────────────────────────────────────────────

#[test]
fn parse_scoped_with_version() {
    let (name, ver) = parse_package_spec("@scope/name@1.2.3");
    assert_eq!(name, "@scope/name");
    assert_eq!(ver, Some("1.2.3".to_string()));
}

#[test]
fn parse_scoped_without_version() {
    let (name, ver) = parse_package_spec("@scope/name");
    assert_eq!(name, "@scope/name");
    assert_eq!(ver, None);
}

#[test]
fn parse_unscoped_with_version() {
    let (name, ver) = parse_package_spec("express@4.18.0");
    assert_eq!(name, "express");
    assert_eq!(ver, Some("4.18.0".to_string()));
}

#[test]
fn parse_unscoped_without_version() {
    let (name, ver) = parse_package_spec("express");
    assert_eq!(name, "express");
    assert_eq!(ver, None);
}

#[test]
fn parse_empty_spec_does_not_panic() {
    assert_eq!(parse_package_spec(""), (String::new(), None));
}

#[test]
fn parse_non_ascii_leading_char_does_not_panic() {
    let (name, ver) = parse_package_spec("é-pkg");
    assert_eq!(name, "é-pkg");
    assert_eq!(ver, None);
}

#[test]
fn parse_scope_only_marker() {
    assert_eq!(parse_package_spec("@"), ("@".to_string(), None));
}

#[test]
fn parse_trailing_at_yields_no_version() {
    let (name, ver) = parse_package_spec("@scope/name@");
    assert_eq!(name, "@scope/name");
    assert_eq!(ver, None);
}

#[test]
fn spec_with_version_comes_apart_again() {
    let spec = format!("{}@{}", "@scope/name", "1.2.3");
    assert_eq!(parse_package_spec(&spec), ("@scope/name".to_string(), Some("1.2.3".to_string())));
}

// ── validate_package_name ─────────────────────────────────────────────────────

#[test]
fn validate_name_accepts_common_forms() {
    for ok in ["express", "@scope/name", "@sylphx/pdf-reader-mcp", "my.pkg_name-1"] {
        assert!(validate_package_name(ok).is_ok(), "{ok:?} should be valid");
    }
}

#[test]
fn validate_name_rejects_injection_and_malformed() {
    for bad in [
        "",
        "foo\";rm -rf /",
        "foo bar",
        "@scope",
        "@scope/",
        "@/name",
        ".hidden",
        "_private",
        "foo/bar",
        "foo$(touch x)",
    ] {
        assert!(validate_package_name(bad).is_err(), "{bad:?} should be rejected");
    }
}

#[test]
fn validate_name_bounds_the_length() {
    assert!(validate_package_name(&"a".repeat(214)).is_ok());
    assert!(matches!(validate_package_name(&"a".repeat(215)), Err(NpxcError::Config(_))));
}

// ── validate_version ──────────────────────────────────────────────────────────

#[test]
fn validate_version_accepts_semver_and_tags() {
    for ok in ["1.2.3", "0.4.2-rc.1", "10.0.0+build.5", "latest", "next"] {
        assert!(validate_version(ok).is_ok(), "{ok:?} should be valid");
    }
}

#[test]
fn validate_version_rejects_unsafe_ranges_and_injection() {
    for bad in ["^1.2.0", ">=1 <2", "", "v1.0.0 ; rm", "`whoami`"] {
        assert!(validate_version(bad).is_err(), "{bad:?} should be rejected");
    }
}

#[test]
fn version_check_follows_the_parser() {
    // The plus sign is no tag character: only the parser's word admits it.
    assert!(check_version("10.0.0+build.5", true).is_ok());
    assert!(check_version("10.0.0+build.5", false).is_err());
    assert!(check_version("latest", false).is_ok());
}

// ── merge ─────────────────────────────────────────────────────────────────────

#[test]
fn merge_defaults_when_no_package_config() {
    let global = NpxcConfig::default();
    let eff = merge(&global, None);
    assert_eq!(eff.memory, "512m");
    assert_eq!(eff.cpus, "1");
    assert_eq!(eff.network.to_string(), "none");
    assert_eq!(eff.node_image, "node:lts-slim");
    assert!(eff.version.is_none());
    assert!(eff.path_arguments.is_empty());
}

#[test]
fn merge_package_runtime_overrides_globals() {
    let global = NpxcConfig::default();
    let pkg = PackageConfig {
        version: Some("1.0.0".to_string()),
        runtime: Some(RuntimeOverride {
            memory: Some("2g".to_string()),
            cpus: None,
            network: Some("bridge".to_string()),
        }),
        ..Default::default()
    };
    let eff = merge(&global, Some(&pkg));
    assert_eq!(eff.memory, "2g");
    assert_eq!(eff.cpus, "1");
    assert_eq!(eff.network.to_string(), "bridge");
    assert_eq!(eff.version, Some("1.0.0".to_string()));
}

#[test]
fn network_table_overrides_the_runtime_field() {
    let pkg = PackageConfig {
        runtime: Some(RuntimeOverride {
            memory: None,
            cpus: None,
            network: Some("bridge".to_string()),
        }),
        network: Some(NetworkConfig {
            mode: "allowlist".to_string(),
            allow: owned(&["example.com:443"]),
        }),
        ..Default::default()
    };
    let eff = merge(&NpxcConfig::default(), Some(&pkg));
    assert_eq!(eff.network, NetworkPolicy::Allowlist { allow: owned(&["example.com:443"]) });
}

#[test]
fn networks_are_shown_and_judged() {
    assert_eq!(NetworkPolicy::NoNetwork.to_string(), "none");
    assert_eq!(NetworkPolicy::Named("bridge".to_string()).to_string(), "bridge");
    let allow = NetworkPolicy::Allowlist { allow: owned(&["a.example", "b.example"]) };
    assert!(allow.to_string().starts_with("allowlist (2"));
    assert!(!NetworkPolicy::NoNetwork.is_unusual());
}

// ── resolve_config ────────────────────────────────────────────────────────────

#[test]
fn global_defaults_only() {
    let (eff, pkg_name, version) =
        resolve_config("simple-pkg", &NpxcConfig::default(), None).unwrap();

    assert_eq!(pkg_name, "simple-pkg");
    assert_eq!(version, "latest");
    assert_eq!(eff.node_image, "node:lts-slim");
    assert_eq!(eff.memory, "512m");
    assert_eq!(eff.cpus, "1");
    assert_eq!(eff.network, NetworkPolicy::NoNetwork);
    assert_eq!(eff.mount_mode, "ro");
    assert!(eff.path_arguments.is_empty());
    assert!(eff.non_path_arguments.is_empty());
    assert!(eff.version.is_none());
}

#[test]
fn package_runtime_memory_overrides_global() {
    let pkg = PackageConfig {
        package: Some("pdf-tool".to_string()),
        version: Some("1.0.0".to_string()),
        runtime: Some(RuntimeOverride {
            memory: Some("2g".to_string()),
            cpus: None,
            network: None,
        }),
        ..Default::default()
    };

    let (eff, _, _) = resolve_config("pdf-tool", &NpxcConfig::default(), Some(&pkg)).unwrap();

    assert_eq!(eff.memory, "2g", "[runtime] memory should override global default");
    assert_eq!(eff.cpus, "1", "cpus should remain at global default");
    assert_eq!(eff.network, NetworkPolicy::NoNetwork, "network should remain at global default");
}

#[test]
fn package_runtime_partial_override_leaves_others_at_global() {
    let pkg = PackageConfig {
        package: Some("mypkg".to_string()),
        runtime: Some(RuntimeOverride {
            memory: None,
            cpus: None,
            network: Some("bridge".to_string()),
        }),
        ..Default::default()
    };

    let (eff, _, _) = resolve_config("mypkg", &NpxcConfig::default(), Some(&pkg)).unwrap();

    assert_eq!(eff.network, NetworkPolicy::Named("bridge".to_string()));
    assert_eq!(eff.memory, "512m", "unset runtime fields fall back to global");
    assert_eq!(eff.cpus, "1", "unset runtime fields fall back to global");
}

#[test]
fn package_path_arguments_present_in_effective_config() {
    let mut pkg = PackageConfig {
        package: Some("@scope/tool".to_string()),
        version: Some("0.1.0".to_string()),
        ..Default::default()
    };
    pkg.path_arguments.insert("*".to_string(), owned(&["path", "file"]));
    pkg.path_arguments.insert("read_pdf".to_string(), owned(&["input"]));

    let (eff, _, _) = resolve_config("@scope/tool", &NpxcConfig::default(), Some(&pkg)).unwrap();

    assert_eq!(
        eff.path_arguments.get("*").unwrap(),
        &vec!["path".to_string(), "file".to_string()],
    );
    assert_eq!(eff.path_arguments.get("read_pdf").unwrap(), &vec!["input".to_string()]);
}

#[test]
fn package_non_path_arguments_present_in_effective_config() {
    let mut pkg = PackageConfig { package: Some("filter-pkg".to_string()), ..Default::default() };
    pkg.non_path_arguments.insert("*".to_string(), owned(&["url", "query"]));

    let (eff, _, _) = resolve_config("filter-pkg", &NpxcConfig::default(), Some(&pkg)).unwrap();

    assert_eq!(
        eff.non_path_arguments.get("*").unwrap(),
        &vec!["url".to_string(), "query".to_string()],
    );
}

// ── pinning ───────────────────────────────────────────────────────────────────

#[test]
fn mod_pin_and_load_round_trip() {
    let pkg = "@scope/mypkg";
    let loaded = pin_package_version(pkg, "2.3.4", None);
    assert_eq!(loaded.version, Some("2.3.4".to_string()));
    assert_eq!(loaded.package, Some(pkg.to_string()));
}

#[test]
fn mod_ensure_version_pinned_is_idempotent() {
    let pkg = "mypackage";
    let pinned = pin_package_version(pkg, "1.0.0", None);
    assert!(
        ensure_version_pinned(pkg, "1.0.0", Some(pinned)).is_none(),
        "file should not have been rewritten"
    );
}

#[test]
fn config_merge_pin_and_load_round_trip() {
    let pkg = "@scope/mypkg";
    let loaded = pin_package_version(pkg, "2.3.4", None);
    assert_eq!(loaded.version, Some("2.3.4".to_string()));
    assert_eq!(loaded.package, Some(pkg.to_string()));
    assert_eq!(
        package_config_path(pkg, &path("/cfg")).lossy(),
        "/cfg/packages/scope-mypkg.toml"
    );
}

#[test]
fn pin_preserves_existing_fields() {
    let pkg = "preserve-pkg";
    let existing = PackageConfig {
        package: Some(pkg.to_string()),
        version: Some("0.1.0".to_string()),
        runtime: Some(RuntimeOverride {
            memory: Some("1g".to_string()),
            cpus: None,
            network: None,
        }),
        ..Default::default()
    };

    let loaded = pin_package_version(pkg, "0.2.0", Some(existing));
    assert_eq!(loaded.version, Some("0.2.0".to_string()));
    assert_eq!(
        loaded.runtime.as_ref().unwrap().memory,
        Some("1g".to_string()),
        "existing [runtime] fields must be preserved after a pin update"
    );
}

#[test]
fn config_merge_ensure_version_pinned_is_idempotent() {
    let pkg = "idempotent-pkg";
    let pinned = pin_package_version(pkg, "1.0.0", None);
    assert!(
        ensure_version_pinned(pkg, "1.0.0", Some(pinned)).is_none(),
        "file must not be rewritten when version already matches"
    );
}

#[test]
fn ensure_version_pinned_writes_when_version_differs() {
    let pkg = "update-pkg";
    let pinned = pin_package_version(pkg, "1.0.0", None);
    let loaded = ensure_version_pinned(pkg, "2.0.0", Some(pinned)).unwrap();
    assert_eq!(loaded.version, Some("2.0.0".to_string()));
}

// ── version resolution ────────────────────────────────────────────────────────

#[test]
fn resolve_config_version_from_spec() {
    let (_, pkg_name, version) =
        resolve_config("@scope/pkg@1.2.3", &NpxcConfig::default(), None).unwrap();

    assert_eq!(pkg_name, "@scope/pkg");
    assert_eq!(version, "1.2.3", "version embedded in spec should be used");
}

#[test]
fn resolve_config_no_version_defaults_to_latest() {
    let (_, pkg_name, version) =
        resolve_config("@scope/pkg", &NpxcConfig::default(), None).unwrap();

    assert_eq!(pkg_name, "@scope/pkg");
    assert_eq!(version, "latest");
}

#[test]
fn resolve_config_uses_pinned_version_from_package_file() {
    let pinned = pin_package_version("@scope/pkg", "0.4.2", None);

    let (_, pkg_name, version) =
        resolve_config("@scope/pkg", &NpxcConfig::default(), Some(&pinned)).unwrap();

    assert_eq!(pkg_name, "@scope/pkg");
    assert_eq!(version, "0.4.2", "pinned config version should take precedence over 'latest'");
}

#[test]
fn resolve_config_spec_version_wins_over_pinned() {
    let pinned = pin_package_version("@scope/pkg", "0.4.2", None);

    let (_, _, version) =
        resolve_config("@scope/pkg@1.9.9", &NpxcConfig::default(), Some(&pinned)).unwrap();

    assert_eq!(version, "1.9.9", "CLI spec version must beat pinned config version");
}

#[test]
fn global_config_custom_defaults_respected() {
    let global = NpxcConfig {
        defaults: Defaults {
            memory: "1g".to_string(),
            cpus: "2.0".to_string(),
            ..Default::default()
        },
        ..Default::default()
    };

    let (eff, _, _) = resolve_config("any-pkg", &global, None).unwrap();

    assert_eq!(eff.memory, "1g");
    assert_eq!(eff.cpus, "2.0");
    assert_eq!(
        eff.network,
        NetworkPolicy::NoNetwork,
        "unset fields still use compiled defaults"
    );
}

#[test]
fn resolve_config_refuses_bad_names_and_versions() {
    let global = NpxcConfig::default();
    assert!(matches!(resolve_config("foo bar", &global, None), Err(NpxcError::Config(_))));
    assert!(matches!(resolve_config("foo@^1.0", &global, None), Err(NpxcError::Config(_))));
}

#[test]
fn runtime_validation_reads_the_allowlist() {
    let mut eff = merge(&NpxcConfig::default(), None);
    assert!(validate_runtime(&eff).is_ok());
    eff.network = NetworkPolicy::Allowlist { allow: owned(&["bad:port"]) };
    assert!(matches!(validate_runtime(&eff), Err(NpxcError::Config(_))));
}

// ── directories ───────────────────────────────────────────────────────────────

#[test]
fn config_dir_follows_override_then_environment_then_home() {
    let home = path("/home/u");
    let xdg = path("/xdg");
    let relative = path("xdg");
    let given = path("/etc/npxc/npxc.toml");
    let dir = |a: Option<&HostPath>, b: Option<&HostPath>| {
        config_dir(a, b, Some(&home)).unwrap().lossy()
    };
    assert_eq!(dir(Some(&given), Some(&xdg)), "/etc/npxc");
    assert_eq!(dir(None, Some(&xdg)), "/xdg/npxc");
    assert_eq!(dir(None, Some(&relative)), "/home/u/.config/npxc");
    assert_eq!(dir(None, None), "/home/u/.config/npxc");
    assert_eq!(data_dir(None, Some(&home)).unwrap().lossy(), "/home/u/.local/share/npxc");
    assert_eq!(data_dir(Some(&xdg), Some(&home)).unwrap().lossy(), "/xdg/npxc");
}

#[test]
fn package_settings_are_copied_into_the_effective_config() {
    let mut pkg = PackageConfig {
        env_passthrough: owned(&["TOKEN"]),
        storage: Some(StorageConfig { persist: true, writable: owned(&["/cache"]) }),
        mounts: vec![MountConfig {
            host: "data".to_string(),
            container: "/data".to_string(),
            mode: "rw".to_string(),
        }],
        ..Default::default()
    };
    pkg.env.insert("A".to_string(), "1".to_string());
    let eff = merge(&NpxcConfig::default(), Some(&pkg));
    assert_eq!(eff.env.get("A").unwrap(), "1");
    assert_eq!(eff.env_passthrough, owned(&["TOKEN"]));
    assert!(eff.storage.as_ref().unwrap().persist);
    assert_eq!(eff.storage.as_ref().unwrap().writable, owned(&["/cache"]));
    assert_eq!(eff.mounts[0].container, "/data");
}
