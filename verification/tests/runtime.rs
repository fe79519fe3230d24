//! Images, networks, mounts and launch plans.

use std::path::Path;

use npxc::config::merge::{EffectiveConfig, NetworkPolicy};
use npxc::config::package::{MountConfig, StorageConfig};
use npxc::error::NpxcError;
use npxc::paths::validate::expand_path;
use npxc::paths::HostPath;
use npxc::runtime::command::{code_text, command_error, spawn_error, Outcome};
use npxc::runtime::image::{
    build_args, build_image, builder_cleanup, dockerfile, ensure_image, image_exists,
    image_exists_args, image_tag, list_args, list_images, next_image_step, remove_args,
    remove_image, wg_base_args, wg_base_tag, ContainerImage, ImageStep,
};
use npxc::runtime::lifecycle::{advance, begin, exit_status, Ending, Run, RunEvent, RunStep};
use npxc::runtime::network::{
    create_args, created, delete_with_retry, inspect_args, inspected, network_name,
    parse_inspect, settle_network, DeleteStep, ManagedNetwork, NetworkInspect,
    NetworkInspectStatus, NetworkSetup, Provision,
};
use npxc::runtime::session::{
    is_persistent, mount_request, run_args, session_prefix, storage_dir, teardown, CleanupStep,
    LaunchPlan, Mount, MountMode,
};
use npxc::table::Table;

fn base_config() -> EffectiveConfig {
    EffectiveConfig {
        node_image: String::new(),
        container_cli: String::new(),
        network: NetworkPolicy::NoNetwork,
        memory: String::new(),
        cpus: String::new(),
        mount_mode: String::new(),
        log_level: String::new(),
        strategies: vec![],
        heuristic_absolute_prefix: false,
        heuristic_home_prefix: false,
        heuristic_uri_prefix: vec![],
        version: None,
        path_arguments: Table::new(),
        non_path_arguments: Table::new(),
        env: Table::new(),
        env_passthrough: vec![],
        storage: None,
        mounts: vec![],
    }
}

fn host(path: &Path) -> HostPath {
    HostPath::from_text(path.to_str().unwrap())
}

fn new_dir(name: &str, dir: &Path) -> tempfile::TempDir {
    tempfile::Builder::new().prefix(name).rand_bytes(0).tempdir_in(dir).unwrap()
}

fn tmp() -> tempfile::TempDir {
    tempfile::tempdir().unwrap()
}

/// A plan with every path resolved on the real filesystem, and data below `/data-home`.
fn plan(
    pkg: &str,
    config: &EffectiveConfig,
    cwd: &Path,
    args: Vec<String>,
    no_isolate: bool,
) -> Result<LaunchPlan, NpxcError> {
    let home = HostPath::from_text("/home/nobody");
    let resolutions: Vec<Option<HostPath>> = config
        .mounts
        .iter()
        .map(|mc| expand_path(&mount_request(mc, &host(cwd)), &home).lossy())
        .map(|text| Path::new(&text).canonicalize().ok().as_deref().map(host))
        .collect();
    let storage = storage_dir(pkg, &HostPath::from_text("/data-home"));
    let canonical_cwd = cwd.canonicalize().as_deref().map(host).map_err(|e| e.to_string());
    LaunchPlan::build(config, &host(cwd), args, no_isolate, &resolutions, Ok(storage), canonical_cwd)
}

fn mount_config(host: &str, container: &str, mode: &str) -> MountConfig {
    MountConfig { host: host.into(), container: container.into(), mode: mode.into() }
}

fn texts(list: &[&str]) -> Vec<String> {
    list.iter().map(|s| s.to_string()).collect()
}

// ── launch plans ──────────────────────────────────────────────────────────────

#[test]
fn env_literal_populated_from_config() {
    let cwd = tmp();
    let mut config = base_config();
    config.env.insert("FOO".into(), "bar".into());
    config.env.insert("BAZ".into(), "qux".into());

    let plan = plan("pkg", &config, cwd.path(), vec![], false).unwrap();

    let mut got: Vec<(String, String)> = plan.env_literal;
    got.sort();
    assert_eq!(got, [("BAZ".into(), "qux".into()), ("FOO".into(), "bar".into())]);
}

#[test]
fn env_passthrough_populated_from_config() {
    let cwd = tmp();
    let mut config = base_config();
    config.env_passthrough = vec!["SECRET".into(), "TOKEN".into()];

    let plan = plan("pkg", &config, cwd.path(), vec![], false).unwrap();

    assert_eq!(plan.env_passthrough, ["SECRET", "TOKEN"]);
}

#[test]
fn args_forwarded_verbatim() {
    let cwd = tmp();
    let args: Vec<String> = vec!["--port".into(), "3000".into()];

    let plan = plan("pkg", &base_config(), cwd.path(), args.clone(), false).unwrap();

    assert_eq!(plan.args, args);
}

#[test]
fn config_mount_absolute_ro_validated_and_added() {
    let cwd = tmp();
    let subdir = new_dir("data", cwd.path());

    let mut config = base_config();
    config.mounts = vec![mount_config(subdir.path().to_str().unwrap(), "/data", "ro")];

    let plan = plan("pkg", &config, cwd.path(), vec![], false).unwrap();

    let canonical_cwd = cwd.path().canonicalize().unwrap();
    assert_eq!(plan.mounts.len(), 1);
    assert_eq!(plan.mounts[0].container, "/data");
    assert_eq!(plan.mounts[0].mode, MountMode::Ro);
    assert!(plan.mounts[0].host.starts_with(&host(&canonical_cwd)));
}

#[test]
fn config_mount_relative_path_resolved_against_cwd() {
    let cwd = tmp();
    let sub = new_dir("sub", cwd.path());

    let mut config = base_config();
    config.mounts = vec![mount_config("sub", "/sub", "ro")];

    let plan = plan("pkg", &config, cwd.path(), vec![], false).unwrap();

    assert_eq!(plan.mounts.len(), 1);
    assert_eq!(plan.mounts[0].host, host(&sub.path().canonicalize().unwrap()));
}

#[test]
fn config_mount_rw_mode_parsed_correctly() {
    let cwd = tmp();
    let rw = new_dir("rw", cwd.path());

    let mut config = base_config();
    config.mounts = vec![mount_config(rw.path().to_str().unwrap(), "/rw", "rw")];

    let plan = plan("pkg", &config, cwd.path(), vec![], false).unwrap();

    assert_eq!(plan.mounts[0].mode, MountMode::Rw);
}

#[test]
fn config_mount_outside_cwd_is_rejected() {
    let cwd = tmp();
    let outside = tmp();

    let mut config = base_config();
    config.mounts = vec![mount_config(outside.path().to_str().unwrap(), "/outside", "ro")];

    let result = plan("pkg", &config, cwd.path(), vec![], false);
    assert!(matches!(result, Err(NpxcError::PathOutOfScope { .. })));
}

#[test]
fn config_mount_nonexistent_path_is_rejected() {
    let cwd = tmp();

    let mut config = base_config();
    let missing = cwd.path().join("no-such-dir");
    config.mounts = vec![mount_config(missing.to_str().unwrap(), "/missing", "ro")];

    let result = plan("pkg", &config, cwd.path(), vec![], false);
    assert!(matches!(result, Err(NpxcError::PathNotFound(_))));
}

#[test]
fn no_isolate_appends_cwd_ro_mount() {
    let cwd = tmp();
    let canonical_cwd = cwd.path().canonicalize().unwrap();

    let plan = plan("pkg", &base_config(), cwd.path(), vec![], true).unwrap();

    assert_eq!(plan.mounts.len(), 1);
    let m = &plan.mounts[0];
    assert_eq!(m.mode, MountMode::Ro);
    assert_eq!(m.host, host(&canonical_cwd));
    assert_eq!(m.container, canonical_cwd.to_string_lossy());
}

#[test]
fn no_isolate_false_adds_no_cwd_mount() {
    let cwd = tmp();
    let plan = plan("pkg", &base_config(), cwd.path(), vec![], false).unwrap();
    assert!(plan.mounts.is_empty());
}

#[test]
fn persist_storage_mounts_data_dir_rw() {
    let cwd = tmp();
    let mut config = base_config();
    config.storage = Some(StorageConfig { persist: true, writable: vec![] });

    let plan = plan("@scope/my-pkg", &config, cwd.path(), vec![], false).unwrap();

    assert_eq!(plan.mounts.len(), 1);
    let m = &plan.mounts[0];
    assert_eq!(m.container, "/data");
    assert_eq!(m.mode, MountMode::Rw);
    assert_eq!(m.host.lossy(), "/data-home/packages/scope-my-pkg");
}

#[test]
fn no_persist_adds_no_mount() {
    let cwd = tmp();
    let mut config = base_config();
    config.storage = Some(StorageConfig { persist: false, writable: vec![] });

    let plan = plan("pkg", &config, cwd.path(), vec![], false).unwrap();
    assert!(plan.mounts.is_empty());
    assert!(!is_persistent(&config));
}

#[test]
fn storage_errors_matter_to_packages_that_persist() {
    let mut config = base_config();
    let cwd = HostPath::from_text("/cwd");
    let build = |config: &EffectiveConfig| {
        LaunchPlan::build(
            config,
            &cwd,
            vec![],
            true,
            &vec![],
            Err(NpxcError::Io("full".to_string())),
            Err("gone".to_string()),
        )
    };
    let plan = build(&config).unwrap();
    assert_eq!(plan.mounts[0].host.lossy(), "/cwd");
    config.storage = Some(StorageConfig { persist: true, writable: vec![] });
    assert!(matches!(build(&config), Err(NpxcError::Io(m)) if m == "full"));
}

#[test]
fn the_first_refused_mount_is_reported() {
    let mut config = base_config();
    config.mounts =
        vec![mount_config("a", "/a", "ro"), mount_config("b", "/b", "ro"), mount_config("c", "/c", "ro")];
    let cwd = HostPath::from_text("/cwd");
    let result = LaunchPlan::build(
        &config,
        &cwd,
        vec![],
        false,
        &vec![Some(HostPath::from_text("/cwd/a")), None, Some(HostPath::from_text("/else"))],
        Ok(HostPath::from_text("/data")),
        Ok(HostPath::from_text("/cwd")),
    );
    assert!(matches!(result, Err(NpxcError::PathNotFound(p)) if p == "/cwd/b"));
}

#[test]
fn modes_are_read_only_unless_said_otherwise() {
    assert_eq!(MountMode::from_config_str("rw"), MountMode::Rw);
    assert_eq!(MountMode::from_config_str("ro"), MountMode::Ro);
    assert_eq!(MountMode::from_config_str("RW"), MountMode::Ro);
    assert_eq!(MountMode::Rw.as_str(), "rw");
}

// ── the launch command ────────────────────────────────────────────────────────

#[test]
fn launches_are_confined() {
    let mut config = base_config();
    config.memory = "512m".into();
    config.cpus = "1".into();
    config.mount_mode = "ro".into();
    config.storage = Some(StorageConfig { persist: false, writable: texts(&["/cache"]) });
    let mut plan = LaunchPlan::default();
    plan.mounts = vec![Mount {
        host: HostPath::from_text("/h"),
        container: "/c".into(),
        mode: MountMode::Rw,
    }];
    plan.env_literal = vec![("A".into(), "1".into())];
    plan.env_passthrough = texts(&["B"]);
    plan.args = texts(&["--flag", "x"]);
    let args = run_args(
        "@scope/pkg",
        "npxc/scope-pkg:1.0.0",
        &config,
        "none",
        &plan,
        &HostPath::from_text("/session"),
        42,
    );
    let name = format!("{}42", session_prefix("@scope/pkg"));
    assert_eq!(
        args,
        texts(&[
            "run", "--rm", "-i", "--progress", "none", "--name", &name, "--network", "none",
            "--read-only", "--tmpfs", "/tmp", "--cap-drop", "ALL", "-m", "512m", "-c", "1",
            "--tmpfs", "/cache", "-v", "/session:/workspace:ro", "-v", "/h:/c:rw", "-e", "A=1",
            "-e", "B", "npxc/scope-pkg:1.0.0", "--flag", "x",
        ])
    );
}

#[test]
fn nothing_is_granted_by_default() {
    let mut config = base_config();
    config.memory = "512m".into();
    config.cpus = "1".into();
    config.mount_mode = "ro".into();
    let cwd = tmp();
    let plan = plan("pkg", &config, cwd.path(), vec![], false).unwrap();
    let args = run_args(
        "pkg",
        "npxc/pkg:1.0.0",
        &config,
        "none",
        &plan,
        &HostPath::from_text("/session"),
        7,
    );
    assert_eq!(
        args,
        texts(&[
            "run", "--rm", "-i", "--progress", "none", "--name", "npxc-pkg-7", "--network", "none",
            "--read-only", "--tmpfs", "/tmp", "--cap-drop", "ALL", "-m", "512m", "-c", "1", "-v",
            "/session:/workspace:ro", "npxc/pkg:1.0.0",
        ])
    );
}

#[test]
fn tunnels_add_what_the_guest_needs() {
    let mut plan = LaunchPlan::default();
    plan.add_tunnel(
        &vec![("NPXC_WG_MTU".to_string(), "1380".to_string())],
        HostPath::from_text("/tmp/resolv"),
    );
    assert_eq!(plan.env_literal, vec![("NPXC_WG_MTU".to_string(), "1380".to_string())]);
    assert_eq!(plan.mounts[0].container, "/etc/resolv.conf");
    assert_eq!(plan.mounts[0].mode, MountMode::Ro);
    assert!(plan.cap_add.contains(&"NET_ADMIN".to_string()));
}

#[test]
fn the_network_outlives_the_container() {
    assert_eq!(
        teardown(true, true),
        vec![CleanupStep::StopContainer, CleanupStep::RemoveWorkspace, CleanupStep::DeleteNetwork]
    );
    assert_eq!(teardown(false, false), vec![CleanupStep::RemoveWorkspace]);
}

// ── networks ──────────────────────────────────────────────────────────────────

/// The text member of a value.
fn text_member(value: &serde_json::Value, key: &str) -> Result<String, String> {
    value[key].as_str().map(str::to_string).ok_or_else(|| format!("missing field `{key}`"))
}

/// The output of a command as an array of values.
fn values(json: &[u8]) -> Result<Vec<serde_json::Value>, String> {
    serde_json::from_slice(json).map_err(|e| e.to_string())
}

/// The output of `network inspect` as records.
fn networks(json: &[u8]) -> Result<Vec<NetworkInspect>, String> {
    let mut records = Vec::new();
    for value in values(json)? {
        let status = NetworkInspectStatus {
            ipv4_subnet: text_member(&value["status"], "ipv4Subnet")?,
            ipv4_gateway: text_member(&value["status"], "ipv4Gateway")?,
        };
        records.push(NetworkInspect { status });
    }
    Ok(records)
}

/// The output of `image list` as records.
fn images(json: &[u8]) -> Result<Vec<ContainerImage>, String> {
    let mut records = Vec::new();
    for value in values(json)? {
        records.push(ContainerImage { reference: text_member(&value, "reference")? });
    }
    Ok(records)
}

#[test]
fn parse_inspect_extracts_subnet_and_gateway() {
    let json = br#"[
      {
        "id": "npxc-abc",
        "configuration": { "id": "npxc-abc", "mode": "hostOnly" },
        "status": {
          "ipv4Subnet": "192.168.66.0/24",
          "ipv4Gateway": "192.168.66.1",
          "ipv6Subnet": "fd00::/64"
        }
      }
    ]"#;
    let (subnet, gateway) = parse_inspect(&networks(json)).unwrap();
    assert_eq!(subnet, "192.168.66.0/24");
    assert_eq!(gateway, "192.168.66.1");
}

#[test]
fn parse_inspect_empty_array_errors() {
    let err = parse_inspect(&networks(b"[]")).unwrap_err();
    assert!(matches!(err, NpxcError::Runtime(_)));
}

#[test]
fn parse_inspect_invalid_json_errors() {
    let err = parse_inspect(&networks(b"not json")).unwrap_err();
    assert!(matches!(err, NpxcError::Json(_)));
    assert!(matches!(
        parse_inspect(&networks(b"[{}]")),
        Err(NpxcError::Json(m)) if m == "missing field `ipv4Subnet`"
    ));
}

#[test]
fn the_first_network_counts() {
    let record = |n: &str| NetworkInspect {
        status: NetworkInspectStatus {
            ipv4_subnet: format!("10.0.{n}.0/24"),
            ipv4_gateway: format!("10.0.{n}.1"),
        },
    };
    assert_eq!(
        parse_inspect(&Ok(vec![record("4"), record("5")])).unwrap(),
        ("10.0.4.0/24".to_string(), "10.0.4.1".to_string())
    );
}

#[test]
fn provision_none_yields_none_arg_and_no_network() {
    match ManagedNetwork::provision(&NetworkPolicy::NoNetwork) {
        Provision::Ready(arg) => assert_eq!(arg, "none"),
        Provision::Create(_) => panic!("nothing is to be created"),
    }
}

#[test]
fn provision_named_passes_through_without_creating() {
    match ManagedNetwork::provision(&NetworkPolicy::Named("default".to_string())) {
        Provision::Ready(arg) => assert_eq!(arg, "default"),
        Provision::Create(_) => panic!("nothing is to be created"),
    }
}

#[test]
fn provision_allowlist_creates_a_fresh_network() {
    let policy = NetworkPolicy::Allowlist { allow: vec![] };
    match (ManagedNetwork::provision(&policy), ManagedNetwork::provision(&policy)) {
        (Provision::Create(a), Provision::Create(b)) => {
            assert_ne!(a, b);
            assert!(a.starts_with("npxc-"));
            assert!(a.chars().all(|c| c.is_ascii_lowercase() || c.is_ascii_digit() || c == '-'));
        }
        _ => panic!("networks are to be created"),
    }
}

#[test]
fn networks_are_created_inspected_and_deleted() {
    let name = network_name("a1b2-c3");
    assert!(name.starts_with("npxc-"));
    assert_eq!(create_args("n"), texts(&["network", "create", "--internal", "n"]));
    assert_eq!(inspect_args("n"), texts(&["network", "inspect", "n"]));
    let network = ManagedNetwork {
        name: "n".into(),
        container_cli: "container".into(),
        subnet: "192.168.66.0/24".into(),
        gateway: "192.168.66.1".into(),
    };
    assert_eq!(network.name(), "n");
    assert_eq!(network.delete_args(), texts(&["network", "delete", "n"]));
    assert!(network.delete(&Outcome::Exited(Some(0))).is_ok());
    let err = network.delete(&Outcome::Exited(Some(1))).unwrap_err();
    assert_eq!(
        err.to_string(),
        "Runtime error: failed to delete network 'n' (exit code: Some(1))"
    );
    assert!(created("container", "n", &Outcome::Exited(Some(0)), b"").is_ok());
    let err = created("container", "n", &Outcome::Exited(Some(1)), b" busy \n").unwrap_err();
    assert_eq!(
        err.to_string(),
        "Runtime error: `container network create --internal n` failed: busy"
    );
}

#[test]
fn deletion_is_retried_with_growing_delays() {
    assert_eq!(delete_with_retry(1, true), DeleteStep::Done);
    assert_eq!(delete_with_retry(1, false), DeleteStep::RetryAfter(150));
    assert_eq!(delete_with_retry(4, false), DeleteStep::RetryAfter(600));
    assert_eq!(delete_with_retry(5, false), DeleteStep::GiveUp);
}

#[test]
fn half_provisioned_networks_are_discarded() {
    let stdout = br#"[{"status": {"ipv4Subnet": "10.0.0.0/24", "ipv4Gateway": "10.0.0.1"}}]"#;
    let found = inspected("c", "n", &Outcome::Exited(Some(0)), &networks(stdout), b"");
    match settle_network("c", "n".into(), found) {
        NetworkSetup::Ready(net) => {
            assert_eq!((net.name(), net.gateway.as_str()), ("n", "10.0.0.1"));
            assert_eq!(net.subnet, "10.0.0.0/24");
        }
        other => panic!("{other:?}"),
    }
    let failed = inspected("c", "n", &Outcome::Exited(Some(1)), &networks(b""), b"gone\n");
    match settle_network("c", "n".into(), failed) {
        NetworkSetup::Discard(net, error) => {
            assert_eq!(net.delete_args(), texts(&["network", "delete", "n"]));
            assert_eq!(error.to_string(), "Runtime error: `c network inspect n` failed: gone");
        }
        other => panic!("{other:?}"),
    }
    let unstarted = inspected("c", "n", &Outcome::NotStarted("e".into()), &networks(b""), b"");
    assert!(matches!(unstarted, Err(NpxcError::RuntimeNotAvailable(_))));
}

// ── images ────────────────────────────────────────────────────────────────────

#[test]
fn tags_name_package_and_version() {
    assert_eq!(image_tag("@scope/pkg", "1.2.3"), "npxc/scope-pkg:1.2.3");
    assert!(wg_base_tag().starts_with("npxc/wg-base:"));
}

#[test]
fn images_are_looked_up_and_built() {
    assert_eq!(image_exists_args("t"), texts(&["image", "inspect", "t"]));
    assert!(image_exists("container", &Outcome::Exited(Some(0))).unwrap());
    assert!(!image_exists("container", &Outcome::Exited(Some(1))).unwrap());
    let err = image_exists("container", &Outcome::NotStarted("no such file".into())).unwrap_err();
    assert_eq!(
        err.to_string(),
        "Container runtime not available: failed to spawn 'container': no such file"
    );
    assert!(build_image("container", &Outcome::Exited(Some(0))).is_ok());
    assert!(matches!(
        build_image("container", &Outcome::Exited(Some(7))),
        Err(NpxcError::BuildFailed { code: Some(7) })
    ));
    assert!(matches!(
        build_image("container", &Outcome::Exited(None)),
        Err(NpxcError::BuildFailed { code: None })
    ));
}

#[test]
fn build_commands_carry_the_spec() {
    let mut config = base_config();
    config.node_image = "node:lts-slim".into();
    let args = build_args("@scope/pkg", "1.0.0", &config, "/ctx/Dockerfile", "/ctx", false);
    assert!(args.contains(&"PACKAGE_SPEC=@scope/pkg@1.0.0".to_string()));
    assert!(args.contains(&"NODE_IMAGE=node:lts-slim".to_string()));
    assert!(args.contains(&"npxc/scope-pkg:1.0.0".to_string()));
    assert_eq!(args.last().unwrap(), "/ctx");
    let forced = build_args("@scope/pkg", "1.0.0", &config, "/ctx/Dockerfile", "/ctx", true);
    assert_ne!(args, forced);
    assert!(wg_base_args("/f", "/ctx").contains(&wg_base_tag()));
    assert_eq!(
        dockerfile("FROM __NPXC_WG_BASE_IMAGE__ AS wg"),
        format!("FROM {} AS wg", wg_base_tag())
    );
    assert_eq!(builder_cleanup(), vec![texts(&["builder", "stop"]), texts(&["builder", "delete", "--force"])]);
}

#[test]
fn package_images_are_listed_without_the_base() {
    let stdout = br#"[
        {"reference": "npxc/scope-pkg:1.0.0"},
        {"reference": "npxc/wg-base:0.7.1"},
        {"reference": "docker.io/library/node:lts"},
        {"reference": "npxc/untagged"}
    ]"#;
    let listed = list_images("container", &Outcome::Exited(Some(0)), &images(stdout), b"").unwrap();
    assert_eq!(listed, vec![("npxc/scope-pkg".to_string(), "1.0.0".to_string())]);
    assert_eq!(list_args(), texts(&["image", "list", "--format", "json"]));
}

#[test]
fn list_failures_are_told_apart() {
    let exited = Outcome::Exited(Some(0));
    assert!(matches!(list_images("c", &exited, &images(b"{}"), b""), Err(NpxcError::Json(_))));
    assert!(matches!(list_images("c", &exited, &images(b"[{}]"), b""), Err(NpxcError::Json(_))));
    assert!(matches!(list_images("c", &exited, &images(b"["), b""), Err(NpxcError::Json(_))));
    assert!(matches!(
        list_images("c", &Outcome::Exited(Some(1)), &images(b"[]"), b"no\n"),
        Err(NpxcError::Runtime(m)) if m == "`c image list` failed: no"
    ));
    assert!(matches!(
        list_images("c", &Outcome::NotStarted("x".into()), &images(b""), b""),
        Err(NpxcError::RuntimeNotAvailable(_))
    ));
}

#[test]
fn images_are_removed() {
    assert_eq!(remove_args("t"), texts(&["image", "rm", "t"]));
    assert!(remove_image("c", "t", &Outcome::Exited(Some(0))).is_ok());
    assert!(matches!(
        remove_image("c", "t", &Outcome::Exited(Some(1))),
        Err(NpxcError::Runtime(_))
    ));
}

#[test]
fn command_errors_read_well() {
    assert_eq!(code_text(Some(-1)), "Some(-1)");
    assert_eq!(code_text(None), "None");
    assert_eq!(spawn_error("c", "e").exit_code(), 2);
    assert_eq!(
        command_error("c", "do it", &[b'b', b'a', b'd', 0xff]).to_string(),
        "Runtime error: `c do it` failed: bad\u{fffd}"
    );
}

#[test]
fn images_are_provided_step_by_step() {
    let ok = Outcome::Exited(Some(0));
    let bad = Outcome::Exited(Some(2));
    assert!(matches!(ensure_image(false), ImageStep::FindImage));
    assert!(matches!(ensure_image(true), ImageStep::FindBase));

    let (clean, step) = next_image_step(&ImageStep::FindImage, "c", &ok);
    assert!(!clean && matches!(step, ImageStep::Finished(Ok(()))));
    let (_, step) = next_image_step(&ImageStep::FindImage, "c", &bad);
    assert!(matches!(step, ImageStep::FindBase));
    let (_, step) = next_image_step(&step, "c", &bad);
    assert!(matches!(step, ImageStep::BuildBase));
    let (clean, step) = next_image_step(&step, "c", &ok);
    assert!(clean && matches!(step, ImageStep::BuildPackage));
    let (clean, step) = next_image_step(&step, "c", &bad);
    assert!(clean);
    assert!(matches!(step, ImageStep::Finished(Err(NpxcError::BuildFailed { code: Some(2) }))));
    let (clean, step) =
        next_image_step(&ImageStep::BuildPackage, "c", &Outcome::NotStarted("e".into()));
    assert!(!clean);
    assert!(matches!(step, ImageStep::Finished(Err(NpxcError::RuntimeNotAvailable(_)))));
}

// ── the course of a run ───────────────────────────────────────────────────────

fn go(run: Run, events: Vec<RunEvent>) -> Run {
    events.into_iter().fold(run, advance)
}

fn fine(n: usize) -> Vec<RunEvent> {
    (0..n).map(|_| RunEvent::Succeeded).collect()
}

#[test]
fn runs_take_their_course() {
    let run = go(begin(false, true), fine(6));
    assert!(matches!(run.step, RunStep::RunPipeline));
    assert!(run.network && run.session);
    let run = advance(run, RunEvent::Interrupted);
    assert!(matches!(run.step, RunStep::TearDown(Ending::Interrupted)));
    let run = advance(run, RunEvent::Succeeded);
    match &run.step {
        RunStep::Finished(ending) => assert_eq!(exit_status(ending), 130),
        other => panic!("{other:?}"),
    }
    assert!(!run.network && !run.session);
}

#[test]
fn runs_without_an_allowlist_need_no_tunnel() {
    let run = go(begin(false, false), fine(4));
    assert!(matches!(run.step, RunStep::StartSession));
    assert!(!run.network);
    let run = go(run, fine(3));
    match &run.step {
        RunStep::Finished(ending) => assert_eq!(exit_status(ending), 0),
        other => panic!("{other:?}"),
    }
}

#[test]
fn a_network_without_a_session_is_deleted() {
    let run = go(begin(false, true), fine(5));
    let run = advance(run, RunEvent::Failed(NpxcError::RuntimeNotAvailable("x".into())));
    assert!(matches!(run.step, RunStep::DeleteNetwork(_)));
    let run = advance(run, RunEvent::Succeeded);
    assert!(!run.network);
    match &run.step {
        RunStep::Finished(ending) => assert_eq!(exit_status(ending), 2),
        other => panic!("{other:?}"),
    }
}

#[test]
fn a_network_without_a_tunnel_is_deleted() {
    let run = go(begin(false, true), fine(4));
    assert!(matches!(run.step, RunStep::EstablishTunnel));
    let run = advance(run, RunEvent::Failed(NpxcError::Runtime("no socket".into())));
    assert!(matches!(run.step, RunStep::DeleteNetwork(_)));
    let run = advance(run, RunEvent::Succeeded);
    assert!(!run.network);
    match &run.step {
        RunStep::Finished(ending) => assert_eq!(exit_status(ending), 4),
        other => panic!("{other:?}"),
    }
}

#[test]
fn failed_pins_do_not_end_a_run() {
    let run = go(begin(false, false), fine(1));
    let run = advance(run, RunEvent::Failed(NpxcError::Io("read-only".into())));
    assert!(matches!(run.step, RunStep::BuildPlan));
    let run = advance(run, RunEvent::Failed(NpxcError::PathNotFound("/x".into())));
    assert!(matches!(run.step, RunStep::Finished(Ending::Failed(NpxcError::PathNotFound(_)))));
}

#[test]
fn dry_runs_only_show_the_plan() {
    let run = begin(true, true);
    assert!(matches!(run.step, RunStep::ShowPlan));
    let run = advance(run, RunEvent::Succeeded);
    assert!(matches!(run.step, RunStep::Finished(Ending::Success)));
}
