//! Prerequisite checks, reports and the command line.

use npxc::cli::{clean_target, package_invocation, CleanTarget};
use npxc::config::global::NpxcConfig;
use npxc::config::merge::merge;
use npxc::config::package::{MountConfig, PackageConfig, StorageConfig};
use npxc::doctor::{
    check_cli, cli_report, ensure_kernel, ensure_rosetta_disabled, ensure_system_running,
    fetch_system_status, kernel_state, kernels_dir, next_check, service_state, CheckResult,
    CheckStep, StatusOutput, SystemStatus, VersionInfo, VersionOutput,
};
use npxc::error::NpxcError;
use npxc::paths::HostPath;
use npxc::report::{built_line, dry_run_report, inspect_report, no_isolate_warning, sort_texts};
use npxc::runtime::command::Outcome;

fn texts(list: &[&str]) -> Vec<String> {
    list.iter().map(|s| s.to_string()).collect()
}

#[test]
fn the_cli_is_found_or_not() {
    let path = HostPath::from_text("/usr/local/bin/container");
    assert_eq!(
        cli_report("container", Some(&path)),
        texts(&["container CLI:  /usr/local/bin/container (found)"])
    );
    assert_eq!(cli_report("container", None)[0], "container CLI:  container (NOT FOUND)");
}

#[test]
fn the_version_of_the_cli_itself_is_shown() {
    let text = |s: &str| Some(s.to_string());
    let server = VersionInfo {
        version: "0.1".to_string(),
        build_type: text("debug"),
        commit: text("x"),
        app_name: text("container-apiserver"),
    };
    let cli = VersionInfo {
        version: "0.2".to_string(),
        build_type: None,
        commit: text("abc"),
        app_name: text("container"),
    };
    assert_eq!(
        check_cli(&VersionOutput::Read(vec![server, cli])),
        "  version:      0.2 (release, abc)"
    );
    let nameless = VersionInfo {
        version: "0.3".to_string(),
        build_type: text("debug"),
        commit: None,
        app_name: None,
    };
    assert_eq!(check_cli(&VersionOutput::Read(vec![nameless])), "  version:      0.3 (debug, )");
    assert_eq!(
        check_cli(&VersionOutput::Read(vec![])),
        "  version:      (empty version response)"
    );
    assert_eq!(
        check_cli(&VersionOutput::NotRun("nope".to_string())),
        "  version:      (error running version command: nope)"
    );
    assert_eq!(
        check_cli(&VersionOutput::Unreadable("bad".to_string(), b" {} \n".to_vec())),
        "  version:      (JSON parse error: bad; output: {})"
    );
}

#[test]
fn the_service_status_is_read() {
    let running =
        SystemStatus { status: "running".to_string(), app_root: Some("/root/app".to_string()) };
    let status = fetch_system_status(StatusOutput::Read(running)).unwrap();
    assert_eq!(status.status, "running");
    assert!(service_state(&status).1);
    assert_eq!(kernels_dir(&status).unwrap().lossy(), "/root/app/kernels");

    let stopped = SystemStatus { status: "not running".to_string(), app_root: Some(String::new()) };
    let (line, running) = service_state(&stopped);
    assert!(!running);
    assert!(line.starts_with("  status:  not running"));
    assert!(kernels_dir(&stopped).is_none());

    let unreadable = StatusOutput::Unreadable("bad".to_string(), b" oops ".to_vec());
    let err = fetch_system_status(unreadable).unwrap_err();
    assert_eq!(err, "  status:  (JSON parse error: bad; stderr: oops)");
    let err = fetch_system_status(StatusOutput::NotRun("e".to_string())).unwrap_err();
    assert_eq!(err, "  status:  (error running status command: e)");
}

#[test]
fn starts_and_installs_are_reported() {
    assert!(ensure_system_running("container", &Outcome::Exited(Some(0))).1);
    assert_eq!(
        ensure_system_running("container", &Outcome::Exited(Some(1))),
        ("  status:  `container system start` failed (exit code: Some(1))".to_string(), false)
    );
    assert_eq!(
        ensure_system_running("container", &Outcome::NotStarted("e".into())).0,
        "  status:  failed to start: e"
    );
    assert!(kernel_state(true).contains("configured"));
    assert!(kernel_state(false).contains("installing"));
    assert_eq!(ensure_kernel("container", &Outcome::Exited(Some(0))).len(), 1);
    assert_eq!(ensure_kernel("container", &Outcome::Exited(None)).len(), 2);
    assert!(ensure_rosetta_disabled("container", true, true, true, true).is_empty());
    assert_eq!(ensure_rosetta_disabled("container", false, true, true, false).len(), 2);
    assert_eq!(ensure_rosetta_disabled("container", false, false, false, false).len(), 2);
}

#[test]
fn checks_follow_one_another() {
    let after = |step, result| next_check(step, result);
    assert_eq!(after(CheckStep::FindCli, CheckResult::Bad), CheckStep::Finished);
    assert_eq!(after(CheckStep::FindCli, CheckResult::Good), CheckStep::ReadStatus);
    assert_eq!(after(CheckStep::ReadStatus, CheckResult::Unknown), CheckStep::Finished);
    assert_eq!(after(CheckStep::ReadStatus, CheckResult::Bad), CheckStep::StartService);
    assert_eq!(after(CheckStep::StartService, CheckResult::Bad), CheckStep::CheckRosetta);
    assert_eq!(after(CheckStep::StartService, CheckResult::Good), CheckStep::FindKernel);
    assert_eq!(after(CheckStep::FindKernel, CheckResult::Bad), CheckStep::InstallKernel);
    assert_eq!(after(CheckStep::InstallKernel, CheckResult::Bad), CheckStep::CheckRosetta);
    assert_eq!(after(CheckStep::CheckRosetta, CheckResult::Good), CheckStep::Finished);
}

// ── reports ───────────────────────────────────────────────────────────────────

#[test]
fn dry_runs_print_the_plan() {
    let eff = merge(&NpxcConfig::default(), None);
    assert_eq!(
        dry_run_report("@scope/pkg", "1.0.0", &eff, false, &texts(&["a", "b\"c"])),
        texts(&[
            "package:    @scope/pkg",
            "version:    1.0.0",
            "image_tag:  npxc/scope-pkg:1.0.0",
            "network:    none",
            "no_isolate: false",
            "args:       [\"a\", \"b\\\"c\"]",
        ])
    );
    assert!(no_isolate_warning().starts_with("npxc: WARNING"));
    assert!(built_line("pkg", "1.0.0").contains("npxc/pkg:1.0.0"));
}

#[test]
fn inspections_show_names_but_no_values() {
    let mut pkg = PackageConfig {
        env_passthrough: texts(&["TOKEN"]),
        storage: Some(StorageConfig { persist: true, writable: texts(&["/cache"]) }),
        mounts: vec![MountConfig {
            host: "data".to_string(),
            container: "/d".to_string(),
            mode: "ro".to_string(),
        }],
        ..Default::default()
    };
    pkg.env.insert("Z".to_string(), "hidden".to_string());
    pkg.env.insert("A".to_string(), "hidden".to_string());
    let eff = merge(&NpxcConfig::default(), Some(&pkg));
    let lines = inspect_report("pkg", "latest", &eff);
    assert_eq!(lines[0], "package:         pkg");
    assert!(lines.contains(&"env:             [\"A\", \"Z\"]".to_string()));
    assert!(lines.contains(&"env_passthrough: [\"TOKEN\"]".to_string()));
    assert!(lines.contains(&"mount:           data \u{2192} /d (ro)".to_string()));
    assert!(lines.contains(&"storage:         persist \u{2192} /data (rw)".to_string()));
    assert!(!lines.iter().any(|l| l.contains("hidden")));
}

#[test]
fn texts_are_sorted() {
    assert_eq!(
        sort_texts(&texts(&["b", "a", "ab", "", "a"])),
        texts(&["", "a", "a", "ab", "b"])
    );
}

// ── the command line ──────────────────────────────────────────────────────────

#[test]
fn separators_are_left_out_of_package_arguments() {
    assert_eq!(
        package_invocation(&texts(&["pkg@1.0.0", "--", "-v", "--", "x"])),
        ("pkg@1.0.0".to_string(), texts(&["-v", "x"]))
    );
    assert_eq!(package_invocation(&texts(&["pkg"])), ("pkg".to_string(), vec![]));
}

#[test]
fn cleaning_needs_a_target() {
    assert!(matches!(clean_target(&None, true), Ok(CleanTarget::All)));
    assert!(matches!(
        clean_target(&Some("pkg".to_string()), false),
        Ok(CleanTarget::Package(p)) if p == "pkg"
    ));
    assert!(matches!(clean_target(&None, false), Err(NpxcError::Config(_))));
}
