//! Holding paths to the working directory.

use std::path::Path;

use npxc::error::NpxcError;
use npxc::paths::validate::{expand_path, validate_path};
use npxc::paths::HostPath;

fn host(path: &Path) -> HostPath {
    HostPath::from_text(path.to_str().unwrap())
}

/// Resolves a path on the real filesystem and holds it to `cwd`.
fn check(raw: &str, cwd: &Path) -> Result<HostPath, NpxcError> {
    let meant = expand_path(raw, &HostPath::from_text("/home/nobody"));
    let canonical = Path::new(&meant.lossy()).canonicalize().ok();
    let canonical_cwd = cwd.canonicalize().map_err(|e| e.to_string());
    validate_path(
        raw,
        &host(cwd),
        canonical.as_deref().map(host),
        canonical_cwd.as_deref().map(host).map_err(|e| e.to_string()),
    )
}

fn new_file(name: &str, dir: &Path) -> tempfile::NamedTempFile {
    tempfile::Builder::new().prefix(name).rand_bytes(0).tempfile_in(dir).unwrap()
}

fn new_dir(name: &str, dir: &Path) -> tempfile::TempDir {
    tempfile::Builder::new().prefix(name).rand_bytes(0).tempdir_in(dir).unwrap()
}

#[test]
fn valid_path_within_cwd() {
    let tmp = tempfile::tempdir().unwrap();
    let file = new_file("hello.txt", tmp.path());
    let result = check(file.path().to_str().unwrap(), tmp.path());
    assert!(result.is_ok());
    assert_eq!(result.unwrap(), host(&file.path().canonicalize().unwrap()));
}

#[test]
fn nonexistent_path_returns_not_found() {
    let tmp = tempfile::tempdir().unwrap();
    let raw = "/this/definitely/does/not/exist/anywhere";
    let err = check(raw, tmp.path()).unwrap_err();
    assert!(matches!(err, NpxcError::PathNotFound(p) if p == raw));
}

#[test]
fn validate_path_outside_cwd_returns_out_of_scope() {
    let tmp = tempfile::tempdir().unwrap();
    let outside = tempfile::tempdir().unwrap();
    let file = new_file("secret.txt", outside.path());

    let raw = file.path().to_str().unwrap();
    let err = check(raw, tmp.path()).unwrap_err();
    assert!(matches!(err, NpxcError::PathOutOfScope { path, .. } if path == raw));
}

#[test]
fn validate_file_uri_prefix_is_stripped() {
    let tmp = tempfile::tempdir().unwrap();
    let file = new_file("doc.md", tmp.path());

    let raw = format!("file://{}", file.path().to_str().unwrap());
    let result = check(&raw, tmp.path());
    assert!(result.is_ok(), "{result:?}");
}

#[test]
fn error_preserves_original_raw_path_with_file_uri() {
    let tmp = tempfile::tempdir().unwrap();
    let raw = "file:///no/such/path/anywhere";
    let err = check(raw, tmp.path()).unwrap_err();
    assert!(matches!(err, NpxcError::PathNotFound(p) if p == raw));
}

#[test]
fn valid_path_within_cwd_succeeds() {
    let tmp = tempfile::tempdir().unwrap();
    let file = new_file("hello.txt", tmp.path());
    let result = check(file.path().to_str().unwrap(), tmp.path());
    assert!(result.is_ok(), "expected Ok, got {result:?}");
    assert_eq!(result.unwrap(), host(&file.path().canonicalize().unwrap()));
}

#[test]
fn path_validate_path_outside_cwd_returns_out_of_scope() {
    let cwd = tempfile::tempdir().unwrap();
    let elsewhere = tempfile::tempdir().unwrap();
    let file = new_file("secret.txt", elsewhere.path());

    let err = check(file.path().to_str().unwrap(), cwd.path()).unwrap_err();
    assert!(
        matches!(err, NpxcError::PathOutOfScope { .. }),
        "expected PathOutOfScope, got {err:?}"
    );
}

#[test]
fn nonexistent_path_returns_path_not_found() {
    let cwd = tempfile::tempdir().unwrap();
    let raw = cwd.path().join("no_such_file.txt");
    let raw_str = raw.to_str().unwrap();

    let err = check(raw_str, cwd.path()).unwrap_err();
    assert!(
        matches!(err, NpxcError::PathNotFound(ref p) if p == raw_str),
        "expected PathNotFound({raw_str}), got {err:?}"
    );
}

#[test]
fn path_validate_file_uri_prefix_is_stripped() {
    let tmp = tempfile::tempdir().unwrap();
    let file = new_file("doc.md", tmp.path());

    let uri = format!("file://{}", file.path().to_str().unwrap());
    let result = check(&uri, tmp.path());
    assert!(result.is_ok(), "file:// URI should be accepted: {result:?}");
}

#[test]
fn file_uri_error_preserves_original_raw_path() {
    let tmp = tempfile::tempdir().unwrap();
    let raw = format!("file://{}", tmp.path().join("no_such.txt").display());

    let err = check(&raw, tmp.path()).unwrap_err();
    assert!(
        matches!(err, NpxcError::PathNotFound(ref p) if p == &raw),
        "error should carry original URI, got {err:?}"
    );
}

#[test]
fn home_prefix_is_expanded() {
    let tmp = tempfile::tempdir().unwrap();
    let home = tmp.path().canonicalize().unwrap();
    let cwd = new_dir("work", &home);
    let file = new_file("homefile.txt", cwd.path());

    let raw = "~/work/homefile.txt";
    let meant = expand_path(raw, &host(&home));
    assert_eq!(meant, host(file.path()));
    let result = validate_path(
        raw,
        &host(cwd.path()),
        Path::new(&meant.lossy()).canonicalize().ok().as_deref().map(host),
        Ok(host(&cwd.path().canonicalize().unwrap())),
    );
    assert!(result.is_ok(), "~/… path should be accepted: {result:?}");
}

#[test]
fn dotdot_resolving_inside_cwd_is_accepted() {
    let cwd = tempfile::tempdir().unwrap();
    let _sub = new_dir("sub", cwd.path());
    let _target = new_file("target.txt", cwd.path());

    let path_str = format!("{}/sub/../target.txt", cwd.path().display());
    let result = check(&path_str, cwd.path());
    assert!(result.is_ok(), "dotdot resolving inside CWD should be accepted: {result:?}");
}

#[test]
fn dotdot_resolving_outside_cwd_is_rejected() {
    let outer = tempfile::tempdir().unwrap();
    let inner = new_dir("inner", outer.path());
    let _escape = new_file("secret.txt", outer.path());

    let path_str = format!("{}/inner/../secret.txt", outer.path().display());
    let err = check(&path_str, inner.path()).unwrap_err();
    assert!(
        matches!(err, NpxcError::PathOutOfScope { .. }),
        "dotdot escaping CWD should be rejected: {err:?}"
    );
}

#[test]
fn symlink_inside_cwd_pointing_outside_is_rejected() {
    // A link in the working directory that resolves to a file elsewhere.
    let err = validate_path(
        "/cwd/link.txt",
        &HostPath::from_text("/cwd"),
        Some(HostPath::from_text("/outside/real.txt")),
        Ok(HostPath::from_text("/cwd")),
    )
    .unwrap_err();
    assert!(
        matches!(err, NpxcError::PathOutOfScope { .. }),
        "symlink pointing outside CWD should be rejected: {err:?}"
    );
}

#[test]
fn a_sibling_with_the_same_prefix_is_out_of_scope() {
    let err = validate_path(
        "/work2/file",
        &HostPath::from_text("/work"),
        Some(HostPath::from_text("/work2/file")),
        Ok(HostPath::from_text("/work")),
    )
    .unwrap_err();
    match err {
        NpxcError::PathOutOfScope { path, cwd } => {
            assert_eq!(path, "/work2/file");
            assert_eq!(cwd, "/work");
        }
        other => panic!("{other:?}"),
    }
}

#[test]
fn an_unresolvable_working_directory_is_an_io_error() {
    let err = validate_path(
        "/work/file",
        &HostPath::from_text("/work"),
        Some(HostPath::from_text("/work/file")),
        Err("gone".to_string()),
    )
    .unwrap_err();
    assert!(matches!(err, NpxcError::Io(m) if m == "gone"));
}

#[test]
fn host_paths_join_and_come_apart() {
    let base = HostPath::from_text("/a/b");
    assert_eq!(base.join_text("c.txt").lossy(), "/a/b/c.txt");
    assert_eq!(base.join_text("/etc").lossy(), "/etc");
    assert_eq!(base.parent().unwrap().lossy(), "/a");
    assert_eq!(base.file_name().unwrap().lossy(), "b");
    assert!(base.is_absolute());
    assert!(!HostPath::from_text("a/b").is_absolute());
    assert!(HostPath::from_text("/a/b/c").starts_with(&base));
    assert!(!HostPath::from_text("/a/bc").starts_with(&base));
    assert!(HostPath::from_text("/").parent().is_none());
}

#[test]
fn paths_agree_with_the_standard_library() {
    for text in ["/a/b", "/a/b/", "a", "/", "", "a//b", "./a", "a/.", "/a/./b/.", "..", "a/.."] {
        let path = Path::new(text);
        let ours = HostPath::from_text(text);
        let parent = ours.parent().map(|p| p.lossy());
        assert_eq!(parent.as_deref(), path.parent().map(|p| p.to_str().unwrap()), "{text:?}");
        let name = ours.file_name().map(|p| p.lossy());
        assert_eq!(name.as_deref(), path.file_name().map(|p| p.to_str().unwrap()), "{text:?}");
        for other in ["/a", "a", "/", "", "/a/b", "./a", "a/."] {
            assert_eq!(
                ours.starts_with(&HostPath::from_text(other)),
                path.starts_with(other),
                "{text:?} {other:?}"
            );
            assert_eq!(
                ours.join(&HostPath::from_text(other)).lossy(),
                path.join(other).to_str().unwrap(),
                "{text:?} {other:?}"
            );
        }
    }
}
