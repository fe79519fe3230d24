//! Publishing files, and rewriting messages in both directions.

use std::path::Path;

use npxc::json::{parse, Json};
use npxc::paths::publish::{
    copies_instead, mtime_key, publication_under, publish_file, settle_publication,
    PublicationCache, PublishStep, PublishedFile,
};
use npxc::paths::state::SessionState;
use npxc::paths::HostPath;
use npxc::rpc::message::replace_in_strings;

fn host(path: &Path) -> HostPath {
    HostPath::from_text(path.to_str().unwrap())
}

fn published(uuid: &str, name: &str, from: &str) -> PublishedFile {
    PublishedFile {
        uuid: uuid.into(),
        basename: name.into(),
        container_path: format!("/workspace/{uuid}/{name}"),
        host_dir: HostPath::from_text(&format!("/session/{uuid}")),
        host_path: HostPath::from_text(from),
    }
}

/// Publishes a version of a file as if linking it succeeded.
fn publish(path: &HostPath, mtime: u64, session: &HostPath, cache: &mut PublicationCache) -> String {
    match publish_file(path, mtime, session, cache) {
        PublishStep::Ready(container_path) => container_path,
        PublishStep::Create(file) => {
            let (container_path, lost) = settle_publication(cache, mtime, file);
            assert!(!lost);
            container_path
        }
    }
}

fn new_file(name: &str, dir: &Path) -> HostPath {
    let file = tempfile::Builder::new().prefix(name).rand_bytes(0).tempfile_in(dir).unwrap();
    host(&file.path().canonicalize().unwrap())
}

// ── the cache ─────────────────────────────────────────────────────────────────

#[test]
fn cache_get_miss() {
    let cache = PublicationCache::new();
    assert!(cache.get(&HostPath::from_text("/no/such"), 0).is_none());
}

#[test]
fn cache_insert_and_get() {
    let mut cache = PublicationCache::new();
    let path = HostPath::from_text("/host/file.txt");
    let key = (path.clone(), 12345_u64);
    cache.insert(key, published("u1", "file.txt", "/host/file.txt"));

    let hit = cache.get(&path, 12345).unwrap();
    assert_eq!(hit.container_path, "/workspace/u1/file.txt");
}

#[test]
fn cache_miss_on_stale_mtime() {
    let mut cache = PublicationCache::new();
    let path = HostPath::from_text("/host/file.txt");
    let key = (path.clone(), 100_u64);
    cache.insert(key, published("u1", "file.txt", "/host/file.txt"));
    assert!(cache.get(&path, 200).is_none());
}

#[test]
fn reverse_snapshot_contents() {
    let mut cache = PublicationCache::new();
    let path = HostPath::from_text("/host/report.pdf");
    let key = (path.clone(), 42_u64);
    cache.insert(key, published("abc", "report.pdf", "/host/report.pdf"));

    let snap = cache.reverse_snapshot();
    assert_eq!(snap.len(), 1);
    let (cont, host) = &snap[0];
    assert_eq!(cont, "/workspace/abc/report.pdf");
    assert_eq!(host, "/host/report.pdf");
}

// ── publishing ────────────────────────────────────────────────────────────────

#[test]
fn publish_file_hardlinks_and_deduplicates() {
    let src = tempfile::tempdir().unwrap();
    let session = tempfile::tempdir().unwrap();
    let canonical = new_file("data.bin", src.path());
    let mut cache = PublicationCache::new();

    let path1 = publish(&canonical, 7, &host(session.path()), &mut cache);
    assert!(path1.starts_with("/workspace/"));

    let path2 = publish(&canonical, 7, &host(session.path()), &mut cache);
    assert_eq!(path1, path2);
}

#[test]
fn publish_file_returns_workspace_path() {
    let src = tempfile::tempdir().unwrap();
    let canonical = new_file("document.pdf", src.path());
    let mut cache = PublicationCache::new();
    let container_path = publish(&canonical, 1, &HostPath::from_text("/session"), &mut cache);

    assert!(
        container_path.starts_with("/workspace/"),
        "container path should be under /workspace/: {container_path}"
    );
    assert!(
        container_path.ends_with("/document.pdf"),
        "container path should preserve the original filename: {container_path}"
    );
}

#[test]
fn publish_file_deduplicates_same_file() {
    let src = tempfile::tempdir().unwrap();
    let canonical = new_file("report.pdf", src.path());
    let session = HostPath::from_text("/session");
    let mut cache = PublicationCache::new();
    let path1 = publish(&canonical, 1, &session, &mut cache);
    let path2 = publish(&canonical, 1, &session, &mut cache);

    assert_eq!(
        path1, path2,
        "publishing the same file twice must return the same container path"
    );
}

#[test]
fn reverse_snapshot_after_single_publish() {
    let canonical = HostPath::from_text("/src/notes.txt");
    let mut cache = PublicationCache::new();
    let container_path = publish(&canonical, 1, &HostPath::from_text("/session"), &mut cache);

    let snapshot = cache.reverse_snapshot();
    assert_eq!(snapshot.len(), 1, "exactly one entry after one publish");

    let (cont, host) = &snapshot[0];
    assert_eq!(cont, &container_path);
    assert_eq!(host, "/src/notes.txt");
}

#[test]
fn reverse_snapshot_multiple_files() {
    let session = HostPath::from_text("/session");
    let mut cache = PublicationCache::new();
    let cp1 = publish(&HostPath::from_text("/src/file1.txt"), 1, &session, &mut cache);
    let cp2 = publish(&HostPath::from_text("/src/file2.txt"), 1, &session, &mut cache);

    assert_ne!(cp1, cp2, "distinct files must get distinct container paths");

    let snapshot = cache.reverse_snapshot();
    assert_eq!(snapshot.len(), 2);
    assert!(snapshot.contains(&(cp1, "/src/file1.txt".to_string())));
    assert!(snapshot.contains(&(cp2, "/src/file2.txt".to_string())));
}

#[test]
fn publications_lie_in_their_own_directory() {
    let file = publication_under(
        &HostPath::from_text("/src/a.txt"),
        &HostPath::from_text("/session"),
        "u-1",
    );
    assert_eq!(file.container_path, "/workspace/u-1/a.txt");
    assert_eq!(file.host_dir.lossy(), "/session/u-1");
    assert_eq!(file.destination().lossy(), "/session/u-1/a.txt");
    assert_eq!(file.host_path.lossy(), "/src/a.txt");
}

#[test]
fn fresh_directories_are_uuids() {
    let cache = PublicationCache::new();
    let path = HostPath::from_text("/src/a.txt");
    let session = HostPath::from_text("/session");
    let uuid = |step: PublishStep| match step {
        PublishStep::Create(file) => file.uuid,
        PublishStep::Ready(_) => panic!("nothing is published"),
    };
    let a = uuid(publish_file(&path, 1, &session, &cache));
    let b = uuid(publish_file(&path, 1, &session, &cache));
    assert_ne!(a, b);
    assert_eq!(a.len(), 36);
    assert_eq!(a.chars().filter(|c| *c == '-').count(), 4);
}

#[test]
fn a_changed_file_is_published_anew() {
    let path = HostPath::from_text("/src/a.txt");
    let session = HostPath::from_text("/session");
    let mut cache = PublicationCache::new();
    let before = publish(&path, 1, &session, &mut cache);
    let after = publish(&path, 2, &session, &mut cache);
    assert_ne!(before, after);
    assert_eq!(publish(&path, 1, &session, &mut cache), before);
}

#[test]
fn the_first_of_two_racing_publications_wins() {
    let mut cache = PublicationCache::new();
    let first = published("u1", "a.txt", "/src/a.txt");
    let second = published("u2", "a.txt", "/src/a.txt");
    assert_eq!(settle_publication(&mut cache, 5, first), ("/workspace/u1/a.txt".into(), false));
    assert_eq!(settle_publication(&mut cache, 5, second), ("/workspace/u1/a.txt".into(), true));
    assert_eq!(cache.reverse_snapshot().len(), 1);
}

#[test]
fn only_links_across_filesystems_are_copied() {
    assert!(copies_instead(Some(18)));
    assert!(!copies_instead(Some(13)));
    assert!(!copies_instead(None));
}

#[test]
fn times_before_the_epoch_and_beyond_have_keys() {
    assert_eq!(mtime_key(Some(1_000)), 1_000);
    assert_eq!(mtime_key(None), 0);
}

#[test]
fn a_new_session_knows_nothing() {
    let state = SessionState::new();
    assert!(state.publications.reverse_snapshot().is_empty());
    assert!(state.tool_schemas.is_empty());
}

// ── rewriting ─────────────────────────────────────────────────────────────────

fn at<'a>(value: &'a Json, keys: &[&str]) -> &'a Json {
    keys.iter().fold(value, |v, key| match key.parse::<usize>() {
        Ok(i) => &v.as_array().unwrap()[i],
        Err(_) => v.get(key).unwrap(),
    })
}

#[test]
fn c2s_host_path_replaced_with_container_path() {
    let canonical = HostPath::from_text("/src/analysis.pdf");
    let mut cache = PublicationCache::new();
    let container_path = publish(&canonical, 1, &HostPath::from_text("/session"), &mut cache);

    let mut call_msg = parse(
        r#"{"jsonrpc": "2.0", "id": 5, "method": "tools/call",
            "params": {"name": "read_pdf", "arguments": {"path": "/src/analysis.pdf"}}}"#,
    )
    .unwrap();

    let replacements = vec![("/src/analysis.pdf".to_string(), container_path.clone())];
    replace_in_strings(&mut call_msg, &replacements);

    let rewritten = at(&call_msg, &["params", "arguments", "path"]).as_str().unwrap();
    assert_eq!(
        rewritten, container_path,
        "host path in tools/call must be rewritten to container path"
    );
}

#[test]
fn c2s_unrelated_args_not_modified() {
    let canonical = HostPath::from_text("/src/doc.pdf");
    let mut cache = PublicationCache::new();
    let container_path = publish(&canonical, 1, &HostPath::from_text("/session"), &mut cache);

    let mut call_msg = parse(
        r#"{"jsonrpc": "2.0", "id": 6, "method": "tools/call",
            "params": {"name": "search", "arguments": {
                "path": "/src/doc.pdf", "query": "some search term", "limit": 10}}}"#,
    )
    .unwrap();

    let replacements = vec![("/src/doc.pdf".to_string(), container_path)];
    replace_in_strings(&mut call_msg, &replacements);

    assert_eq!(
        at(&call_msg, &["params", "arguments", "query"]).as_str().unwrap(),
        "some search term"
    );
    assert_eq!(at(&call_msg, &["params", "arguments", "limit"]), &parse("10").unwrap());
}

#[test]
fn s2c_container_path_replaced_with_host_path() {
    let canonical = HostPath::from_text("/src/output.txt");
    let mut cache = PublicationCache::new();
    let container_path = publish(&canonical, 1, &HostPath::from_text("/session"), &mut cache);

    let text = format!(
        "{{\"jsonrpc\": \"2.0\", \"id\": 7, \"result\": {{\"content\": [{{\"type\": \"text\", \
         \"text\": \"Processed file at {container_path}, done.\"}}], \"isError\": false}}}}"
    );
    let mut response = parse(&text).unwrap();

    replace_in_strings(&mut response, &cache.reverse_snapshot());

    let result_text = at(&response, &["result", "content", "0", "text"]).as_str().unwrap();
    assert!(
        result_text.contains("/src/output.txt"),
        "host path should appear in rewritten response: {result_text}"
    );
    assert!(
        !result_text.contains(&container_path),
        "container path should no longer appear in rewritten response: {result_text}"
    );
}

#[test]
fn s2c_multiple_occurrences_all_replaced() {
    let canonical = HostPath::from_text("/src/chart.png");
    let mut cache = PublicationCache::new();
    let container_path = publish(&canonical, 1, &HostPath::from_text("/session"), &mut cache);

    let text = format!(
        "{{\"jsonrpc\": \"2.0\", \"id\": 8, \"result\": {{\"content\": [\
         {{\"type\": \"text\", \"text\": \"First ref: {container_path}\"}}, \
         {{\"type\": \"text\", \"text\": \"Second ref: {container_path}\"}}]}}}}"
    );
    let mut response = parse(&text).unwrap();

    replace_in_strings(&mut response, &cache.reverse_snapshot());

    for i in ["0", "1"] {
        let shown = at(&response, &["result", "content", i, "text"]).as_str().unwrap();
        assert!(shown.contains("/src/chart.png"));
    }
}

#[test]
fn replace_in_strings_handles_deeply_nested_json() {
    let mut v = parse(
        r#"{"result": {
            "content": [
                {"type": "text",  "text": "/workspace/uuid-abc/report.pdf"},
                {"type": "text",  "text": "no paths here"}
            ],
            "metadata": {
                "source": "/workspace/uuid-abc/report.pdf",
                "size": 1024,
                "valid": true
            }
        }}"#,
    )
    .unwrap();

    let replacements = vec![(
        "/workspace/uuid-abc/report.pdf".to_string(),
        "/home/user/documents/report.pdf".to_string(),
    )];
    replace_in_strings(&mut v, &replacements);

    assert_eq!(
        at(&v, &["result", "content", "0", "text"]).as_str().unwrap(),
        "/home/user/documents/report.pdf",
    );
    assert_eq!(
        at(&v, &["result", "content", "1", "text"]).as_str().unwrap(),
        "no paths here",
        "unrelated strings must not be modified"
    );
    assert_eq!(
        at(&v, &["result", "metadata", "source"]).as_str().unwrap(),
        "/home/user/documents/report.pdf",
    );
    assert_eq!(at(&v, &["result", "metadata", "size"]), &parse("1024").unwrap());
    assert_eq!(at(&v, &["result", "metadata", "valid"]), &Json::Bool(true));
}

#[test]
fn replace_in_strings_object_keys_not_modified() {
    let mut v = parse(r#"{ "/workspace/uuid/file.txt": "the value" }"#).unwrap();
    let replacements =
        vec![("/workspace/uuid/file.txt".to_string(), "/host/path/file.txt".to_string())];
    replace_in_strings(&mut v, &replacements);

    assert!(
        v.get("/workspace/uuid/file.txt").is_some(),
        "object keys must not be modified"
    );
    assert_eq!(v.get("/workspace/uuid/file.txt").unwrap().as_str(), Some("the value"));
}

#[test]
fn full_c2s_s2c_round_trip() {
    let host_path_str = "/src/paper.pdf".to_string();
    let canonical = HostPath::from_text(&host_path_str);
    let mut cache = PublicationCache::new();
    let container_path = publish(&canonical, 1, &HostPath::from_text("/session"), &mut cache);

    let mut call = parse(
        r#"{"jsonrpc": "2.0", "id": 1, "method": "tools/call",
            "params": { "name": "read_pdf", "arguments": { "path": "/src/paper.pdf" } }}"#,
    )
    .unwrap();
    let forward = vec![(host_path_str.clone(), container_path.clone())];
    replace_in_strings(&mut call, &forward);

    assert_eq!(
        at(&call, &["params", "arguments", "path"]).as_str().unwrap(),
        container_path,
        "c2s: argument must contain container path after rewrite"
    );

    let text = format!(
        "{{\"jsonrpc\": \"2.0\", \"id\": 1, \"result\": {{\"content\": [{{\"type\": \"text\", \
         \"text\": \"Summary of {container_path}\"}}], \"isError\": false}}}}"
    );
    let mut response = parse(&text).unwrap();
    replace_in_strings(&mut response, &cache.reverse_snapshot());

    let shown = at(&response, &["result", "content", "0", "text"]).as_str().unwrap();
    assert!(
        shown.contains(&host_path_str),
        "s2c: response must contain host path after reverse rewrite: {shown}"
    );
    assert!(
        !shown.contains(&container_path),
        "s2c: container path must be gone after reverse rewrite: {shown}"
    );
}

#[test]
fn every_publication_can_be_turned_back() {
    let session = HostPath::from_text("/session");
    let mut cache = PublicationCache::new();
    let mut pairs = Vec::new();
    for path in ["/src/a.txt", "/src/b.txt", "/other/a.txt"] {
        let container = publish(&HostPath::from_text(path), 1, &session, &mut cache);
        assert_eq!(publish(&HostPath::from_text(path), 1, &session, &mut cache), container);
        pairs.push((container, path.to_string()));
    }
    assert_eq!(cache.reverse_snapshot(), pairs);
}
