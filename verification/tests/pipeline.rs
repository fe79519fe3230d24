//! What becomes of each line in either direction, and error answers.

use npxc::config::global::NpxcConfig;
use npxc::config::merge::{merge, EffectiveConfig};
use npxc::error::NpxcError;
use npxc::json::{parse, render, Json};
use npxc::rpc::message::ToolSchema;
use npxc::rpc::pipeline::{
    client_to_server, pipeline_result, pump, server_to_client, translate_resources_read,
    translate_tools_call, ClientStep, Disposition, PathOutcome, PumpAction, PumpEvent,
};
use npxc::runtime::command::Outcome;
use npxc::table::Table;

fn config() -> EffectiveConfig {
    merge(&NpxcConfig::default(), None)
}

fn no_schemas() -> Table<ToolSchema> {
    Table::new()
}

const CALL: &str = r#"{"id":5,"jsonrpc":"2.0","method":"tools/call","params":{"arguments":{"limit":3,"path":"/work/a.txt"},"name":"read"}}"#;

fn tools_call(raw: &str) -> (Json, Vec<(String, String)>) {
    match client_to_server(raw, false, &config(), &no_schemas()) {
        ClientStep::ToolsCall { message, paths } => (message, paths),
        other => panic!("{other:?}"),
    }
}

fn forwarded(step: ClientStep) -> String {
    match step {
        ClientStep::Forward(line) => line,
        other => panic!("{other:?}"),
    }
}

#[test]
fn calls_are_rewritten_with_container_paths() {
    let (message, paths) = tools_call(CALL);
    assert_eq!(paths, vec![("/path".to_string(), "/work/a.txt".to_string())]);
    let outcomes = vec![PathOutcome::Published("/workspace/u/a.txt".to_string())];
    match translate_tools_call(message, &paths, &outcomes) {
        Disposition::Forward(line) => {
            assert_eq!(line, CALL.replace("/work/a.txt", "/workspace/u/a.txt"));
        }
        other => panic!("{other:?}"),
    }
}

#[test]
fn refused_calls_are_answered_under_their_id() {
    let (message, paths) = tools_call(CALL);
    let refused = NpxcError::PathOutOfScope {
        path: "/work/a.txt".to_string(),
        cwd: "/other".to_string(),
    };
    match translate_tools_call(message, &paths, &vec![PathOutcome::Refused(refused)]) {
        Disposition::Drop(Some(answer)) => {
            let v = parse(&answer).unwrap();
            assert_eq!(v.get("id").unwrap(), &parse("5").unwrap());
            let error = v.get("error").unwrap();
            assert_eq!(error.get("code").unwrap(), &parse("-32602").unwrap());
            assert_eq!(
                error.get("message").unwrap().as_str(),
                Some("npxc: path outside CWD scope")
            );
            let data = error.get("data").unwrap();
            assert_eq!(data.get("path").unwrap().as_str(), Some("/work/a.txt"));
            assert_eq!(data.get("cwd").unwrap().as_str(), Some("/other"));
        }
        other => panic!("{other:?}"),
    }
}

#[test]
fn calls_whose_files_cannot_be_published_are_dropped() {
    let (message, paths) = tools_call(CALL);
    assert_eq!(
        translate_tools_call(message, &paths, &vec![PathOutcome::Failed]),
        Disposition::Drop(None)
    );
}

#[test]
fn resource_uris_are_rewritten() {
    let raw = r#"{"id":1,"jsonrpc":"2.0","method":"resources/read","params":{"uri":"file:///work/a.txt"}}"#;
    let (message, uri) = match client_to_server(raw, false, &config(), &no_schemas()) {
        ClientStep::ResourcesRead { message, uri } => (message, uri),
        other => panic!("{other:?}"),
    };
    assert_eq!(uri, "file:///work/a.txt");
    let outcome = PathOutcome::Published("/workspace/u/a.txt".to_string());
    assert_eq!(
        translate_resources_read(message.clone(), &outcome),
        Disposition::Forward(raw.replace("/work/a.txt", "/workspace/u/a.txt"))
    );
    let missing = PathOutcome::Refused(NpxcError::PathNotFound(uri));
    match translate_resources_read(message, &missing) {
        Disposition::Drop(Some(answer)) => {
            assert!(answer.contains("npxc: path not found or unreadable"));
        }
        other => panic!("{other:?}"),
    }
}

#[test]
fn other_lines_pass() {
    let schemas = no_schemas();
    let pass = |raw: &str, no_isolate: bool| {
        forwarded(client_to_server(raw, no_isolate, &config(), &schemas))
    };
    assert_eq!(pass(CALL, true), CALL);
    assert_eq!(pass("not json", false), "not json");
    for raw in [
        r#"{"id":1,"method":"tools/list"}"#,
        r#"{"method":"tools/call","params":{}}"#,
        r#"{"id":1,"method":"tools/call"}"#,
        r#"{"id":1,"method":"resources/read","params":{"uri":"https://example.com"}}"#,
    ] {
        assert_eq!(pass(raw, false), raw);
    }
}

#[test]
fn responses_leave_schemas_and_get_host_paths() {
    let mut schemas = no_schemas();
    let raw = r#"{"id":1,"result":{"tools":[{"inputSchema":{"type":"object"},"name":"t"}]}}"#;
    assert_eq!(server_to_client(raw, &mut schemas, &vec![]), raw);
    assert_eq!(schemas.len(), 1);
    assert_eq!(schemas.get("t").unwrap().name, "t");

    let snapshot = vec![("/workspace/u/a.txt".to_string(), "/work/a.txt".to_string())];
    let raw = r#"{"id":1,"result":{"text":"see /workspace/u/a.txt"}}"#;
    assert_eq!(
        server_to_client(raw, &mut schemas, &snapshot),
        r#"{"id":1,"result":{"text":"see /work/a.txt"}}"#
    );
    assert_eq!(
        server_to_client("plain /workspace/u/a.txt", &mut schemas, &snapshot),
        "plain /workspace/u/a.txt"
    );
    assert_eq!(schemas.len(), 1);
}

#[test]
fn directions_stop_with_their_source_or_on_demand() {
    assert_eq!(pump(PumpEvent::Line("x".into())), PumpAction::Handle("x".into()));
    assert_eq!(pump(PumpEvent::Closed), PumpAction::Stop(true));
    assert_eq!(pump(PumpEvent::ReadFailed), PumpAction::Stop(false));
    assert_eq!(pump(PumpEvent::Signal(Some(false))), PumpAction::Wait);
    assert_eq!(pump(PumpEvent::Signal(Some(true))), PumpAction::Stop(false));
    assert_eq!(pump(PumpEvent::Signal(None)), PumpAction::Stop(false));
}

// ── errors ────────────────────────────────────────────────────────────────────

#[test]
fn errors_read_and_exit_as_they_should() {
    let s = |t: &str| t.to_string();
    for (error, text, code) in [
        (NpxcError::Config(s("c")), "Configuration error: c", 1),
        (NpxcError::RuntimeNotAvailable(s("r")), "Container runtime not available: r", 2),
        (NpxcError::BuildFailed { code: Some(-9) }, "Image build failed (exit code: -9)", 3),
        (NpxcError::BuildFailed { code: None }, "Image build failed (exit code: unknown)", 3),
        (NpxcError::Runtime(s("x")), "Runtime error: x", 4),
        (
            NpxcError::PathOutOfScope { path: s("/p"), cwd: s("/c") },
            "Path outside CWD scope: /p (cwd: /c)",
            1,
        ),
        (NpxcError::PathNotFound(s("/p")), "Path not found or unreadable: /p", 1),
        (NpxcError::Io(s("io")), "io", 1),
        (NpxcError::Json(s("json")), "json", 1),
        (NpxcError::TomlDe(s("de")), "de", 1),
        (NpxcError::TomlSer(s("ser")), "ser", 1),
        (NpxcError::Other(s("other")), "other", 1),
    ] {
        assert_eq!(error.to_string(), text);
        assert_eq!(error.exit_code(), code);
    }
}

#[test]
fn only_path_errors_are_answered() {
    assert!(NpxcError::Config("c".to_string()).to_rpc_error_response(&Json::Null).is_none());
    let answer = NpxcError::PathNotFound("/p".to_string()).to_rpc_error_response(&Json::Null);
    let v = parse(&answer.unwrap()).unwrap();
    assert_eq!(v.get("id").unwrap(), &Json::Null);
    assert_eq!(v.get("jsonrpc").unwrap().as_str(), Some("2.0"));
    assert!(v.get("result").is_none());
    assert!(!render(&v).contains('\n'));
}

#[test]
fn keys_with_slashes_are_rewritten_too() {
    let call = CALL.replace("\"path\"", "\"a/b\"");
    let (message, paths) = tools_call(&call);
    assert_eq!(paths, vec![("/a~1b".to_string(), "/work/a.txt".to_string())]);
    let outcomes = vec![PathOutcome::Published("/workspace/u/a.txt".to_string())];
    match translate_tools_call(message, &paths, &outcomes) {
        Disposition::Forward(line) => assert_eq!(
            parse(&line).unwrap(),
            parse(&call.replace("/work/a.txt", "/workspace/u/a.txt")).unwrap()
        ),
        other => panic!("{other:?}"),
    }
}

#[test]
fn a_container_that_dies_is_a_runtime_error() {
    assert!(pipeline_result(true, &Outcome::Exited(Some(137))).is_ok());
    assert!(pipeline_result(false, &Outcome::Exited(Some(0))).is_ok());
    let died = pipeline_result(false, &Outcome::Exited(Some(137))).unwrap_err();
    assert_eq!(died.exit_code(), 4);
    assert_eq!(
        died.to_string(),
        "Runtime error: container exited unexpectedly (exit code: Some(137))"
    );
    assert!(matches!(
        pipeline_result(false, &Outcome::Exited(None)),
        Err(NpxcError::Runtime(_))
    ));
    assert!(matches!(
        pipeline_result(false, &Outcome::NotStarted("gone".to_string())),
        Err(NpxcError::Runtime(m)) if m == "container was not started: gone"
    ));
}
