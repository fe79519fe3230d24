//! Finding path arguments.

use npxc::config::merge::{EffectiveConfig, NetworkPolicy};
use npxc::json::{parse, Json};
use npxc::paths::identify::{identify_path_args, is_path_description, is_path_format};
use npxc::rpc::message::ToolSchema;
use npxc::table::Table;

fn base_config() -> EffectiveConfig {
    EffectiveConfig {
        node_image: String::new(),
        container_cli: String::new(),
        network: NetworkPolicy::NoNetwork,
        memory: String::new(),
        cpus: String::new(),
        mount_mode: String::new(),
        log_level: String::new(),
        strategies: vec![],
        heuristic_absolute_prefix: false,
        heuristic_home_prefix: false,
        heuristic_uri_prefix: vec![],
        version: None,
        path_arguments: Table::new(),
        non_path_arguments: Table::new(),
        env: Table::new(),
        env_passthrough: Vec::new(),
        storage: None,
        mounts: Vec::new(),
    }
}

fn object(text: &str) -> Vec<(String, Json)> {
    match parse(text).unwrap() {
        Json::Object(members) => members,
        _ => panic!("an object"),
    }
}

fn str_args(pairs: &[(&str, &str)]) -> Vec<(String, Json)> {
    pairs.iter().map(|(k, v)| (k.to_string(), Json::Text(v.to_string()))).collect()
}

fn make_schemas(tool: &str, properties: &str) -> Table<ToolSchema> {
    let mut schemas = Table::new();
    let text = format!("{{\"type\": \"object\", \"properties\": {properties}}}");
    schemas.insert(
        tool.to_string(),
        ToolSchema { name: tool.to_string(), input_schema: parse(&text).unwrap() },
    );
    schemas
}

fn no_schemas() -> Table<ToolSchema> {
    Table::new()
}

fn ptrs(v: &[(String, String)]) -> Vec<&str> {
    v.iter().map(|(p, _)| p.as_str()).collect()
}

// ── config strategy ───────────────────────────────────────────────────────────

#[test]
fn config_strategy_wildcard_match() {
    let mut config = base_config();
    config.strategies = vec!["config".into()];
    config.path_arguments.insert("*".into(), vec!["file".into()]);

    let args = object(r#"{"file": "/tmp/a.txt", "count": 3}"#);
    let result = identify_path_args("any_tool", &args, &config, &no_schemas());
    assert!(ptrs(&result).contains(&"/file"));
    assert!(!ptrs(&result).contains(&"/count"));
}

#[test]
fn identify_config_strategy_tool_specific_match() {
    let mut config = base_config();
    config.strategies = vec!["config".into()];
    config.path_arguments.insert("my_tool".into(), vec!["output".into()]);

    let args = object(r#"{"output": "/out/report.pdf"}"#);
    let result = identify_path_args("my_tool", &args, &config, &no_schemas());
    assert!(ptrs(&result).contains(&"/output"));
}

#[test]
fn config_strategy_ignores_non_string_values() {
    let mut config = base_config();
    config.strategies = vec!["config".into()];
    config.path_arguments.insert("*".into(), vec!["path".into()]);

    let args = object(r#"{"path": 42}"#);
    let result = identify_path_args("t", &args, &config, &no_schemas());
    assert!(result.is_empty());
}

#[test]
fn config_strategy_wildcard_identifies_path_not_url() {
    let mut config = base_config();
    config.strategies = vec!["config".into()];
    config.path_arguments.insert("*".into(), vec!["path".into()]);

    let args = str_args(&[("path", "/foo/bar.txt"), ("url", "http://example.com")]);
    let result = identify_path_args("any_tool", &args, &config, &no_schemas());
    let ps = ptrs(&result);

    assert!(ps.contains(&"/path"), "path should be identified");
    assert!(!ps.contains(&"/url"), "url should not be identified");
}

#[test]
fn path_identify_config_strategy_tool_specific_match() {
    let mut config = base_config();
    config.strategies = vec!["config".into()];
    config.path_arguments.insert("read_pdf".into(), vec!["path".into()]);

    let args = str_args(&[("path", "/tmp/doc.pdf")]);
    let result = identify_path_args("read_pdf", &args, &config, &no_schemas());
    assert!(ptrs(&result).contains(&"/path"));
}

#[test]
fn config_strategy_skips_non_string_values() {
    let mut config = base_config();
    config.strategies = vec!["config".into()];
    config.path_arguments.insert("*".into(), vec!["path".into()]);

    let args = object(r#"{"path": 42}"#);
    let result = identify_path_args("tool", &args, &config, &no_schemas());
    assert!(result.is_empty());
}

// ── schema strategy ───────────────────────────────────────────────────────────

#[test]
fn schema_strategy_format_path() {
    let mut config = base_config();
    config.strategies = vec!["schema".into()];
    let schemas = make_schemas("tool", r#"{"src": {"format": "path"}}"#);

    let args = object(r#"{"src": "/etc/hosts"}"#);
    let result = identify_path_args("tool", &args, &config, &schemas);
    assert!(ptrs(&result).contains(&"/src"));
}

#[test]
fn schema_strategy_format_uri_case_insensitive() {
    let mut config = base_config();
    config.strategies = vec!["schema".into()];
    let schemas = make_schemas("tool", r#"{"u": {"format": "URI"}}"#);

    let args = object(r#"{"u": "file:///tmp/x"}"#);
    let result = identify_path_args("tool", &args, &config, &schemas);
    assert!(ptrs(&result).contains(&"/u"));
}

#[test]
fn schema_strategy_description_file_path() {
    let mut config = base_config();
    config.strategies = vec!["schema".into()];
    let schemas = make_schemas("tool", r#"{"p": {"description": "The file path to read"}}"#);

    let args = object(r#"{"p": "/a/b"}"#);
    let result = identify_path_args("tool", &args, &config, &schemas);
    assert!(ptrs(&result).contains(&"/p"));
}

#[test]
fn schema_strategy_description_absolute_path() {
    let mut config = base_config();
    config.strategies = vec!["schema".into()];
    let schemas = make_schemas("tool", r#"{"x": {"description": "Absolute path on disk"}}"#);

    let args = object(r#"{"x": "/root"}"#);
    let result = identify_path_args("tool", &args, &config, &schemas);
    assert!(ptrs(&result).contains(&"/x"));
}

#[test]
fn schema_strategy_no_match_for_plain_string_property() {
    let mut config = base_config();
    config.strategies = vec!["schema".into()];
    let schemas = make_schemas("tool", r#"{"name": {"type": "string"}}"#);

    let args = object(r#"{"name": "Alice"}"#);
    let result = identify_path_args("tool", &args, &config, &schemas);
    assert!(result.is_empty());
}

#[test]
fn schema_strategy_format_path_identifies_arg() {
    let mut config = base_config();
    config.strategies = vec!["schema".into()];
    let schemas = make_schemas(
        "read_file",
        r#"{"path": {"type": "string", "format": "path"}, "count": {"type": "integer"}}"#,
    );

    let mut args = str_args(&[("path", "/some/file.txt")]);
    args.push(("count".into(), parse("5").unwrap()));

    let result = identify_path_args("read_file", &args, &config, &schemas);
    assert!(ptrs(&result).contains(&"/path"));
    assert!(!ptrs(&result).contains(&"/count"));
}

#[test]
fn schema_strategy_description_file_path_identifies_arg() {
    let mut config = base_config();
    config.strategies = vec!["schema".into()];
    let schemas = make_schemas(
        "process",
        r#"{"input": {"type": "string", "description": "The file path to process"}}"#,
    );

    let args = str_args(&[("input", "/data/file.txt")]);
    let result = identify_path_args("process", &args, &config, &schemas);
    assert!(ptrs(&result).contains(&"/input"));
}

#[test]
fn schema_strategy_description_absolute_path_identifies_arg() {
    let mut config = base_config();
    config.strategies = vec!["schema".into()];
    let schemas = make_schemas(
        "scan",
        r#"{"target": {"type": "string", "description": "Absolute path to the target directory"}}"#,
    );

    let args = str_args(&[("target", "/var/log")]);
    let result = identify_path_args("scan", &args, &config, &schemas);
    assert!(ptrs(&result).contains(&"/target"));
}

#[test]
fn schema_strategy_plain_string_property_not_identified() {
    let mut config = base_config();
    config.strategies = vec!["schema".into()];
    let schemas =
        make_schemas("query", r#"{"q": {"type": "string", "description": "Search query"}}"#);

    let args = str_args(&[("q", "hello world")]);
    let result = identify_path_args("query", &args, &config, &schemas);
    assert!(!ptrs(&result).contains(&"/q"), "plain string should not be identified");
}

// ── heuristic strategy ────────────────────────────────────────────────────────

#[test]
fn heuristic_absolute_prefix() {
    let mut config = base_config();
    config.strategies = vec!["heuristic".into()];
    config.heuristic_absolute_prefix = true;

    let args = object(r#"{"p": "/usr/bin/env", "q": "relative"}"#);
    let result = identify_path_args("t", &args, &config, &no_schemas());
    assert!(ptrs(&result).contains(&"/p"));
    assert!(!ptrs(&result).contains(&"/q"));
}

#[test]
fn heuristic_home_prefix() {
    let mut config = base_config();
    config.strategies = vec!["heuristic".into()];
    config.heuristic_home_prefix = true;

    let args = object(r#"{"h": "~/Documents/note.txt"}"#);
    let result = identify_path_args("t", &args, &config, &no_schemas());
    assert!(ptrs(&result).contains(&"/h"));
}

#[test]
fn heuristic_uri_prefix() {
    let mut config = base_config();
    config.strategies = vec!["heuristic".into()];
    config.heuristic_uri_prefix = vec!["file://".into(), "s3://".into()];

    let args = object(r#"{"a": "file:///tmp/x", "b": "s3://bucket/key", "c": "just text"}"#);
    let result = identify_path_args("t", &args, &config, &no_schemas());
    assert!(ptrs(&result).contains(&"/a"));
    assert!(ptrs(&result).contains(&"/b"));
    assert!(!ptrs(&result).contains(&"/c"));
}

#[test]
fn heuristic_relative_paths_not_classified() {
    let mut config = base_config();
    config.strategies = vec!["heuristic".into()];
    config.heuristic_absolute_prefix = true;

    let args = object(r#"{"r": "./foo/bar", "r2": "../baz"}"#);
    let result = identify_path_args("t", &args, &config, &no_schemas());
    assert!(result.is_empty());
}

const NESTED: &str = r#"{
    "sources": [
        { "path": "/Users/tom/docs/report.pdf" },
        { "url": "https://example.com/other.pdf" }
    ],
    "include_full_text": true
}"#;

#[test]
fn identify_heuristic_nested_array_of_objects() {
    let mut config = base_config();
    config.strategies = vec!["heuristic".into()];
    config.heuristic_absolute_prefix = true;

    let args = object(NESTED);
    let result = identify_path_args("read_pdf", &args, &config, &no_schemas());
    let ps = ptrs(&result);
    assert!(ps.contains(&"/sources/0/path"), "nested path not found: {ps:?}");
    assert!(!ps.contains(&"/sources/1/url"), "url should not be a path");
}

#[test]
fn heuristic_absolute_prefix_identifies_path() {
    let mut config = base_config();
    config.strategies = vec!["heuristic".into()];
    config.heuristic_absolute_prefix = true;

    let args = str_args(&[("input", "/absolute/path.txt"), ("name", "relative_name")]);
    let result = identify_path_args("tool", &args, &config, &no_schemas());
    let ps = ptrs(&result);

    assert!(ps.contains(&"/input"), "absolute path should be identified");
    assert!(!ps.contains(&"/name"), "plain name should not be identified");
}

#[test]
fn heuristic_relative_paths_not_identified() {
    let mut config = base_config();
    config.strategies = vec!["heuristic".into()];
    config.heuristic_absolute_prefix = true;
    config.heuristic_home_prefix = true;

    let args = str_args(&[("rel", "./relative/file.txt"), ("plain", "just_a_name")]);
    let result = identify_path_args("tool", &args, &config, &no_schemas());
    assert!(result.is_empty(), "relative/plain args should not be identified: {result:?}");
}

#[test]
fn heuristic_home_prefix_identifies_path() {
    let mut config = base_config();
    config.strategies = vec!["heuristic".into()];
    config.heuristic_home_prefix = true;

    let args = str_args(&[("path", "~/Documents/report.pdf")]);
    let result = identify_path_args("tool", &args, &config, &no_schemas());
    assert!(ptrs(&result).contains(&"/path"), "~/… should be identified");
}

#[test]
fn heuristic_file_uri_prefix_identifies_path() {
    let mut config = base_config();
    config.strategies = vec!["heuristic".into()];
    config.heuristic_uri_prefix = vec!["file://".into()];

    let args = str_args(&[("src", "file:///tmp/data.txt")]);
    let result = identify_path_args("tool", &args, &config, &no_schemas());
    assert!(ptrs(&result).contains(&"/src"), "file:// URI should be identified");
}

#[test]
fn path_identify_heuristic_nested_array_of_objects() {
    let mut config = base_config();
    config.strategies = vec!["heuristic".into()];
    config.heuristic_absolute_prefix = true;

    let args = object(NESTED);
    let result = identify_path_args("read_pdf", &args, &config, &no_schemas());
    let ps = ptrs(&result);

    assert!(ps.contains(&"/sources/0/path"), "nested path not found: {ps:?}");
    assert!(!ps.contains(&"/sources/1/url"), "https url should not be a path");
}

// ── non-path suppression ──────────────────────────────────────────────────────

#[test]
fn non_path_suppression_removes_classified_key() {
    let mut config = base_config();
    config.strategies = vec!["heuristic".into()];
    config.heuristic_absolute_prefix = true;
    config.non_path_arguments.insert("*".into(), vec!["p".into()]);

    let args = object(r#"{"p": "/etc/passwd"}"#);
    let result = identify_path_args("t", &args, &config, &no_schemas());
    assert!(result.is_empty());
}

#[test]
fn identify_non_path_tool_specific_suppression() {
    let mut config = base_config();
    config.strategies = vec!["heuristic".into()];
    config.heuristic_absolute_prefix = true;
    config.non_path_arguments.insert("my_tool".into(), vec!["p".into()]);

    let args = object(r#"{"p": "/etc/passwd"}"#);

    let r1 = identify_path_args("my_tool", &args, &config, &no_schemas());
    assert!(r1.is_empty());

    let r2 = identify_path_args("other_tool", &args, &config, &no_schemas());
    assert!(ptrs(&r2).contains(&"/p"));
}

#[test]
fn non_path_suppression_overrides_heuristic() {
    let mut config = base_config();
    config.strategies = vec!["heuristic".into()];
    config.heuristic_absolute_prefix = true;
    config.non_path_arguments.insert("*".into(), vec!["url".into()]);

    let args = str_args(&[("url", "/looks/like/a/path"), ("path", "/real/path.txt")]);
    let result = identify_path_args("tool", &args, &config, &no_schemas());
    let ps = ptrs(&result);

    assert!(!ps.contains(&"/url"), "url should be suppressed");
    assert!(ps.contains(&"/path"), "path should still be identified");
}

#[test]
fn path_identify_non_path_tool_specific_suppression() {
    let mut config = base_config();
    config.strategies = vec!["heuristic".into()];
    config.heuristic_absolute_prefix = true;
    config.non_path_arguments.insert("render".into(), vec!["output".into()]);

    let args = str_args(&[("output", "/tmp/out.png"), ("input", "/tmp/in.png")]);

    let result_render = identify_path_args("render", &args, &config, &no_schemas());
    assert!(!ptrs(&result_render).contains(&"/output"));
    assert!(ptrs(&result_render).contains(&"/input"));

    let result_other = identify_path_args("other", &args, &config, &no_schemas());
    assert!(ptrs(&result_other).contains(&"/output"));
    assert!(ptrs(&result_other).contains(&"/input"));
}

// ── combined strategies ───────────────────────────────────────────────────────

#[test]
fn union_semantics_across_strategies() {
    let mut config = base_config();
    config.strategies = vec!["config".into(), "heuristic".into()];
    config.heuristic_absolute_prefix = true;
    config.path_arguments.insert("*".into(), vec!["explicit".into()]);

    let args = object(r#"{"explicit": "/a", "auto": "/b", "skip": "text"}"#);
    let result = identify_path_args("t", &args, &config, &no_schemas());
    let ps = ptrs(&result);

    assert!(ps.contains(&"/explicit"));
    assert!(ps.contains(&"/auto"));
    assert!(!ps.contains(&"/skip"));
    // Found by both strategies, listed once.
    assert_eq!(ps.iter().filter(|p| **p == "/explicit").count(), 1);
}

#[test]
fn combined_config_and_heuristic_union() {
    let mut config = base_config();
    config.strategies = vec!["config".into(), "heuristic".into()];
    config.heuristic_absolute_prefix = true;
    config.path_arguments.insert("*".into(), vec!["explicit_path".into()]);

    let args = str_args(&[
        ("explicit_path", "not-absolute-but-in-config"),
        ("heuristic_path", "/absolute/via/heuristic"),
    ]);
    let result = identify_path_args("tool", &args, &config, &no_schemas());
    let ps = ptrs(&result);

    assert!(ps.contains(&"/explicit_path"), "config strategy should identify explicit_path");
    assert!(ps.contains(&"/heuristic_path"), "heuristic should identify absolute path");
}

#[test]
fn empty_strategy_list_identifies_nothing() {
    let mut config = base_config();
    config.strategies = vec![];
    config.heuristic_absolute_prefix = true;
    config.path_arguments.insert("*".into(), vec!["path".into()]);

    let args = str_args(&[("path", "/some/path.txt")]);
    let result = identify_path_args("tool", &args, &config, &no_schemas());
    assert!(result.is_empty(), "empty strategy list should identify nothing");
}

#[test]
fn heuristic_only_strategy_ignores_config_map() {
    let mut config = base_config();
    config.strategies = vec!["heuristic".into()];
    config.heuristic_absolute_prefix = true;
    config.path_arguments.insert("*".into(), vec!["name".into()]);

    let args = str_args(&[("abs", "/absolute/path"), ("name", "some_plain_name")]);
    let result = identify_path_args("tool", &args, &config, &no_schemas());
    let ps = ptrs(&result);

    assert!(ps.contains(&"/abs"), "absolute path should be identified by heuristic");
    assert!(
        !ps.contains(&"/name"),
        "non-absolute value should not be identified by heuristic"
    );
}

#[test]
fn pointers_lead_back_to_the_values() {
    let mut config = base_config();
    config.strategies = vec!["heuristic".into()];
    config.heuristic_absolute_prefix = true;

    let args = object(NESTED);
    let found = identify_path_args("read_pdf", &args, &config, &no_schemas());
    assert_eq!(
        found,
        vec![("/sources/0/path".to_string(), "/Users/tom/docs/report.pdf".to_string())]
    );
    let mut value = Json::Object(args);
    value.set_at("/sources/0/path", Json::Text("/workspace/u/report.pdf".to_string()));
    let first = &value.get("sources").unwrap().as_array().unwrap()[0];
    assert_eq!(first.get("path").unwrap().as_str(), Some("/workspace/u/report.pdf"));
}

#[test]
fn schema_words_are_recognized() {
    assert!(is_path_format("path"));
    assert!(is_path_format("uri"));
    assert!(!is_path_format("date"));
    assert!(is_path_description("an absolute path"));
    assert!(is_path_description("the file path"));
    assert!(!is_path_description("a search query"));
}

#[test]
fn keys_are_escaped_in_pointers() {
    let mut config = base_config();
    config.strategies = vec!["heuristic".into()];
    config.heuristic_absolute_prefix = true;

    let args = object(r#"{"a/b": "/x"}"#);
    let found = identify_path_args("t", &args, &config, &no_schemas());
    assert_eq!(found, vec![("/a~1b".to_string(), "/x".to_string())]);

    let args = object(r#"{"m~/n": ["/y"], "~1": "/z"}"#);
    let found = identify_path_args("t", &args, &config, &no_schemas());
    let mut value = Json::Object(args);
    for (pointer, text) in &found {
        value.set_at(pointer, Json::Text(format!("/workspace{text}")));
    }
    assert_eq!(
        value,
        parse(r#"{"m~/n": ["/workspace/y"], "~1": "/workspace/z"}"#).unwrap()
    );

    config.non_path_arguments.insert("*".into(), vec!["a/b".into()]);
    let args = object(r#"{"a/b": "/x", "b": "/w"}"#);
    let found = identify_path_args("t", &args, &config, &no_schemas());
    assert_eq!(ptrs(&found), vec!["/b"]);
}

#[test]
fn listed_and_described_keys_are_escaped_too() {
    let mut config = base_config();
    config.strategies = vec!["config".into(), "schema".into()];
    config.path_arguments.insert("*".into(), vec!["in/put".into()]);
    let schemas = make_schemas("t", r#"{"out~put": {"format": "path"}}"#);
    let args = str_args(&[("in/put", "a"), ("out~put", "b")]);
    let found = identify_path_args("t", &args, &config, &schemas);
    assert_eq!(ptrs(&found), vec!["/in~1put", "/out~0put"]);
}
