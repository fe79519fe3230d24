//! Reading and rewriting JSON-RPC messages.

use npxc::json::{parse, render, Json};
use npxc::rpc::message::{
    extract_resources_read_uri, extract_tool_schemas, extract_tools_call, message_id,
    message_kind, replace_in_strings, MessageKind,
};

fn json(text: &str) -> Json {
    parse(text).unwrap()
}

#[test]
fn message_kind_request() {
    let v = json(r#"{ "jsonrpc": "2.0", "id": 1, "method": "tools/call", "params": {} }"#);
    assert_eq!(message_kind(&v), MessageKind::Request { method: "tools/call".to_owned() });
}

#[test]
fn message_kind_notification() {
    let v = json(r#"{ "jsonrpc": "2.0", "method": "notifications/progress", "params": {} }"#);
    assert_eq!(
        message_kind(&v),
        MessageKind::Notification { method: "notifications/progress".to_owned() }
    );
}

#[test]
fn message_kind_response_result() {
    let v = json(r#"{ "jsonrpc": "2.0", "id": 1, "result": {} }"#);
    assert_eq!(message_kind(&v), MessageKind::Response);
}

#[test]
fn message_kind_response_error() {
    let v = json(
        r#"{ "jsonrpc": "2.0", "id": 1, "error": { "code": -32600, "message": "err" } }"#,
    );
    assert_eq!(message_kind(&v), MessageKind::Response);
}

#[test]
fn message_kind_unknown() {
    let v = json(r#"{ "jsonrpc": "2.0" }"#);
    assert_eq!(message_kind(&v), MessageKind::Unknown);
}

#[test]
fn extract_tool_schemas_happy() {
    let v = json(
        r#"{
        "jsonrpc": "2.0", "id": 1,
        "result": {
            "tools": [
                { "name": "read_file", "inputSchema": { "type": "object" } },
                { "name": "write_file", "inputSchema": { "type": "object" } }
            ]
        }
    }"#,
    );
    let schemas = extract_tool_schemas(&v);
    assert_eq!(schemas.len(), 2);
    assert_eq!(schemas[0].name, "read_file");
    assert_eq!(schemas[1].name, "write_file");
    assert_eq!(schemas[0].input_schema.get("type").unwrap().as_str(), Some("object"));
}

#[test]
fn extract_tool_schemas_missing_returns_empty() {
    let v = json(r#"{ "result": {} }"#);
    assert!(extract_tool_schemas(&v).is_empty());
}

#[test]
fn extract_tools_call_happy() {
    let v = json(
        r#"{
        "jsonrpc": "2.0", "id": 2,
        "method": "tools/call",
        "params": { "name": "read_file", "arguments": { "path": "/foo" } }
    }"#,
    );
    let (name, args) = extract_tools_call(&v).unwrap();
    assert_eq!(name, "read_file");
    assert_eq!(args, &vec![("path".to_string(), Json::Text("/foo".to_string()))]);
}

#[test]
fn extract_tools_call_missing_returns_none() {
    let v = json(r#"{ "method": "tools/call" }"#);
    assert!(extract_tools_call(&v).is_none());
}

#[test]
fn extract_resources_read_uri_happy() {
    let v = json(
        r#"{
        "jsonrpc": "2.0", "id": 3,
        "method": "resources/read",
        "params": { "uri": "file:///workspace/abc/foo.txt" }
    }"#,
    );
    assert_eq!(extract_resources_read_uri(&v), Some("file:///workspace/abc/foo.txt"));
}

#[test]
fn message_id_present() {
    let v = json(r#"{ "id": 42 }"#);
    assert_eq!(message_id(&v), json("42"));
}

#[test]
fn message_id_absent_returns_null() {
    let v = json(r#"{ "method": "notify" }"#);
    assert_eq!(message_id(&v), Json::Null);
}

#[test]
fn replace_in_strings_recursive() {
    let mut v = json(
        r#"{
        "text": "/workspace/uuid-1/file.txt",
        "nested": {
            "arr": ["/workspace/uuid-1/other.txt", 42, null]
        }
    }"#,
    );
    let replacements = vec![("/workspace/uuid-1".to_owned(), "/home/user/project".to_owned())];
    replace_in_strings(&mut v, &replacements);
    assert_eq!(v.get("text").unwrap().as_str(), Some("/home/user/project/file.txt"));
    let arr = v.get("nested").unwrap().get("arr").unwrap().as_array().unwrap();
    assert_eq!(arr[0].as_str(), Some("/home/user/project/other.txt"));
    assert_eq!(arr[1], json("42"));
    assert_eq!(arr[2], Json::Null);
}

#[test]
fn replace_in_strings_does_not_touch_keys() {
    let mut v = json(r#"{ "/workspace/uuid-1": "value" }"#);
    let replacements = vec![("/workspace/uuid-1".to_owned(), "/host".to_owned())];
    replace_in_strings(&mut v, &replacements);
    assert!(v.get("/workspace/uuid-1").is_some());
    assert_eq!(v.get("/workspace/uuid-1").unwrap().as_str(), Some("value"));
}

#[test]
fn replacements_are_made_one_after_the_other() {
    let mut v = Json::Text("aXbXX".to_string());
    let pairs = vec![("X".to_string(), "Y".to_string()), ("YY".to_string(), "Z".to_string())];
    replace_in_strings(&mut v, &pairs);
    assert_eq!(v.as_str(), Some("aYbZ"));
}

#[test]
fn texts_are_parsed_and_rendered() {
    let v = json(r#"{ "b": [1, 2.5, "x\ny", true, null], "a": {} }"#);
    let text = render(&v);
    assert!(!text.contains('\n'));
    assert_eq!(json(&text), v);
    assert_eq!(render(&json("[ 1 ,2 ]")), "[1,2]");
    assert!(parse("not json").is_err());
    assert_eq!(json(" [] "), Json::Array(vec![]));
}

#[test]
fn values_are_set_by_pointer() {
    let mut v = json(r#"{"a": [{"b": 1}, {"b": 2}], "c": "d"}"#);
    v.set_at("/a/1/b", Json::Text("new".to_string()));
    assert_eq!(render(&v), r#"{"a":[{"b":1},{"b":"new"}],"c":"d"}"#);
    v.set_at("/a/7/b", Json::Null);
    v.set_at("/x", Json::Null);
    assert_eq!(render(&v), r#"{"a":[{"b":1},{"b":"new"}],"c":"d"}"#);
}

#[test]
fn malformed_tools_yield_no_schemas() {
    let v = json(r#"{"result": {"tools": [{"name": "a", "inputSchema": {}}, {"name": "b"}]}}"#);
    assert!(extract_tool_schemas(&v).is_empty());
    let v = json(r#"{"result": {"tools": [{"name": 1, "inputSchema": {}}]}}"#);
    assert!(extract_tool_schemas(&v).is_empty());
}

#[test]
fn integral_values_are_told_from_others() {
    assert!(json(r#"{"id": 18446744073709551615, "n": [-1, 0, null, "1.5"]}"#).is_integral());
    assert!(!json(r#"{"id": 1, "n": [{"x": 1.5}]}"#).is_integral());
    assert!(!json("1e3").is_integral());
}
