//! One JSON text per line.

use npxc::json::{parse, render, Json, MAX_NESTING};
use npxc::rpc::framing::{has_content, read_line, write_line, write_raw_line};

/// The messages of a stream, read line by line.
fn lines(stream: &str) -> Vec<String> {
    stream.split_inclusive('\n').filter_map(read_line).collect()
}

fn json(text: &str) -> Json {
    parse(text).unwrap()
}

#[test]
fn round_trip_single_object() {
    let value = json(r#"{"jsonrpc": "2.0", "id": 1, "method": "tools/call", "params": {}}"#);
    let read = lines(&write_line(&value));
    assert_eq!(read.len(), 1);
    assert_eq!(json(&read[0]), value);
}

#[test]
fn round_trip_multi_message() {
    let messages = [
        json(r#"{"id": 1, "method": "initialize"}"#),
        json(r#"{"id": 2, "result": {"capabilities": {}}}"#),
        json(r#"{"method": "notifications/progress", "params": {}}"#),
    ];

    let mut stream = String::new();
    for msg in &messages {
        stream.push_str(&write_line(msg));
    }

    let read = lines(&stream);
    assert_eq!(read.len(), messages.len());
    for (line, expected) in read.iter().zip(&messages) {
        assert_eq!(&json(line), expected);
    }
}

#[test]
fn blank_lines_are_skipped() {
    let value = json(r#"{"id": 3, "method": "ping"}"#);
    let stream = format!("\n\n{}\n\n", render(&value));
    let read = lines(&stream);
    assert_eq!(read.len(), 1);
    assert_eq!(json(&read[0]), value);
}

#[test]
fn empty_input_returns_none() {
    assert!(lines("").is_empty());
    assert!(read_line("").is_none());
}

#[test]
fn large_payload_round_trips() {
    let big_string = "x".repeat(1024 * 1024);
    let value = Json::Object(vec![
        ("data".to_string(), Json::Text(big_string)),
        ("id".to_string(), json("99")),
    ]);

    let read = lines(&write_line(&value));
    let parsed = json(&read[0]);
    assert_eq!(
        parsed.get("data").unwrap().as_str().unwrap().len(),
        1024 * 1024,
        "1 MB string should survive a framing round-trip"
    );
    assert_eq!(parsed.get("id").unwrap(), &json("99"));
}

#[test]
fn write_raw_line_round_trips() {
    let raw = r#"{"id":100,"method":"custom/op","params":{"key":"value"}}"#;
    assert_eq!(lines(&write_raw_line(raw)), vec![raw.to_string()]);
}

#[test]
fn frame_reader_skips_blank_and_whitespace_lines() {
    let value = json(r#"{"id": 2, "result": {}}"#);
    let stream = format!("\n\n   \n{}\n", render(&value));
    let read: Vec<&str> = stream.lines().filter(|l| has_content(l)).collect();
    assert_eq!(read.len(), 1);
    assert_eq!(json(read[0]), value);
}

#[test]
fn line_ends_are_taken_off() {
    assert_eq!(read_line("a\r\n").as_deref(), Some("a"));
    assert_eq!(read_line("a b \n").as_deref(), Some("a b "));
    assert!(read_line("\r\n").is_none());
    assert_eq!(write_raw_line("a"), "a\n");
    assert!(!has_content(" \t"));
    assert!(has_content(" x "));
}

#[test]
fn values_nested_to_the_limit_are_read_back() {
    let text = format!("{}7{}", "[".repeat(MAX_NESTING), "]".repeat(MAX_NESTING));
    let value = json(&text);
    assert_eq!(render(&value), text);
    assert_eq!(json(&render(&value)), value);

    let deeper = format!("[{text}]");
    assert!(parse(&deeper).is_err());
    let unreadable = Json::Array(vec![value]);
    assert_eq!(render(&unreadable), deeper);
}

#[test]
fn integers_and_escapes_are_read_back() {
    let value = json(
        r#"{"b": -9223372036854775808, "a": 18446744073709551615, "t": "\u0000\n\r\"\\ ", "n": null}"#,
    );
    let line = write_line(&value);
    assert_eq!(line.matches('\n').count(), 1);
    assert_eq!(json(&read_line(&line).unwrap()), value);
}

#[test]
fn a_name_is_held_once() {
    assert_eq!(json(r#"{"a": 1, "a": 2}"#), json(r#"{"a": 2}"#));
    let twice = Json::Object(vec![
        ("a".to_string(), json("1")),
        ("a".to_string(), json("2")),
    ]);
    assert_eq!(render(&twice), r#"{"a":2}"#);
}
