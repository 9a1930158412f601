use liara_core::mcp::{
    configured_servers, mcp_consent_action, mcp_tool_name, parse_call_result, parse_tools,
    reply_to, Reply,
};
use serde_json::Value;

fn value(text: &str) -> Value {
    serde_json::from_str(text).unwrap()
}

#[test]
fn parses_tools_list() {
    let res = value(
        r#"{ "tools": [
            { "name": "read_file", "description": "Read a file", "inputSchema": { "type": "object" } },
            { "name": "write_file" }
        ]}"#,
    );
    let tools = parse_tools(&res);
    assert_eq!(tools.len(), 2);
    assert_eq!(tools[0].name, "read_file");
    assert_eq!(tools[0].description, "Read a file");
    assert_eq!(tools[1].name, "write_file"); // missing description → empty, still parsed
}

#[test]
fn flattens_call_result_text() {
    let res = value(
        r#"{ "content": [ { "type": "text", "text": "riga 1" }, { "type": "text", "text": "riga 2" } ] }"#,
    );
    assert_eq!(parse_call_result(&res), "riga 1\nriga 2");
}

#[test]
fn tools_without_name_are_skipped_and_schema_defaults() {
    let res = value(r#"{ "tools": [ { "description": "anonymous" }, { "name": "w" } ] }"#);
    let tools = parse_tools(&res);
    assert_eq!(tools.len(), 1);
    assert_eq!(tools[0].name, "w");
    assert_eq!(tools[0].description, "");
    assert_eq!(tools[0].schema, value(r#"{"type":"object"}"#));
}

#[test]
fn no_tools_array_no_tools() {
    assert!(parse_tools(&value(r#"{"tools": 3}"#)).is_empty());
    assert!(parse_tools(&value("[]")).is_empty());
}

#[test]
fn call_result_without_text_is_its_json() {
    let res = value(r#"{"content":[{"type":"image"}]}"#);
    assert_eq!(parse_call_result(&res), r#"{"content":[{"type":"image"}]}"#);
}

#[test]
fn reply_matching_by_id() {
    match reply_to(&value(r#"{"jsonrpc":"2.0","id":2,"result":{"ok":true}}"#), 2) {
        Reply::Answered(v) => assert_eq!(v, value(r#"{"ok":true}"#)),
        _ => panic!("expected an answer"),
    }
    assert!(matches!(reply_to(&value(r#"{"id":3,"result":1}"#), 2), Reply::Other));
    assert!(matches!(reply_to(&value(r#"{"method":"notify"}"#), 2), Reply::Other));
    match reply_to(&value(r#"{"id":2,"error":{"code":-1}}"#), 2) {
        Reply::Failed(m) => assert_eq!(m, r#"MCP error: {"code":-1}"#),
        _ => panic!("expected an error"),
    }
    match reply_to(&value(r#"{"id":2}"#), 2) {
        Reply::Answered(v) => assert_eq!(v, Value::Null),
        _ => panic!("expected an answer"),
    }
}

#[test]
fn server_configuration() {
    let servers =
        configured_servers(r#"[{"name":"fs","command":"mcp-fs","args":["/tmp", 3, "-v"]}, {}]"#)
            .unwrap();
    assert_eq!(servers.len(), 2);
    assert_eq!(servers[0].command, "mcp-fs");
    assert_eq!(servers[0].args, vec!["/tmp".to_string(), "-v".to_string()]);
    assert_eq!(servers[1].command, "");
    assert!(servers[1].args.is_empty());
    assert!(configured_servers("{}").is_none());
    assert!(configured_servers("not json").is_none());
}

#[test]
fn tool_names_and_consent() {
    assert_eq!(mcp_tool_name("read_file"), "mcp_read_file");
    assert_eq!(mcp_consent_action("x"), "usare lo strumento esterno MCP «x»");
}
