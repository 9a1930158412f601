use liara_core::remote::{first_json_array, parse_tool_calls_from_text, tc_from_obj};

#[test]
fn mistral_testuale_nome_fuori_dal_json() {
    let tc = parse_tool_calls_from_text(r#"[TOOL_CALLS]weather{"location": "Milano"}"#);
    assert_eq!(tc.len(), 1);
    assert_eq!(tc[0].name, "weather");
    assert!(tc[0].arguments.contains("Milano"));
}

#[test]
fn mistral_testuale_array() {
    let tc = parse_tool_calls_from_text(
        r#"[TOOL_CALLS][{"name":"weather","arguments":{"location":"Roma"}},{"name":"datetime","arguments":{}}]"#,
    );
    assert_eq!(tc.len(), 2);
    assert_eq!(tc[0].name, "weather");
    assert_eq!(tc[1].name, "datetime");
}

#[test]
fn mistral_testuale_ripetuto_e_rumore() {
    let tc = parse_tool_calls_from_text(r#"[TOOL_CALLS]weather{"location":"Bari"}datetime{}"#);
    assert_eq!(tc.len(), 2);
    assert!(parse_tool_calls_from_text("ciao, che bella giornata [quasi] serena").is_empty());
}

#[test]
fn formati_legacy_intatti() {
    let tc = parse_tool_calls_from_text(r#"<tool_call>{"name":"web_search","arguments":{"query":"news"}}</tool_call>"#);
    assert_eq!(tc.len(), 1);
    assert_eq!(tc[0].name, "web_search");
    let tc = parse_tool_calls_from_text(r#"{"name":"datetime","arguments":{}}"#);
    assert_eq!(tc.len(), 1);
}

// ---- further cases

#[test]
fn call_ids_and_argument_text() {
    let tc = parse_tool_calls_from_text(
        r#"<tool_call>{"name":"a","arguments":{"x":1}}</tool_call> poi <tool_call>{"name":"b","arguments":"{\"y\":2}"}</tool_call>"#,
    );
    assert_eq!(tc.len(), 2);
    assert_eq!((tc[0].id.as_str(), tc[0].arguments.as_str()), ("call_0", "{\"x\":1}"));
    assert_eq!((tc[1].id.as_str(), tc[1].arguments.as_str()), ("call_1", "{\"y\":2}"));
}

#[test]
fn sibling_arguments_are_collected() {
    let c = tc_from_obj(r#"{"name":"web_search","query":"meteo"}"#, 12).unwrap();
    assert_eq!(c.id, "call_12");
    assert_eq!(c.name, "web_search");
    assert_eq!(c.arguments, "{\"query\":\"meteo\"}");
    assert!(tc_from_obj("{\"nome\":1}", 0).is_none());
}

#[test]
fn remote_array_scan_starts_anywhere() {
    assert_eq!(first_json_array("x [1, \"]\"] y").unwrap(), "[1, \"]\"]");
    assert!(first_json_array("nessuna").is_none());
}

#[test]
fn mistral_name_with_bad_chars_stops() {
    assert!(parse_tool_calls_from_text("[TOOL_CALLS]we ather{}").is_empty());
    assert_eq!(parse_tool_calls_from_text("[TOOL_CALLS] get_time{} ").len(), 1);
}
