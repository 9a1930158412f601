use liara_core::cloud::{
    cloud_max_tokens, cloud_system, cloud_transcript, hello_message, parse_hello, parse_reply, read_reply,
    request_headers, retry_delay, CloudAction, CloudEvent, CloudState, Entry, CLOUD_SYSTEM_PROMPT, MAX_ROUNDS,
};
use liara_core::format::Message;
use serde_json::Value;

fn value(text: &str) -> Value {
    serde_json::from_str(text).unwrap()
}

fn msg(role: &str, content: &str) -> Message {
    Message { role: role.to_string(), content: content.to_string() }
}

#[test]
fn answer_budget_is_clamped() {
    assert_eq!(cloud_max_tokens(None), 8192);
    assert_eq!(cloud_max_tokens(Some(10)), 256);
    assert_eq!(cloud_max_tokens(Some(100_000)), 32768);
    assert_eq!(cloud_max_tokens(Some(1000)), 1000);
}

#[test]
fn cloud_system_has_date_rules_profile_and_facts() {
    let s = cloud_system("lunedì 1 gennaio", "", &vec![]);
    assert_eq!(s, format!("Data e ora correnti: lunedì 1 gennaio.\n{CLOUD_SYSTEM_PROMPT}"));
    let s = cloud_system("oggi", "P", &vec!["a".to_string(), "b".to_string()]);
    assert!(s.ends_with("P\n\nMEMORIA — cose che l'utente ti ha chiesto di ricordare (usale se pertinenti, non citarle a caso):\n- a\n- b"));
    assert!(CLOUD_SYSTEM_PROMPT.starts_with("Sei Liara, assistente personale con memoria dell'utente, in esecuzione sul server di Nic.IA (modalità cloud, non sul dispositivo). Usa gli strumenti"));
    assert!(CLOUD_SYSTEM_PROMPT.ends_with("Non firmarti."));
}

#[test]
fn transcript_drops_empty_assistant_turns_and_attaches_image_to_last_user() {
    let msgs = vec![
        msg("user", "prima"),
        msg("assistant", "  "),
        msg("user", "guarda"),
        msg("assistant", "ok"),
    ];
    let t = cloud_transcript("SYS", &msgs, &Some("data:image/png;base64,AA".to_string()));
    assert_eq!(t.len(), 4);
    match &t[0] {
        Entry::Plain { role, content } => {
            assert_eq!(role, "system");
            assert_eq!(content, "SYS");
        }
        _ => panic!("system first"),
    }
    match &t[1] {
        Entry::Plain { role, content } => assert_eq!((role.as_str(), content.as_str()), ("user", "prima")),
        _ => panic!("plain"),
    }
    match &t[2] {
        Entry::WithImage { role, content, image } => {
            assert_eq!(role, "user");
            assert_eq!(content, "guarda");
            assert_eq!(image, "data:image/png;base64,AA");
        }
        _ => panic!("image on the last user message"),
    }
    match &t[3] {
        Entry::Plain { role, .. } => assert_eq!(role, "assistant"),
        _ => panic!("plain"),
    }
    let t = cloud_transcript("SYS", &msgs, &None);
    assert!(matches!(t[2], Entry::Plain { .. }));
}

#[test]
fn reply_with_structured_calls() {
    let v = value(
        r#"{"choices":[{"message":{"content":"","tool_calls":[{"id":"c1","type":"function","function":{"name":"weather","arguments":"{\"location\":\"Roma\"}"}}]}}]}"#,
    );
    let (content, calls) = read_reply(&v);
    assert_eq!(content, "");
    assert_eq!(calls.len(), 1);
    assert_eq!(calls[0]["id"], "c1");
}

#[test]
fn reply_with_calls_in_text_is_not_an_answer() {
    let v = value(
        r#"{"choices":[{"message":{"content":"<tool_call>{\"name\":\"weather\",\"arguments\":{\"location\":\"Roma\"}}</tool_call>"}}]}"#,
    );
    let (content, calls) = read_reply(&v);
    assert_eq!(content, "");
    assert_eq!(calls.len(), 1);
    assert_eq!(calls[0]["id"], "call_0");
    assert_eq!(calls[0]["type"], "function");
    assert_eq!(calls[0]["function"]["name"], "weather");
    assert_eq!(calls[0]["function"]["arguments"], r#"{"location":"Roma"}"#);
}

#[test]
fn plain_reply() {
    let (content, calls) = read_reply(&value(r#"{"choices":[{"message":{"content":"Ciao!"}}]}"#));
    assert_eq!(content, "Ciao!");
    assert!(calls.is_empty());
    let (content, calls) = read_reply(&value(r#"{"error":"x"}"#));
    assert_eq!(content, "");
    assert!(calls.is_empty());
}

#[test]
fn greeting_only_when_enabled() {
    let on = value(r#"{"__liara_hello":true,"choices":[{"message":{"content":"Torno presto"}}]}"#);
    assert_eq!(hello_message(&on).as_deref(), Some("Torno presto"));
    let top = value(r#"{"__liara_hello":true,"content":"Ciao"}"#);
    assert_eq!(hello_message(&top).as_deref(), Some("Ciao"));
    let blank = value(r#"{"__liara_hello":true,"content":"  "}"#);
    assert!(hello_message(&blank).is_none());
    let off = value(r#"{"__liara_hello":false,"content":"Ciao"}"#);
    assert!(hello_message(&off).is_none());
    assert!(hello_message(&value(r#"{"content":"Ciao"}"#)).is_none());
}

fn call(id: &str, name: &str, args: &str) -> Value {
    let mut f = serde_json::Map::new();
    f.insert("name".to_string(), Value::String(name.to_string()));
    f.insert("arguments".to_string(), Value::String(args.to_string()));
    let mut m = serde_json::Map::new();
    m.insert("id".to_string(), Value::String(id.to_string()));
    m.insert("type".to_string(), Value::String("function".to_string()));
    m.insert("function".to_string(), Value::Object(f));
    Value::Object(m)
}

#[test]
fn loop_runs_tools_and_answers() {
    let t = cloud_transcript("SYS", &vec![msg("user", "meteo e mail")], &None);
    let mut st = CloudState::new(t);
    assert!(matches!(st.step(CloudEvent::Begin { stopped: false }), CloudAction::Call));
    let calls = vec![call("a", "weather", r#"{"location":"Roma"}"#), call("b", "send_email", "{}")];
    match st.step(CloudEvent::Replied { stopped: false, reply: Ok((String::new(), calls)) }) {
        CloudAction::ToolCall { name, args_text, args } => {
            assert_eq!(name, "weather");
            assert_eq!(args_text, r#"{"location":"Roma"}"#);
            assert_eq!(args["location"], "Roma");
        }
        _ => panic!("first call"),
    }
    match st.step(CloudEvent::ToolInfo { stale: false, consent: None }) {
        CloudAction::RunTool { name, .. } => assert_eq!(name, "weather"),
        _ => panic!("run"),
    }
    match st.step(CloudEvent::ToolOutput(Ok("sole".to_string()))) {
        CloudAction::ToolResult { name, result } => {
            assert_eq!(name, "weather");
            assert_eq!(result, "sole");
        }
        _ => panic!("result"),
    }
    match st.step(CloudEvent::Begin { stopped: false }) {
        CloudAction::ToolCall { name, .. } => assert_eq!(name, "send_email"),
        _ => panic!("second call"),
    }
    match st.step(CloudEvent::ToolInfo { stale: false, consent: Some("inviare".to_string()) }) {
        CloudAction::AskConsent { tool, action } => {
            assert_eq!(tool, "send_email");
            assert_eq!(action, "inviare");
        }
        _ => panic!("consent"),
    }
    match st.step(CloudEvent::Consent(false)) {
        CloudAction::ToolResult { result, .. } => {
            assert_eq!(result, "L'utente ha negato il permesso per questo strumento.")
        }
        _ => panic!("denied"),
    }
    assert!(matches!(st.step(CloudEvent::Begin { stopped: false }), CloudAction::Call));
    let t = st.transcript();
    assert_eq!(t.len(), 5);
    match &t[3] {
        Entry::Result { id, name, content } => {
            assert_eq!((id.as_str(), name.as_str(), content.as_str()), ("a", "weather", "sole"))
        }
        _ => panic!("result entry"),
    }
    match st.step(CloudEvent::Replied { stopped: false, reply: Ok(("Fatto.".to_string(), vec![])) }) {
        CloudAction::Done { answer, show } => {
            assert_eq!(answer, "Fatto.");
            assert!(show);
        }
        _ => panic!("done"),
    }
    assert!(matches!(st.step(CloudEvent::Begin { stopped: false }), CloudAction::Unexpected));
}

#[test]
fn stopped_run_quits_silently() {
    let mut st = CloudState::new(cloud_transcript("S", &vec![msg("user", "x")], &None));
    assert!(matches!(st.step(CloudEvent::Begin { stopped: true }), CloudAction::Quit));
    let mut st = CloudState::new(cloud_transcript("S", &vec![msg("user", "x")], &None));
    assert!(matches!(st.step(CloudEvent::Begin { stopped: false }), CloudAction::Call));
    assert!(matches!(
        st.step(CloudEvent::Replied { stopped: true, reply: Err("timeout".to_string()) }),
        CloudAction::Quit
    ));
}

#[test]
fn transport_error_fails_the_turn() {
    let mut st = CloudState::new(cloud_transcript("S", &vec![msg("user", "x")], &None));
    st.step(CloudEvent::Begin { stopped: false });
    match st.step(CloudEvent::Replied { stopped: false, reply: Err("API Liara 500: x".to_string()) }) {
        CloudAction::Fail(e) => assert_eq!(e, "API Liara 500: x"),
        _ => panic!("fail"),
    }
}

#[test]
fn rounds_are_bounded() {
    let mut st = CloudState::new(cloud_transcript("S", &vec![msg("user", "x")], &None));
    for _ in 0..MAX_ROUNDS {
        assert!(matches!(st.step(CloudEvent::Begin { stopped: false }), CloudAction::Call));
        let r = st.step(CloudEvent::Replied {
            stopped: false,
            reply: Ok((String::new(), vec![call("a", "datetime", "not json")])),
        });
        match r {
            CloudAction::ToolCall { args, args_text, .. } => {
                assert_eq!(args_text, "not json");
                assert_eq!(args, value("{}"));
            }
            _ => panic!("call"),
        }
        st.step(CloudEvent::ToolInfo { stale: false, consent: None });
        st.step(CloudEvent::ToolOutput(Err("boom".to_string())));
    }
    match st.step(CloudEvent::Begin { stopped: false }) {
        CloudAction::Done { answer, show } => {
            assert_eq!(answer, "");
            assert!(!show);
        }
        _ => panic!("bounded"),
    }
}

#[test]
fn request_headers_follow_consent_and_conversation() {
    let h = |train: bool, id: &str| request_headers("liara-32b", train, id);
    let model = ("x-liara-model".to_string(), "liara-32b".to_string());
    assert_eq!(h(false, ""), vec![model.clone()]);
    assert_eq!(h(true, ""), vec![model.clone(), ("x-liara-training".to_string(), "allow".to_string())]);
    assert_eq!(
        h(true, "c1"),
        vec![
            model.clone(),
            ("x-liara-training".to_string(), "allow".to_string()),
            ("x-liara-conversation-id".to_string(), "c1".to_string()),
        ]
    );
    assert_eq!(h(false, "c1"), vec![model, ("x-liara-conversation-id".to_string(), "c1".to_string())]);
}

#[test]
fn transport_failures_are_retried_with_growing_waits() {
    assert_eq!(retry_delay(0, false), Some(700));
    assert_eq!(retry_delay(1, false), Some(1400));
    assert_eq!(retry_delay(2, false), None);
    assert_eq!(retry_delay(0, true), None);
}

#[test]
fn raw_replies_are_parsed() {
    assert!(parse_reply("non json").is_none());
    let (text, calls) = parse_reply(r#"{"choices":[{"message":{"content":"Ciao"}}]}"#).unwrap();
    assert_eq!(text, "Ciao");
    assert!(calls.is_empty());
    assert_eq!(
        parse_hello(r#"{"__liara_hello":true,"choices":[{"message":{"content":"Benvenuto"}}]}"#).as_deref(),
        Some("Benvenuto")
    );
    assert!(parse_hello(r#"{"choices":[{"message":{"content":"Benvenuto"}}]}"#).is_none());
    assert!(parse_hello("{").is_none());
}
