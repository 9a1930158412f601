use liara_core::agent::{AgentAction, AgentEvent, AgentState, MAX_STEPS};
use liara_core::format::{Dialect, Message};
use liara_core::toolcall::ToolArgs;

/// What a scripted turn did: the answer, the tools run, the consents asked, the generations.
struct Turn {
    answer: String,
    tools: Vec<String>,
    consent: Vec<String>,
    generations: usize,
    forced: Vec<String>,
}

/// Drives the machine with a scripted model and a registry where `sensitive` tools need consent.
fn drive(outputs: &[&str], user: &str, allow: bool, sensitive: &[&str]) -> Turn {
    let msgs = vec![Message { role: "user".into(), content: user.into() }];
    let mut st = AgentState::new("sys", &msgs, false, 1024, Dialect::Qwen, true, "lunedì 1 gennaio", "", true);
    let mut outs = outputs.iter();
    let mut t = Turn { answer: String::new(), tools: vec![], consent: vec![], generations: 0, forced: vec![] };
    let mut ev = AgentEvent::Begin { cancelled: false };
    loop {
        match st.step(ev) {
            AgentAction::Generate { .. } => {
                t.generations += 1;
                ev = AgentEvent::Output(outs.next().copied().unwrap_or("").to_string());
            }
            AgentAction::CheckTool { name, args } => {
                if t.generations == 0 {
                    t.forced.push(name.clone());
                }
                let args = match args {
                    ToolArgs::Json(v) => v,
                    ToolArgs::Gemma(_) => serde_json::Value::Null,
                };
                let consent = if sensitive.contains(&name.as_str()) { Some(format!("usare {name}")) } else { None };
                ev = AgentEvent::ToolInfo { args, consent, cancelled: false };
            }
            AgentAction::AskConsent { tool, .. } => {
                t.consent.push(tool);
                ev = AgentEvent::Consent(allow);
            }
            AgentAction::RunTool { name, .. } => {
                t.tools.push(name);
                ev = AgentEvent::ToolOutput(Ok("42".to_string()));
            }
            AgentAction::ToolResult { .. } => ev = AgentEvent::Begin { cancelled: false },
            AgentAction::Done(a) => {
                t.answer = a;
                return t;
            }
            AgentAction::Unexpected => panic!("unexpected event"),
        }
    }
}

#[test]
fn risposta_semplice_senza_tool() {
    let t = drive(&["Ciao! Come stai?"], "ciao", true, &[]);
    assert_eq!(t.answer, "Ciao! Come stai?");
    assert!(t.tools.is_empty(), "un saluto non deve chiamare tool");
}

#[test]
fn ciclo_react_esegue_il_tool_e_risponde() {
    let t = drive(
        &["<tool_call>\n{\"name\": \"calculator\", \"arguments\": {\"expression\": \"2+2\"}}\n</tool_call>", "Fa 4."],
        "quanto fa 2+2",
        true,
        &["fs_delete", "fs_list"],
    );
    assert_eq!(t.tools, vec!["calculator"], "il tool va eseguito");
    assert_eq!(t.answer, "Fa 4.", "poi il modello risponde col risultato");
}

#[test]
fn consenso_negato_non_esegue_il_tool() {
    let t = drive(
        &["<tool_call>\n{\"name\": \"fs_delete\", \"arguments\": {\"path\": \"~/x.txt\"}}\n</tool_call>", "Ok, non ho eliminato nulla."],
        "elimina il file x",
        false,
        &["fs_delete", "fs_list"],
    );
    assert_eq!(t.consent, vec!["fs_delete"], "deve chiedere il consenso");
    assert!(t.tools.is_empty(), "consenso NEGATO → tool NON eseguito");
    assert_eq!(t.answer, "Ok, non ho eliminato nulla.");
}

#[test]
fn consenso_concesso_esegue_il_tool() {
    let t = drive(
        &["<tool_call>\n{\"name\": \"fs_list\", \"arguments\": {\"path\": \"~/__inesistente_test_zeli__\"}}\n</tool_call>", "Fatto."],
        "elenca i file nella cartella x",
        true,
        &["fs_delete", "fs_list"],
    );
    assert_eq!(t.consent, vec!["fs_list"], "deve chiedere il consenso");
    assert_eq!(t.tools, vec!["fs_list"], "consenso CONCESSO → tool eseguito (errore dir gestito)");
    assert_eq!(t.answer, "Fatto.");
}

// ---- further cases

#[test]
fn weather_intent_is_forced_without_asking_the_model() {
    let t = drive(&["A Modena 20 gradi."], "che tempo fa a modena?", true, &[]);
    assert_eq!(t.forced, vec!["weather"]);
    assert_eq!(t.tools, vec!["weather"]);
    assert_eq!(t.generations, 1);
    assert_eq!(t.answer, "A Modena 20 gradi.");
}

#[test]
fn steps_are_bounded() {
    let call = "<tool_call>{\"name\":\"calculator\",\"arguments\":{}}</tool_call>";
    let outs = vec![call; 10];
    let t = drive(&outs, "calcola", true, &[]);
    assert_eq!(t.tools.len(), MAX_STEPS);
    assert_eq!(t.generations, MAX_STEPS + 1, "cinque passi e poi la risposta finale");
}

#[test]
fn intent_guard_switches_sent_and_received_mail() {
    let t = drive(
        &["<tool_call>{\"name\":\"email_recent\",\"arguments\":{}}</tool_call>", "Ecco."],
        "mostrami le mail che ho inviato",
        true,
        &[],
    );
    assert_eq!(t.tools, vec!["email_sent"]);
}

#[test]
fn cancel_goes_to_the_final_answer() {
    let msgs = vec![Message { role: "user".into(), content: "ciao".into() }];
    let mut st = AgentState::new("base", &msgs, true, 100, Dialect::Gemma, false, "ora", "", true);
    match st.step(AgentEvent::Begin { cancelled: true }) {
        AgentAction::Generate { prompt, max_tokens, stop, routed, grammar } => {
            assert_eq!(max_tokens, 400);
            assert_eq!(stop, vec!["<turn|>".to_string()]);
            assert!(!routed && !grammar);
            assert!(prompt.starts_with("<bos><start_of_turn>user\nbase\n\nciao"));
        }
        _ => panic!("expected the final generation"),
    }
    assert!(matches!(st.step(AgentEvent::Consent(true)), AgentAction::Unexpected));
    match st.step(AgentEvent::Output("Ciao!<end_of_turn>".into())) {
        AgentAction::Done(a) => assert_eq!(a, "Ciao!"),
        _ => panic!("expected the answer"),
    }
}
