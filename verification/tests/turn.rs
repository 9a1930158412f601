use liara_core::format::{Message, SYSTEM_PROMPT};
use liara_core::memory::{location_display, permission_key, permission_tool, profile_block};
use liara_core::turn::{
    chat_system, judge_agrees, reflection_due, reflection_insights, reflection_prompt,
    summary_prompt, supersede_prompt, thinking_enabled, worth_recall,
};

fn msg(role: &str, content: &str) -> Message {
    Message { role: role.to_string(), content: content.to_string() }
}

#[test]
fn profile_block_empty_when_nothing_known() {
    assert_eq!(profile_block(&vec![], &vec![]), "");
}

#[test]
fn profile_block_lists_profile_and_facts() {
    let prof = vec![("nome".to_string(), "Marco".to_string())];
    let facts = vec!["ha due gatti".to_string()];
    assert_eq!(
        profile_block(&prof, &facts),
        "\n\nMemoria persistente sull'utente (conoscila e usala con naturalezza, non elencarla):\nProfilo:\n- nome: Marco\nAltri dettagli appresi:\n- ha due gatti\n"
    );
    assert_eq!(
        profile_block(&vec![], &facts),
        "\n\nMemoria persistente sull'utente (conoscila e usala con naturalezza, non elencarla):\nAltri dettagli appresi:\n- ha due gatti\n"
    );
}

#[test]
fn location_display_defaults_source_to_manual() {
    let (label, source) =
        location_display(r#"{"lat":41.9,"lon":12.5,"label":"Roma","source":"gps","ts":1}"#).unwrap();
    assert_eq!(label, "Roma");
    assert_eq!(source, "gps");
    let (label, source) = location_display(r#"{"label":"Milano"}"#).unwrap();
    assert_eq!(label, "Milano");
    assert_eq!(source, "manual");
    assert!(location_display(r#"{"lat":1.0}"#).is_none());
    assert!(location_display("cifrato").is_none());
}

#[test]
fn permission_keys_round_trip() {
    assert_eq!(permission_key("web_fetch"), "perm:web_fetch");
    assert_eq!(permission_tool(&permission_key("fs_read")), "fs_read");
    assert_eq!(permission_tool("perm:perm:x"), "x");
    assert_eq!(permission_tool("other"), "other");
}

#[test]
fn small_model_never_reasons() {
    assert!(!thinking_enabled(true, "/models/Qwen3-1.7B-Q4_K_M.gguf"));
    assert!(thinking_enabled(true, "/models/Qwen3-4B-Q4_K_M.gguf"));
    assert!(!thinking_enabled(false, "/models/Qwen3-4B-Q4_K_M.gguf"));
}

#[test]
fn trivial_turns_skip_recall() {
    assert!(!worth_recall("  ok  "));
    assert!(!worth_recall("ciao"));
    assert!(worth_recall("che tempo fa?"));
}

#[test]
fn system_prompt_with_recall_blocks() {
    let s = chat_system("", &vec!["vive a Milano".to_string()], &vec![]);
    assert_eq!(
        s,
        format!("{SYSTEM_PROMPT}\n\nRicordi che potrebbero essere pertinenti (usali con naturalezza solo se davvero utili, non elencarli):\n- vive a Milano\n")
    );
    let s = chat_system("P", &vec![], &vec!["pagina 3".to_string()]);
    assert_eq!(
        s,
        format!("{SYSTEM_PROMPT}P\n\nDai documenti che l'utente ha caricato (cita solo se pertinenti):\n- pagina 3\n")
    );
    assert_eq!(chat_system("", &vec![], &vec![]), SYSTEM_PROMPT);
}

#[test]
fn supersession_judge() {
    let p = supersede_prompt("vive a Roma", "vive a Milano");
    assert!(p.starts_with("<|im_start|>user\nFatto VECCHIO: \"vive a Roma\"\nFatto NUOVO: \"vive a Milano\"\n"));
    assert!(p.ends_with("Rispondi solo SI o NO.<|im_end|>\n<|im_start|>assistant\n"));
    assert!(judge_agrees("  si, certo"));
    assert!(!judge_agrees("sì"));
    assert!(judge_agrees("SI"));
    assert!(!judge_agrees("NO"));
    assert!(!judge_agrees(""));
}

#[test]
fn reflection_schedule_and_prompt() {
    assert!(reflection_due(8));
    assert!(reflection_due(16));
    assert!(!reflection_due(7));
    let few: Vec<String> = (0..5).map(|i| format!("m{i}")).collect();
    assert!(reflection_prompt(&few).is_none());
    let eps: Vec<String> = (0..6).map(|i| format!("m{i}")).collect();
    let p = reflection_prompt(&eps).unwrap();
    assert!(p.contains("<|im_start|>user\n- m5\n- m4\n- m3\n- m2\n- m1\n- m0<|im_end|>"));
    assert!(p.starts_with("<|im_start|>system\nDai messaggi dell'utente qui sotto estrai 1-3 fatti DUREVOLI e importanti su di lui (preferenze"));
}

#[test]
fn reflection_lines_are_cleaned() {
    let out = "- Ama il jazz e suona il piano\n• corto\n* Lavora come ingegnere a Torino\r\n\n";
    assert_eq!(
        reflection_insights(out),
        vec!["Ama il jazz e suona il piano".to_string(), "Lavora come ingegnere a Torino".to_string()]
    );
}

#[test]
fn summary_prompt_keeps_only_dialogue() {
    let msgs = vec![msg("system", "x"), msg("user", "ciao"), msg("assistant", "ciao!"), msg("tool", "t")];
    let p = summary_prompt(&msgs);
    assert!(p.contains("<|im_start|>user\nUtente: ciao\n\nLiara: ciao!<|im_end|>\n<|im_start|>assistant\n<think>\n\n</think>\n\n"));
    assert!(p.starts_with("<|im_start|>system\nRiassumi FEDELMENTE la conversazione seguente: conserva fatti, nomi, numeri, date,"));
}
