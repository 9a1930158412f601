use liara_core::format::{extraction_prompt, format_chat, Dialect, Message};

fn msg(role: &str, content: &str) -> Message {
    Message { role: role.into(), content: content.into() }
}

#[test]
fn format_chat_uses_chatml() {
    let msgs = vec![msg("user", "ciao")];
    let p = format_chat("sys", &msgs, false, Dialect::Qwen, None);
    assert!(p.contains("<|im_start|>system\nsys<|im_end|>"));
    assert!(p.ends_with("<|im_start|>assistant\n<think>\n\n</think>\n\n"));
    let p_think = format_chat("sys", &msgs, true, Dialect::Qwen, None);
    assert!(p_think.ends_with("<|im_start|>assistant\n"));
}

#[test]
fn format_chat_gemma_nativo_start_end_of_turn() {
    let msgs = vec![msg("user", "ciao")];
    let p = format_chat("sys", &msgs, false, Dialect::Gemma, None);
    assert!(!p.contains("<|im_start|>") && !p.contains("<think>"));
    assert!(!p.contains("<|turn>") && !p.contains("<turn|>"), "niente marker custom vecchi");
    assert!(p.starts_with("<bos><start_of_turn>user\nsys\n\nciao<end_of_turn>\n"));
    assert!(p.ends_with("<start_of_turn>model\n"));
}

#[test]
fn format_chat_mistral_template_ufficiale() {
    let msgs = vec![msg("user", "prima"), msg("assistant", "ok"), msg("user", "ciao")];
    let p = format_chat("sys", &msgs, false, Dialect::Mistral, None);
    assert!(!p.starts_with("<s>"), "niente <s> letterale (evita doppio-BOS)");
    assert_eq!(p, "[INST] prima[/INST] ok</s>[INST] sys\n\nciao[/INST]");
    assert!(!p.contains("<|im_start|>") && !p.contains("<start_of_turn>"));
}

#[test]
fn format_chat_mistral_toolblock_e_toolresult_standalone() {
    let msgs = vec![
        msg("user", "meteo Modena?"),
        msg("assistant", "[TOOL_CALLS] [{\"name\": \"weather\", \"arguments\": {\"location\": \"Modena\"}}]"),
        msg("tool", "[TOOL_RESULTS] {\"content\": \"28°C\", \"call_id\": \"abc123xyz\"}[/TOOL_RESULTS]"),
    ];
    let tb = "[AVAILABLE_TOOLS] [{\"type\": \"function\"}][/AVAILABLE_TOOLS]";
    let p = format_chat("sys", &msgs, false, Dialect::Mistral, Some(tb));
    assert!(
        p.starts_with("[AVAILABLE_TOOLS] [{\"type\": \"function\"}][/AVAILABLE_TOOLS][INST] sys\n\nmeteo Modena?[/INST][TOOL_CALLS] "),
        "tools-block prima dell'ultimo user, system foldato, tool-call senza spazio iniziale"
    );
    assert!(p.contains("</s>[TOOL_RESULTS] {"), "tool-result standalone dopo </s>, MAI avvolto in [INST]");
    assert!(p.ends_with("[/TOOL_RESULTS]"));
}

#[test]
fn format_chat_cohere_start_end_of_turn_token() {
    let msgs = vec![msg("user", "ciao")];
    let p = format_chat("sys", &msgs, false, Dialect::Cohere, None);
    assert!(p.starts_with("<BOS_TOKEN><|START_OF_TURN_TOKEN|><|SYSTEM_TOKEN|>sys<|END_OF_TURN_TOKEN|>"));
    assert!(p.contains("<|USER_TOKEN|>ciao<|END_OF_TURN_TOKEN|>"));
    assert!(p.ends_with("<|START_OF_TURN_TOKEN|><|CHATBOT_TOKEN|>"));
}

// ---- further cases

#[test]
fn gemma_system_goes_into_first_user_turn_only() {
    let msgs = vec![msg("assistant", "ciao!"), msg("user", "a"), msg("tool", "b")];
    let p = format_chat("S", &msgs, false, Dialect::Gemma, None);
    assert_eq!(
        p,
        "<bos><start_of_turn>model\nciao!<end_of_turn>\n<start_of_turn>user\nS\n\na<end_of_turn>\n<start_of_turn>user\nb<end_of_turn>\n<start_of_turn>model\n"
    );
    let q = format_chat("", &msgs, false, Dialect::Gemma, None);
    assert!(q.contains("<start_of_turn>user\na<end_of_turn>"));
}

#[test]
fn qwen_full_prompt() {
    let msgs = vec![msg("user", "u"), msg("assistant", "a")];
    assert_eq!(
        format_chat("s", &msgs, true, Dialect::Qwen, None),
        "<|im_start|>system\ns<|im_end|>\n<|im_start|>user\nu<|im_end|>\n<|im_start|>assistant\na<|im_end|>\n<|im_start|>assistant\n"
    );
}

#[test]
fn cohere_without_system_and_mistral_without_user() {
    let msgs = vec![msg("assistant", "x")];
    assert_eq!(
        format_chat("", &msgs, false, Dialect::Cohere, None),
        "<BOS_TOKEN><|START_OF_TURN_TOKEN|><|CHATBOT_TOKEN|>x<|END_OF_TURN_TOKEN|><|START_OF_TURN_TOKEN|><|CHATBOT_TOKEN|>"
    );
    assert_eq!(format_chat("sys", &msgs, false, Dialect::Mistral, Some("T")), " x</s>");
}

#[test]
fn extraction_prompt_frames_the_exchange() {
    let p = extraction_prompt("mi chiamo Marco", "Piacere!");
    assert!(p.starts_with("<|im_start|>system\nSei un estrattore di memoria personale."));
    assert!(p.ends_with("<|im_end|>\n<|im_start|>user\nUTENTE: mi chiamo Marco\nASSISTENTE: Piacere!<|im_end|>\n<|im_start|>assistant\n"));
    assert!(p.contains("età"));
}
