use liara_core::peer::{
    cloud_answer, fold_state_valid, local_answer, peer_messages, plain_chatml, reply_refusal,
};

fn turn(who: &str, text: &str) -> (String, String) {
    (who.to_string(), text.to_string())
}

#[test]
fn nothing_to_answer_after_own_message() {
    assert_eq!(
        reply_refusal(&[turn("peer", "ciao"), turn("me", "ciao!")]).as_deref(),
        Some("nessun messaggio del peer a cui rispondere")
    );
    assert!(reply_refusal(&[turn("me", "ciao!"), turn("peer", "come va?")]).is_none());
    assert!(reply_refusal(&[]).is_none());
}

#[test]
fn fold_state_resets_on_shorter_history() {
    assert!(fold_state_valid(6, 16));
    assert!(fold_state_valid(16, 16));
    assert!(!fold_state_valid(17, 16));
}

#[test]
fn recent_window_with_roles() {
    let h = [turn("peer", "a"), turn("me", "b"), turn("peer", "c")];
    let m = peer_messages("SYS", &h, 1);
    assert_eq!(
        m,
        vec![turn("system", "SYS"), turn("assistant", "b"), turn("user", "c")]
    );
    assert_eq!(peer_messages("SYS", &h, 3), vec![turn("system", "SYS")]);
}

#[test]
fn chatml_of_one_pass_answer() {
    let p = plain_chatml(&[turn("system", "S"), turn("user", "ciao")]);
    assert_eq!(p, "<|im_start|>system\nS<|im_end|>\n<|im_start|>user\nciao<|im_end|>\n<|im_start|>assistant\n");
}

#[test]
fn answers_are_cleaned() {
    assert_eq!(local_answer("  Ciao!<|im_end|><|im_end|>\n").unwrap(), "Ciao!");
    assert_eq!(local_answer(" <|im_end|> ").err().unwrap(), "risposta locale vuota");
    let v: serde_json::Value =
        serde_json::from_str(r#"{"choices":[{"message":{"content":"  Piacere!  "}}]}"#).unwrap();
    assert_eq!(cloud_answer(&v).unwrap(), "Piacere!");
    let v: serde_json::Value = serde_json::from_str(r#"{"choices":[]}"#).unwrap();
    assert_eq!(cloud_answer(&v).err().unwrap(), "risposta cloud vuota");
}
