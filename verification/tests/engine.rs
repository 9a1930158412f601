use liara_core::engine::{dialect_for_model, prompt_budget, slot_ctx, AUX_SLOT_CTX};
use liara_core::format::Dialect;
use liara_core::utf8::Utf8Stream;

#[test]
fn slot_aux_e_cappato_slot0_pieno() {
    assert_eq!(slot_ctx(32768, 0), 32768);
    assert_eq!(slot_ctx(32768, 1), AUX_SLOT_CTX);
    assert_eq!(slot_ctx(1024, 1), 1024);
}

#[test]
fn budget_mai_zero_anche_con_max_tokens_enormi() {
    assert_eq!(prompt_budget(2048, 700), 2048 - 700 - 64);
    assert!(prompt_budget(1024, 1024) >= 64, "il trim deve scattare comunque");
    assert!(prompt_budget(2048, 4096) >= 64);
}

#[test]
fn multibyte_spezzato_su_due_push() {
    let mut s = Utf8Stream::new();
    let emoji = "così😀".as_bytes();
    let (a, b) = emoji.split_at(6);
    let first = s.push(a);
    let second = s.push(b);
    assert_eq!(format!("{first}{second}"), "così😀");
    assert!(first.len() < "così😀".len(), "la prima metà non deve emettere l'emoji intera");
}

#[test]
fn byte_invalido_non_incepppa_lo_stream() {
    let mut s = Utf8Stream::new();
    let out1 = s.push(&[b'c', b'i', 0xFF, 0xFE]);
    assert_eq!(out1, "ci");
    let out2 = s.push("ao".as_bytes());
    assert_eq!(out2, "ao", "dopo i byte invalidi lo stream deve continuare");
}

#[test]
fn ascii_passa_intatto() {
    let mut s = Utf8Stream::new();
    assert_eq!(s.push(b"hello "), "hello ");
    assert_eq!(s.push(b"world"), "world");
}

// ---- further cases

#[test]
fn utf8_invalid_lengths_follow_std() {
    // the same bytes decoded by std, with lossy replacement, give the same characters
    for bytes in [
        vec![0xE0u8, 0x80, b'a'],
        vec![0xED, 0xA0, 0x80, b'b'],
        vec![0xF0, 0x90, 0x80, b'c'],
        vec![0xF4, 0x90, 0x80, 0x80],
        vec![0xC0, 0xAF, b'd'],
        vec![b'x', 0xE2, 0x82, 0xAC, 0xF0, 0x9F, 0x98, 0x80],
    ] {
        let mut s = Utf8Stream::new();
        let out = s.push(&bytes);
        let expected: String = String::from_utf8_lossy(&bytes).chars().filter(|c| *c != '\u{FFFD}').collect();
        assert_eq!(out, expected, "{bytes:?}");
    }
}

#[test]
fn utf8_byte_by_byte_equals_whole() {
    let text = "àè😀 ok ñ €";
    let mut s = Utf8Stream::new();
    let mut out = String::new();
    for b in text.as_bytes() {
        out.push_str(&s.push(&[*b]));
    }
    assert_eq!(out, text);
}

#[test]
fn utf8_incomplete_tail_is_held() {
    let mut s = Utf8Stream::new();
    assert_eq!(s.push(&[b'a', 0xF0, 0x9F]), "a");
    assert_eq!(s.push(&[0x98, 0x80]), "😀");
}

#[test]
fn dialect_by_model_id() {
    assert_eq!(dialect_for_model("Gemma-4-E4B-it.gguf"), Dialect::Gemma);
    assert_eq!(dialect_for_model("Mistral-Nemo-12B"), Dialect::Mistral);
    assert_eq!(dialect_for_model("aya-expanse-8b"), Dialect::Cohere);
    assert_eq!(dialect_for_model("qwen3-4b"), Dialect::Qwen);
}

#[test]
fn budget_exact_values() {
    assert_eq!(prompt_budget(2048, 1900), 84);
    assert_eq!(prompt_budget(2048, 1950), 64);
    assert_eq!(slot_ctx(2048, 3), 2048);
}

#[test]
fn valid_text_cut_anywhere_decodes_whole() {
    let text = "Città è già più bella 😀 ok";
    let bytes = text.as_bytes();
    for cut in 0..=bytes.len() {
        let mut s = Utf8Stream::new();
        let mut out = s.push(&bytes[..cut]);
        out.push_str(&s.push(&bytes[cut..]));
        assert_eq!(out, text);
    }
}
