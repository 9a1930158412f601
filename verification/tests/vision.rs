use liara_core::vision::{decode_image, describe_prompt, vision_ctx, vision_message, NO_VISION};

#[test]
fn attachment_payload_is_decoded() {
    assert_eq!(decode_image("data:image/png;base64,AAEC").unwrap(), vec![0u8, 1, 2]);
    assert_eq!(decode_image("AAEC").unwrap(), vec![0u8, 1, 2]);
    let e = decode_image("data:image/png;base64,@@@").err().unwrap();
    assert!(e.starts_with("immagine non valida: "));
}

#[test]
fn message_for_the_tool_loop() {
    assert_eq!(
        vision_message("un gatto", "  di che colore è?  "),
        "[Ho allegato un'immagine. Contenuto rilevato dalla vista: un gatto]\n\ndi che colore è?"
    );
    assert_eq!(
        vision_message("un gatto", " "),
        "[Ho allegato un'immagine. Contenuto rilevato dalla vista: un gatto]\n\nCosa c'è nell'immagine?"
    );
}

#[test]
fn description_prompt_per_family() {
    assert_eq!(
        describe_prompt("gemma-4-E4B", "<__media__>", "cosa vedi?"),
        "<bos><start_of_turn>user\n<__media__>cosa vedi?<end_of_turn>\n<start_of_turn>model\n"
    );
    let q = describe_prompt("qwen2.5-vl", "<m>", "");
    assert!(q.starts_with("<|im_start|>system\nSei Liara, un'assistente attenta. Rispondi in italiano.<|im_end|>\n<|im_start|>user\n<m>Descrivi dettagliatamente questa immagine."));
    assert!(q.ends_with("<|im_end|>\n<|im_start|>assistant\n"));
}

#[test]
fn vision_context_is_capped() {
    assert_eq!(vision_ctx(32768), 1024);
    assert_eq!(vision_ctx(512), 512);
    assert!(NO_VISION.starts_with("Questo modello non vede le immagini."));
}
