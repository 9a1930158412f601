use liara_core::docs::{chunk_text, doc_passage, is_pdf, pdf_bytes, split_sentences};

#[test]
fn detects_pdf_by_extension() {
    assert!(is_pdf("relazione.pdf"));
    assert!(is_pdf("RELAZIONE.PDF"));
    assert!(!is_pdf("note.txt"));
    assert!(!is_pdf("immagine.png"));
}

#[test]
fn chunks_break_on_sentence_boundaries() {
    let text = "Prima frase corta. Seconda frase un po' più lunga del normale! Terza frase qui? Quarta e ultima frase del testo.";
    let chunks = chunk_text(text, 60, 0);
    assert!(chunks.len() >= 2);
    for c in &chunks {
        let last = c.trim().chars().last().unwrap();
        assert!(matches!(last, '.' | '!' | '?'), "chunk non finisce su confine frase: {c}");
    }
}

#[test]
fn tiny_text_is_one_chunk_or_dropped() {
    assert!(chunk_text("ciao", 600, 0).is_empty());
    assert_eq!(chunk_text("Questa è una frase abbastanza lunga da restare.", 600, 0).len(), 1);
}

// ---- further cases

#[test]
fn sentences_keep_terminators_and_drop_blanks() {
    assert_eq!(split_sentences("Uno. Due!\n\nTre? coda"), vec!["Uno.", " Due!", "Tre?", " coda"]);
    assert_eq!(split_sentences("  \n . "), vec![" ."]);
}

#[test]
fn chunks_repeat_previous_sentence() {
    let text = "Prima frase lunga abbastanza. Seconda frase lunga abbastanza. Terza frase lunga abbastanza.";
    let chunks = chunk_text(text, 40, 0);
    assert_eq!(
        chunks,
        vec![
            "Prima frase lunga abbastanza.",
            "Prima frase lunga abbastanza. Seconda frase lunga abbastanza.",
            "Seconda frase lunga abbastanza. Terza frase lunga abbastanza.",
        ]
    );
}

#[test]
fn pdf_upload_is_decoded_and_passages_labelled() {
    assert_eq!(pdf_bytes("data:application/pdf;base64,JVBERg==").unwrap(), b"%PDF".to_vec());
    assert!(pdf_bytes("data:application/pdf;base64,!!").err().unwrap().starts_with("PDF non valido: "));
    assert_eq!(doc_passage("tesi.pdf", "Capitolo uno."), "[doc:tesi.pdf] Capitolo uno.");
}

#[test]
fn every_chunk_is_long_and_made_of_whole_sentences() {
    let text = "Primo periodo abbastanza lungo. Secondo periodo, anche lui lungo! Terzo? \
                Quarto periodo per chiudere il testo.\nUltima riga senza punto";
    let sentences: Vec<String> = split_sentences(text).into_iter().map(|s| s.trim().to_string()).collect();
    for chunk in chunk_text(text, 50, 0) {
        assert!(chunk.trim().len() >= 20);
        // each chunk is consecutive sentences joined back together
        let found = (0..sentences.len()).any(|a| {
            (a + 1..=sentences.len()).any(|b| {
                let joined: String = split_sentences(text)[a..b].concat();
                joined.trim() == chunk
            })
        });
        assert!(found, "chunk not made of whole sentences: {chunk:?}");
    }
}
