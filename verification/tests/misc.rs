use liara_core::calendar::{extract_time, parse_weekday, search_events, Event};
use liara_core::contacts::{annotate_sys_contacts, norm, number_key};
use liara_core::files::{hello_url, is_safe_name, model_file_error, strip_think};
use liara_core::peer::{fold_bounds, peer_system, shareable_profile, summarizer_prompt};
use liara_core::records::{sms_limit, sms_reply_rows, sms_view};
use liara_core::sink::{consent_answer, consent_decision, ConsentDecision};

#[test]
fn storia_corta_niente_fold() {
    assert_eq!(fold_bounds(0, 15), None);
    assert_eq!(fold_bounds(0, 0), None);
}

#[test]
fn oltre_il_trigger_piega_lasciando_la_finestra() {
    assert_eq!(fold_bounds(0, 16), Some((0, 6)));
    assert_eq!(fold_bounds(6, 24), Some((6, 14)));
}

#[test]
fn gia_coperto_niente_doppio_fold() {
    assert_eq!(fold_bounds(6, 16), None);
    assert_eq!(fold_bounds(14, 16), None);
}

#[test]
fn rifiuta_path_traversal_e_nomi_vuoti() {
    assert!(!is_safe_name("../secrets.txt"));
    assert!(!is_safe_name("sub/dir/x.gguf"));
    assert!(!is_safe_name("a\\b.gguf"));
    assert!(!is_safe_name(""));
    assert!(is_safe_name("gemma-4-e4b-it.gguf"));
    assert!(model_file_error("../boom").is_some());
}

// ---- further cases

#[test]
fn fold_after_fold_resumes_where_it_stopped() {
    let (_, end) = fold_bounds(0, 20).unwrap();
    assert_eq!(end, 10);
    assert_eq!(fold_bounds(end, 20), None);
    assert_eq!(fold_bounds(end, 30), Some((10, 20)));
}

#[test]
fn model_file_error_message() {
    assert_eq!(model_file_error("a/b").as_deref(), Some("nome file non valido: a/b"));
    assert_eq!(model_file_error("x.gguf"), None);
}

#[test]
fn hello_url_replaces_chat_path() {
    assert_eq!(hello_url("https://h.example/v1/chat/completions"), "https://h.example/v1/hello");
    assert_eq!(hello_url("https://h.example/v1"), "https://h.example/v1");
}

#[test]
fn strip_think_keeps_prose_after_last_block() {
    assert_eq!(strip_think("<think>a</think>\n  Ciao"), "Ciao");
    assert_eq!(strip_think("x</think>y</think> z"), "z");
    assert_eq!(strip_think("  diretto"), "diretto");
}

#[test]
fn time_and_weekday_in_text() {
    assert_eq!(extract_time("riunione domani alle 16:30"), Some((16, 30)));
    assert_eq!(extract_time("ore 9.05, sala"), Some((9, 5)));
    assert_eq!(extract_time("cena alle 20"), Some((20, 0)));
    assert_eq!(extract_time("25:00 oppure alle 7"), Some((7, 0)));
    assert_eq!(extract_time("nessun orario"), None);
    assert_eq!(parse_weekday("vediamoci giovedì"), Some(3));
    assert_eq!(parse_weekday("sabato o domenica"), Some(5));
    assert_eq!(parse_weekday("oggi"), None);
}

#[test]
fn number_keys_and_names() {
    assert_eq!(number_key("+39 333 123 4567"), "3331234567");
    assert_eq!(number_key("0039 3331234567"), "3331234567");
    assert_eq!(number_key("112"), "112");
    assert_eq!(number_key("n/d"), "");
    assert_eq!(norm("  Niccolò   ROSSI "), "niccolo rossi");
}

#[test]
fn system_contacts_annotated() {
    let items = vec![
        ("Anna".to_string(), "+39 333 111 2222".to_string()),
        ("Senza".to_string(), "---".to_string()),
        ("Bea".to_string(), "3334445555".to_string()),
    ];
    let state = vec![("3331112222".to_string(), true)];
    let out = annotate_sys_contacts(items, &state);
    assert_eq!(out.len(), 2);
    assert_eq!((out[0].name.as_str(), out[0].imported, out[0].customized), ("Anna", true, true));
    assert_eq!((out[1].name.as_str(), out[1].imported, out[1].customized), ("Bea", false, false));
}

#[test]
fn sms_shown_under_contact_name() {
    let names = vec![("3331112222".to_string(), "Anna".to_string())];
    assert_eq!(sms_view(&names, "+393331112222", "ciao".into(), 5, "in".into()).who, "Anna");
    assert_eq!(sms_view(&names, "+1 555", "x".into(), 6, "out".into()).who, "+1 555");
}

#[test]
fn consent_from_saved_permission() {
    assert_eq!(consent_decision(Some("allow")), ConsentDecision::Allow);
    assert_eq!(consent_decision(Some("deny")), ConsentDecision::Deny);
    assert_eq!(consent_decision(Some("ask")), ConsentDecision::Ask);
    assert_eq!(consent_decision(None), ConsentDecision::Ask);
    assert!(!consent_answer(None));
    assert!(consent_answer(Some(true)));
}

#[test]
fn peer_prompts() {
    let p = peer_system("Marco", "- nome: Marco", "", "", "");
    assert!(p.starts_with("Sei Liara, l'assistente personale di Marco (una persona reale"));
    assert!(p.contains("State facendo conoscenza"));
    assert!(p.ends_with("PROFILO CONDIVISIBILE di Marco:\n- nome: Marco"));
    let q = peer_system("Marco", "x", "fissare una cena", "menu", "già deciso: venerdì");
    assert!(q.contains("OBIETTIVO di questa conversazione: fissare una cena\nLavora INSIEME"));
    assert!(q.contains("lo confermerai con Marco."));
    assert!(q.contains("\n\nMATERIALI condivisi per il compito (usali):\nmenu"));
    assert!(q.ends_with("già deciso: venerdì\nNON ripetere ciò che risulta già detto, chiesto o deciso nel riepilogo: prosegui da lì."));
    let s = summarizer_prompt(" ", &[("me".into(), "ciao".into()), ("peer".into(), "ok".into())]);
    assert!(s.contains("RIEPILOGO PRECEDENTE:\n(nessuno)\n\nNUOVI MESSAGGI da integrare:\nIO: ciao\nLUI/LEI: ok\n\nScrivi SOLO"));
}

#[test]
fn shareable_profile_name_and_lines() {
    let e = vec![("Città".to_string(), "Roma".to_string()), ("NOME".to_string(), "Ada".to_string())];
    assert_eq!(shareable_profile(&e), ("Ada".to_string(), "- Città: Roma\n- NOME: Ada".to_string()));
    assert_eq!(shareable_profile(&[]), ("l'utente".to_string(), "(nessuna info di profilo disponibile)".to_string()));
}

#[test]
fn drawer_limit_is_clamped() {
    assert_eq!(sms_limit(None), 200);
    assert_eq!(sms_limit(Some(0)), 1);
    assert_eq!(sms_limit(Some(50)), 50);
    assert_eq!(sms_limit(Some(10_000)), 500);
}

#[test]
fn sms_reader_reply() {
    assert_eq!(
        sms_reply_rows("DENIED").unwrap_err(),
        "Permesso SMS negato: puoi concederlo dalle impostazioni Android."
    );
    assert!(sms_reply_rows("non json").unwrap_err().starts_with("SMS di sistema illeggibili: "));
    let rows = sms_reply_rows(r#"[["+39333","ciao",1700000000,"in"],["555","ok",5,"out"]]"#).unwrap();
    assert_eq!(rows.len(), 2);
    assert_eq!(rows[0], ("+39333".to_string(), "ciao".to_string(), 1700000000, "in".to_string()));
    assert!(sms_reply_rows("[]").unwrap().is_empty());
}

fn event(id: i64, title: &str, when: &str, notes: &str) -> Event {
    Event { id, title: title.to_string(), when_str: when.to_string(), notes: notes.to_string() }
}

#[test]
fn agenda_search_by_title_or_notes() {
    let all = vec![
        event(1, "Dentista", "12/07/2026 10:00", "portare la tessera"),
        event(2, "Cena con Anna", "13/07/2026 20:30", ""),
        event(3, "Riunione", "14/07/2026 09:00", "con il DENTISTA dello studio"),
    ];
    let hits = search_events(&all, "dentista", 10);
    assert_eq!(hits.iter().map(|e| e.id).collect::<Vec<_>>(), vec![1, 3]);
    assert_eq!(search_events(&all, "DENTISTA", 1).len(), 1);
    assert!(search_events(&all, "palestra", 10).is_empty());
    // a negative limit wraps to a huge unsigned one and puts no bound
    assert_eq!(search_events(&all, "a", -1).len(), 3);
    assert!(search_events(&all, "a", 0).is_empty());
}
