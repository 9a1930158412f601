use liara_core::intent::{cap_tool_result, clean_city, extract_url, search_query, tool_resp, weather_query, MAX_TOOL_RESULT_CHARS};

#[test]
fn weather_estrae_citta() {
    assert_eq!(weather_query("che tempo fa a modena oggi?").as_deref(), Some("modena"));
    assert_eq!(weather_query("ho bisogno del meteo a modena").as_deref(), Some("modena"));
    assert_eq!(weather_query("previsioni per roma domani").as_deref(), Some("roma"));
}

#[test]
fn weather_citta_dopo_parole_di_mezzo() {
    assert_eq!(weather_query("che tempo fa nel weekend a milano").as_deref(), Some("milano"));
    assert_eq!(weather_query("previsioni meteo domani ad ancona").as_deref(), Some("ancona"));
    assert_eq!(weather_query("meteo a modena questa settimana").as_deref(), Some("modena"));
}

#[test]
fn weather_senza_citta_usa_posizione_ip() {
    assert_eq!(weather_query("che tempo fa oggi?").as_deref(), Some(""));
    assert_eq!(weather_query("mi serve il meteo").as_deref(), Some(""));
}

#[test]
fn weather_ignora_non_meteo() {
    assert!(weather_query("mandami l'email a mario").is_none());
    assert!(weather_query("che ore sono").is_none());
    assert!(weather_query("apri il file relazione").is_none());
}

#[test]
fn weather_citta_multiparola() {
    assert_eq!(weather_query("meteo a reggio emilia").as_deref(), Some("reggio emilia"));
}

#[test]
fn finds_bare_domain_and_url() {
    assert_eq!(extract_url("Vai su automazionezeli.com e dimmi che sito è").as_deref(), Some("automazionezeli.com"));
    assert_eq!(extract_url("apri https://example.org/path ora").as_deref(), Some("https://example.org/path"));
    assert_eq!(extract_url("scrivi a mario@test.com").as_deref(), None);
    assert_eq!(extract_url("che ore sono?"), None);
}

#[test]
fn cap_lascia_passare_un_output_web_search_completo() {
    let payload = "R".repeat(3700);
    assert_eq!(cap_tool_result(payload.clone()), payload);
    let fetch = "F".repeat(4100);
    assert_eq!(cap_tool_result(fetch.clone()), fetch);
}

#[test]
fn cap_tronca_oltre_il_limite_con_marcatore() {
    let huge = "X".repeat(MAX_TOOL_RESULT_CHARS + 500);
    let capped = cap_tool_result(huge);
    assert!(capped.ends_with("…(troncato)"));
    assert!(capped.chars().count() <= MAX_TOOL_RESULT_CHARS + 20);
}

// ---- further cases

#[test]
fn url_file_names_are_not_domains() {
    assert_eq!(extract_url("leggi note.io.txt"), None);
    assert_eq!(extract_url("guarda (Sito.IT/pagina)!").as_deref(), Some("Sito.IT/pagina"));
    assert_eq!(extract_url(".com"), None);
}

#[test]
fn search_query_strips_phrasing() {
    assert_eq!(search_query("cerca in rete le ultime notizie su roma").as_deref(), Some("le ultime notizie su roma"));
    assert_eq!(search_query("cerca l'email di mario"), None);
    assert_eq!(search_query("ciao"), None);
    assert_eq!(search_query("  cerca  ").as_deref(), Some("cerca"));
}

#[test]
fn clean_city_drops_noise_words() {
    assert_eq!(clean_city("la spezia, domani!"), "spezia");
    assert_eq!(clean_city("  nel weekend roma "), "roma");
}

#[test]
fn tool_response_per_dialect() {
    assert_eq!(tool_resp("42", false), "<tool_response>\n42\n</tool_response>");
    assert_eq!(tool_resp("42", true), "Risultato dello strumento:\n42");
}

#[test]
fn cap_counts_characters_not_bytes() {
    let s = "è".repeat(MAX_TOOL_RESULT_CHARS);
    assert_eq!(cap_tool_result(s.clone()), s);
    let t = "è".repeat(MAX_TOOL_RESULT_CHARS + 1);
    assert_eq!(cap_tool_result(t), format!("{}\n…(troncato)", "è".repeat(MAX_TOOL_RESULT_CHARS)));
}

#[test]
fn a_host_whose_lowercase_is_longer_does_not_stop_the_scan() {
    let text = "apri İİ.com/éé";
    let r = extract_url(text);
    assert!(r.map_or(true, |u| text.contains(u.as_str())));
}
