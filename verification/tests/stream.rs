use liara_core::stream::StreamRouter;

/// Feeds the whole output piece by piece and concatenates what is shown.
fn drive(pieces: &[&str]) -> String {
    let mut r = StreamRouter::new();
    let mut out = String::new();
    for p in pieces {
        out.push_str(&r.push(p));
    }
    out.push_str(&r.finish());
    out
}

#[test]
fn testo_semplice_passa_intatto() {
    assert_eq!(drive(&["Ciao, ", "come ", "stai?"]), "Ciao, come stai?");
}

#[test]
fn prosa_prima_del_toolcall_emessa_json_soppresso() {
    let out = drive(&["Controllo subito.\n", "<tool_call>\n{\"name\":\"datetime\"}", "\n</tool_call>"]);
    assert_eq!(out, "Controllo subito.\n");
}

#[test]
fn toolcall_gemma_soppresso() {
    let out = drive(&["Ecco ", "<|tool_call>call:weather{}", "<tool_call|>"]);
    assert_eq!(out, "Ecco ");
}

#[test]
fn coda_parziale_di_marker_trattenuta_poi_emessa() {
    let mut r = StreamRouter::new();
    let a = r.push("testo <too");
    assert_eq!(a, "testo ");
    let b = r.push("laggia va bene");
    assert_eq!(format!("{a}{b}{}", r.finish()), "testo <toolaggia va bene");
}

#[test]
fn thinking_channel_gemma_nascosto() {
    let out = drive(&["<|channel>thought\nuso weather\n<channel|>", "A Modena 26°C."]);
    assert_eq!(out, "A Modena 26°C.");
}

#[test]
fn channel_aperto_troncato_non_emette_ragionamento() {
    assert_eq!(drive(&["<|channel>thought\nsto ragionando"]), "");
}

#[test]
fn prosa_prima_del_channel_emessa() {
    let out = drive(&["Ok. ", "<|channel>thought\nx\n<channel|>", "Fatto."]);
    assert_eq!(out, "Ok. Fatto.");
}

// ---- further cases

#[test]
fn shown_text_does_not_depend_on_how_output_is_cut() {
    let whole = "Ecco il meteo: <tool_call>{\"name\":\"weather\"}</tool_call>";
    let a = drive(&[whole]);
    let chars: Vec<String> = whole.chars().map(|c| c.to_string()).collect();
    let refs: Vec<&str> = chars.iter().map(|s| s.as_str()).collect();
    let b = drive(&refs);
    assert_eq!(a, "Ecco il meteo: ");
    assert_eq!(a, b);
}

#[test]
fn trailing_partial_marker_is_shown_at_the_end() {
    assert_eq!(drive(&["fine <|tool"]), "fine <|tool");
    assert_eq!(drive(&["fine [TOOL_CA"]), "fine [TOOL_CA");
}

#[test]
fn finish_releases_a_held_angle_bracket() {
    let mut r = StreamRouter::new();
    assert_eq!(r.push("ciao <"), "ciao ");
    assert_eq!(r.finish(), "<");
}

#[test]
fn every_thinking_channel_is_hidden() {
    let out = drive(&["<|channel>thought\na\n<channel|>Prima.", "<|channel>thought\nb\n<channel|> Seconda."]);
    assert_eq!(out, "Prima. Seconda.");
}

#[test]
fn tool_call_before_a_channel_is_never_shown() {
    assert_eq!(drive(&["a<tool_call>{}<|channel>t"]), "a");
    let mut r = StreamRouter::new();
    assert_eq!(r.push("a<tool_call>{}<|channel>t"), "a");
    assert_eq!(r.push("<channel|>dopo"), "");
    assert_eq!(r.finish(), "");
}

#[test]
fn channel_opener_cut_across_pieces_is_still_hidden() {
    assert_eq!(drive(&["ciao <|chan", "nel>pensiero<channel|>ok"]), "ciao ok");
}

#[test]
fn tool_call_inside_a_channel_is_reasoning() {
    assert_eq!(drive(&["<|channel>forse <tool_call> no<channel|>Risposta."]), "Risposta.");
}

#[test]
fn raw_keeps_everything() {
    let mut r = StreamRouter::new();
    r.push("a<tool_call>");
    r.push("{}");
    assert_eq!(r.push("x"), "");
    assert_eq!(r.finish(), "");
    assert_eq!(r.into_raw(), "a<tool_call>{}x");
}

#[test]
fn any_cut_of_a_stream_with_channels_shows_the_same() {
    let whole = "Ok. <|channel>pensa<channel|>Poi <tool_call>{\"name\":\"x\"}";
    let expected = drive(&[whole]);
    assert_eq!(expected, "Ok. Poi ");
    let chars: Vec<char> = whole.chars().collect();
    for cut in 0..=chars.len() {
        let a: String = chars[..cut].iter().collect();
        let b: String = chars[cut..].iter().collect();
        assert_eq!(drive(&[a.as_str(), b.as_str()]), expected, "cut at {cut}");
    }
    let singles: Vec<String> = chars.iter().map(|c| c.to_string()).collect();
    let refs: Vec<&str> = singles.iter().map(|s| s.as_str()).collect();
    assert_eq!(drive(&refs), expected);
}

#[test]
fn closed_channel_is_skipped_and_the_rest_routed() {
    assert_eq!(drive(&["Prima <|channel>a<channel|>", "dopo <|tool_call>call:x{}"]), "Prima dopo ");
}
