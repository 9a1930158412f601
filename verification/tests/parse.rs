use liara_core::gemma::{gemma_braced_body, parse_gemma_value, split_gemma_pairs, GemmaValue};
use liara_core::markers::{strip_channel_thinking, strip_markers, toolcall_prefix_tail};
use liara_core::scan::{first_json_array, first_json_object};
use liara_core::toolcall::{extract_tool_call, parse_facts, ToolArgs, ToolCall};

/// The name and arguments of the tool call in `raw`.
fn call(raw: &str) -> Option<(String, ToolArgs)> {
    extract_tool_call(raw).map(|ToolCall { name, args }| (name, args))
}

/// The JSON arguments of a Qwen or Mistral call.
fn json_args(args: &ToolArgs) -> &serde_json::Value {
    match args {
        ToolArgs::Json(v) => v,
        ToolArgs::Gemma(_) => panic!("expected JSON arguments"),
    }
}

/// The value of a Gemma argument.
fn gemma_arg<'a>(args: &'a ToolArgs, key: &str) -> &'a GemmaValue {
    match args {
        ToolArgs::Gemma(pairs) => &pairs.iter().rev().find(|a| a.key == key).expect("argument").value,
        ToolArgs::Json(_) => panic!("expected Gemma arguments"),
    }
}

#[test]
fn extracts_simple_tool_call() {
    let raw = "Certo!\n<tool_call>\n{\"name\": \"datetime\", \"arguments\": {}}\n</tool_call>";
    let (name, _) = call(raw).expect("tool call");
    assert_eq!(name, "datetime");
}

#[test]
fn extracts_tool_call_after_preamble() {
    let raw = "<Sleeper/>\n<tool_call>{\"name\":\"calculator\",\"arguments\":{\"expression\":\"2+2\"}}</tool_call>";
    let (name, args) = call(raw).expect("tool call");
    assert_eq!(name, "calculator");
    assert_eq!(json_args(&args).get("expression").unwrap(), "2+2");
}

#[test]
fn no_tool_call_in_plain_text() {
    assert!(call("Ciao, come stai?").is_none());
}

#[test]
fn json_object_balances_braces_and_strings() {
    assert_eq!(first_json_object("x {\"a\": {\"b\": 1}} y").unwrap(), "{\"a\": {\"b\": 1}}");
    assert_eq!(first_json_object("{\"s\":\"}\"}").unwrap(), "{\"s\":\"}\"}");
}

#[test]
fn strip_markers_removes_toolcall_and_imend() {
    assert_eq!(strip_markers("ciao<|im_end|>"), "ciao");
    assert_eq!(strip_markers("ciao <tool_call>{...}"), "ciao");
}

#[test]
fn prefix_tail_detects_partial_marker() {
    assert_eq!(toolcall_prefix_tail("hello <too"), 4);
    assert_eq!(toolcall_prefix_tail("hello"), 0);
    assert_eq!(toolcall_prefix_tail("x <tool_call"), 10);
}

#[test]
fn parses_fact_array() {
    let facts = parse_facts("Ecco: [\"Si chiama Marco\", \"Ama il jazz\"]");
    assert_eq!(facts, vec!["Si chiama Marco", "Ama il jazz"]);
}

#[test]
fn extracts_gemma_native_tool_call() {
    let raw = "<|tool_call>call:weather{location:<|\"|>Modena<|\"|>}<tool_call|>";
    let (name, args) = call(raw).expect("gemma tool call");
    assert_eq!(name, "weather");
    assert_eq!(gemma_arg(&args, "location"), &GemmaValue::Str("Modena".into()));
}

#[test]
fn extracts_gemma_tool_call_multi_arg_and_types() {
    let raw = "<|tool_call>call:book{title:<|\"|>Uno, due<|\"|>,pages:320,ebook:true}<tool_call|>";
    let (name, args) = call(raw).expect("gemma tool call");
    assert_eq!(name, "book");
    assert_eq!(gemma_arg(&args, "title"), &GemmaValue::Str("Uno, due".into()));
    assert_eq!(gemma_arg(&args, "pages"), &GemmaValue::Int(320));
    assert_eq!(gemma_arg(&args, "ebook"), &GemmaValue::Bool(true));
}

#[test]
fn extracts_gemma_tool_call_after_prose() {
    let raw = "Controllo subito.\n<|tool_call>call:datetime{}<tool_call|>";
    let (name, args) = call(raw).expect("gemma tool call");
    assert_eq!(name, "datetime");
    match args {
        ToolArgs::Gemma(pairs) => assert!(pairs.is_empty()),
        ToolArgs::Json(_) => panic!("expected Gemma arguments"),
    }
}

#[test]
fn gemma_string_with_unicode_is_utf8_safe() {
    let raw = "<|tool_call>call:note{text:<|\"|>caffè però àèìòù<|\"|>}<tool_call|>";
    let (name, args) = call(raw).expect("gemma tool call");
    assert_eq!(name, "note");
    assert_eq!(gemma_arg(&args, "text"), &GemmaValue::Str("caffè però àèìòù".into()));
}

#[test]
fn extracts_mistral_tool_call() {
    let raw = "[TOOL_CALLS][{\"name\": \"weather\", \"arguments\": {\"location\": \"Modena\"}}]";
    let (name, args) = call(raw).expect("mistral tool call");
    assert_eq!(name, "weather");
    assert_eq!(json_args(&args).get("location").unwrap(), "Modena");
}

#[test]
fn extracts_mistral_tool_call_after_prose_and_before_eos() {
    let raw = "Controllo.[TOOL_CALLS][{\"name\":\"datetime\",\"arguments\":{}}, {\"name\":\"x\",\"arguments\":{}}]</s>";
    let (name, _) = call(raw).expect("mistral tool call");
    assert_eq!(name, "datetime");
}

#[test]
fn mistral_bracket_in_string_non_spezza_array() {
    let raw = "[TOOL_CALLS][{\"name\":\"note\",\"arguments\":{\"text\":\"lista] con ]\"}}]";
    let (name, args) = call(raw).expect("mistral tool call");
    assert_eq!(name, "note");
    assert_eq!(json_args(&args).get("text").unwrap(), "lista] con ]");
}

#[test]
fn strip_markers_mistral_e_cohere_eos() {
    assert_eq!(strip_markers("risposta</s>"), "risposta");
    assert_eq!(strip_markers("ciao<|END_OF_TURN_TOKEN|>"), "ciao");
    assert_eq!(strip_markers("ecco [TOOL_CALLS][{}]"), "ecco");
    assert_eq!(strip_markers("gemma nativo<end_of_turn>"), "gemma nativo");
}

#[test]
fn qwen_still_wins_when_both_absent_gemma() {
    let raw = "<tool_call>{\"name\":\"web_search\",\"arguments\":{\"query\":\"x\"}}</tool_call>";
    assert_eq!(call(raw).unwrap().0, "web_search");
}

#[test]
fn strip_markers_removes_gemma_end_of_turn_and_toolcall() {
    assert_eq!(strip_markers("risposta<turn|>"), "risposta");
    assert_eq!(strip_markers("ecco <|tool_call>call:x{}"), "ecco");
}

#[test]
fn prefix_tail_detects_partial_gemma_marker() {
    assert_eq!(toolcall_prefix_tail("testo <|tool"), 6);
    assert_eq!(toolcall_prefix_tail("x <|tool_call"), 11);
    assert_eq!(toolcall_prefix_tail("x <tool_call"), 10);
}

#[test]
fn strip_channel_thinking_rimuove_il_blocco() {
    let raw = "<|channel>thought\nDevo usare weather per Modena\n<channel|>A Modena oggi 26°C.";
    assert_eq!(strip_channel_thinking(raw), "A Modena oggi 26°C.");
    assert_eq!(strip_markers(raw), "A Modena oggi 26°C.");
}

#[test]
fn strip_channel_canale_aperto_troncato_e_tutto_ragionamento() {
    assert_eq!(strip_channel_thinking("<|channel>thought\nsto ragionando"), "");
}

#[test]
fn strip_channel_senza_canale_lascia_intatto() {
    assert_eq!(strip_channel_thinking("Ciao, tutto bene."), "Ciao, tutto bene.");
}

#[test]
fn strip_channel_rimuove_canali_multipli() {
    let raw = "<|channel>thought\na\n<channel|>Prima.<|channel>thought\nb\n<channel|> Seconda.";
    assert_eq!(strip_channel_thinking(raw), "Prima. Seconda.");
}

// ---- further cases

#[test]
fn json_array_must_start_the_text() {
    assert_eq!(first_json_array("[1, [2, \"]\"], 3] dopo").unwrap(), "[1, [2, \"]\"], 3]");
    assert!(first_json_array(" [1]").is_none());
    assert!(first_json_array("[1, 2").is_none());
}

#[test]
fn json_object_with_escaped_quote() {
    assert_eq!(first_json_object("a {\"k\":\"x\\\"}\"} b").unwrap(), "{\"k\":\"x\\\"}\"}");
    assert!(first_json_object("nessuna graffa").is_none());
    assert!(first_json_object("{\"aperto\": 1").is_none());
}

#[test]
fn gemma_value_kinds() {
    assert_eq!(parse_gemma_value("<|\"|>ciao<|\"|>"), GemmaValue::Str("ciao".into()));
    assert_eq!(parse_gemma_value("false"), GemmaValue::Bool(false));
    assert_eq!(parse_gemma_value("-42"), GemmaValue::Int(-42));
    assert_eq!(parse_gemma_value("+7"), GemmaValue::Int(7));
    assert_eq!(parse_gemma_value("9223372036854775808"), GemmaValue::Bare("9223372036854775808".into()));
    assert_eq!(parse_gemma_value("-9223372036854775808"), GemmaValue::Int(i64::MIN));
    assert_eq!(parse_gemma_value("3.5"), GemmaValue::Bare("3.5".into()));
    assert_eq!(parse_gemma_value("<|\"|>"), GemmaValue::Bare("<|\"|>".into()));
}

#[test]
fn gemma_pairs_split_at_top_level_commas() {
    assert_eq!(split_gemma_pairs("a:1,b:<|\"|>x,y<|\"|>, "), vec!["a:1", "b:<|\"|>x,y<|\"|>"]);
    assert_eq!(split_gemma_pairs(",a:1"), vec!["", "a:1"]);
}

#[test]
fn gemma_braced_body_skips_braces_in_strings() {
    assert_eq!(gemma_braced_body("{a:<|\"|>}<|\"|>}resto").unwrap(), "{a:<|\"|>}<|\"|>}");
    assert!(gemma_braced_body("{a:1").is_none());
}

#[test]
fn gemma_without_call_prefix_and_blank_name() {
    assert_eq!(call("<|tool_call>weather{}").unwrap().0, "weather");
    assert!(call("<|tool_call>call: {}").is_none());
}

#[test]
fn mistral_empty_array_is_no_call() {
    assert!(call("[TOOL_CALLS][]").is_none());
}

#[test]
fn qwen_call_without_arguments_gets_empty_object() {
    let (name, args) = call("<tool_call>{\"name\":\"datetime\"}").unwrap();
    assert_eq!(name, "datetime");
    assert_eq!(json_args(&args), &serde_json::Value::Object(serde_json::Map::new()));
}

#[test]
fn facts_short_or_invalid_are_dropped() {
    assert_eq!(parse_facts("[\" ab \", \" Ama il mare \"]"), vec!["Ama il mare"]);
    assert!(parse_facts("niente lista").is_empty());
    assert!(parse_facts("[1, 2]").is_empty());
    assert!(parse_facts("] prima [").is_empty());
}

#[test]
fn stripping_twice_is_stripping_once() {
    let raw = "  <|channel>x<channel|>Ecco <|chan<|channel>y<channel|>nel> fatto.<|im_end|> coda  ";
    let once = strip_markers(raw);
    assert_eq!(strip_markers(&once), once);
    for m in ["<|im_end|>", "<end_of_turn>", "<turn|>", "</s>", "<|tool_call", "<tool_call", "[TOOL_CALLS", "<|channel>"] {
        assert!(!once.contains(m));
    }
}
