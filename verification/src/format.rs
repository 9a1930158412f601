//! Prompt rendering for each dialect the local model speaks (ChatML/Qwen, Gemma, Mistral,
//! Cohere), and the memory-extraction prompt.
use vstd::prelude::*;
use crate::chars::{append_str, append_chars, chars_eq, starts_with, starts_with_exec, to_chars, from_chars};

verus! {

/// One turn of a conversation.
#[derive(Clone, Debug)]
pub struct Message {
    pub role: String,
    pub content: String,
}

/// The mathematical form of a [`Message`]: role and content.
pub struct Msg {
    pub role: Seq<char>,
    pub content: Seq<char>,
}

pub open spec fn msg_view(m: Message) -> Msg {
    Msg { role: m.role@, content: m.content@ }
}

/// The turns of a conversation, as mathematical values.
pub open spec fn msgs_view(ms: Seq<Message>) -> Seq<Msg> {
    Seq::new(ms.len(), |i: int| msg_view(ms[i]))
}

/// The prompt dialect of the local model; each family speaks its own native format, closed by
/// its own end-of-turn token.
#[derive(Clone, Copy, PartialEq, Eq, Debug, Structural)]
pub enum Dialect {
    /// ChatML (Qwen, LFM2, Hermes): `<|im_start|>role … <|im_end|>`.
    Qwen,
    /// Gemma: `<start_of_turn>role … <end_of_turn>`, system text in the first user turn.
    Gemma,
    /// Mistral: `[INST] …[/INST]`, tools block before the last user turn.
    Mistral,
    /// Cohere (Aya Expanse, Command-R): `<|START_OF_TURN_TOKEN|><|ROLE_TOKEN|>…`.
    Cohere,
}

/// The system prompt of the local assistant.
pub const SYSTEM_PROMPT: &'static str = "Sei Liara, assistente personale locale e privata, con memoria dell'utente. USA SEMPRE gli strumenti per agire (email, agenda, file, web, meteo, note, calcoli, data e ora): non rispondere a parole quando puoi usare uno strumento. Quando uno strumento ti restituisce dei dati, riportali SUBITO e per intero: nomi, numeri, date, fonti. NON inventare MAI nomi, numeri, indirizzi o fatti su aziende, persone o luoghi reali: se non li sai con certezza usa web_search, e se non trovi nulla dillo con onestà. Parla in italiano in modo naturale e discorsivo, come in una vera conversazione: spiega quanto serve, e quando è utile fai una domanda di chiarimento o proponi il passo successivo. Evita le risposte telegrafiche, ma senza dilungarti. NON ripeterti e non ripetere quanto hai già detto. Non firmarti.";

/// Whether `m` (a role or content) is the given literal.
fn is_word(m: &String, w: &str) -> (r: bool)
    ensures
        r == (m@ == w@),
{
    let a = to_chars(m.as_str());
    let b = to_chars(w);
    chars_eq(&a, &b)
}

// ---------------------------------------------------------------- ChatML / Qwen

/// One ChatML turn.
pub open spec fn qwen_turn(m: Msg) -> Seq<char> {
    "<|im_start|>"@ + m.role + "\n"@ + m.content + "<|im_end|>\n"@
}

/// The ChatML turns of a conversation, in order.
pub open spec fn qwen_turns(ms: Seq<Msg>) -> Seq<char>
    decreases ms.len(),
{
    if ms.len() == 0 {
        seq![]
    } else {
        qwen_turns(ms.drop_last()) + qwen_turn(ms.last())
    }
}

/// The ChatML prompt: system turn, the conversation, and the assistant turn left open; with
/// thinking off, an empty `<think>` block is pre-filled so the model answers directly.
pub open spec fn qwen_prompt(system: Seq<char>, ms: Seq<Msg>, thinking: bool) -> Seq<char> {
    "<|im_start|>system\n"@ + system + "<|im_end|>\n"@ + qwen_turns(ms)
        + "<|im_start|>assistant\n"@ + if thinking {
        seq![]
    } else {
        "<think>\n\n</think>\n\n"@
    }
}

pub fn format_chat_qwen(system: &str, messages: &[Message], thinking: bool) -> (p: String)
    ensures
        p@ == qwen_prompt(system@, msgs_view(messages@), thinking),
{
    let ghost ms = msgs_view(messages@);
    let mut p: Vec<char> = Vec::new();
    append_str(&mut p, "<|im_start|>system\n");
    append_str(&mut p, system);
    append_str(&mut p, "<|im_end|>\n");
    let ghost head = p@;
    let mut k: usize = 0;
    while k < messages.len()
        invariant
            k <= messages.len(),
            ms == msgs_view(messages@),
            p@ == head + qwen_turns(ms.take(k as int)),
        decreases messages.len() - k,
    {
        let m = &messages[k];
        append_str(&mut p, "<|im_start|>");
        append_str(&mut p, m.role.as_str());
        append_str(&mut p, "\n");
        append_str(&mut p, m.content.as_str());
        append_str(&mut p, "<|im_end|>\n");
        proof {
            assert(ms.take(k + 1).drop_last() =~= ms.take(k as int));
            assert(ms.take(k + 1).last() == msg_view(messages@[k as int]));
        }
        k = k + 1;
        assert(p@ =~= head + qwen_turns(ms.take(k as int)));
    }
    append_str(&mut p, "<|im_start|>assistant\n");
    if !thinking {
        append_str(&mut p, "<think>\n\n</think>\n\n");
    }
    proof {
        assert(ms.take(messages.len() as int) =~= ms);
    }
    let r = from_chars(p.as_slice());
    assert(r@ =~= qwen_prompt(system@, ms, thinking));
    r
}

// ---------------------------------------------------------------- Gemma

pub open spec fn is_assistant(m: Msg) -> bool {
    m.role == "assistant"@
}

/// No turn of `ms` is a user-side turn (everything but the assistant's is).
pub open spec fn all_assistant(ms: Seq<Msg>) -> bool {
    forall|i: int| 0 <= i < ms.len() ==> is_assistant(#[trigger] ms[i])
}

/// One Gemma turn; `inject` puts the system text at the top of it.
pub open spec fn gemma_turn(m: Msg, system: Seq<char>, inject: bool) -> Seq<char> {
    "<start_of_turn>"@ + (if is_assistant(m) {
        "model"@
    } else {
        "user"@
    }) + "\n"@ + (if inject {
        system + "\n\n"@
    } else {
        seq![]
    }) + m.content + "<end_of_turn>\n"@
}

/// The Gemma turns; the system text (if any) goes into the first user-side turn.
pub open spec fn gemma_turns(system: Seq<char>, ms: Seq<Msg>) -> Seq<char>
    decreases ms.len(),
{
    if ms.len() == 0 {
        seq![]
    } else {
        let prev = ms.drop_last();
        let inject = system.len() > 0 && !is_assistant(ms.last()) && all_assistant(prev);
        gemma_turns(system, prev) + gemma_turn(ms.last(), system, inject)
    }
}

/// The native Gemma prompt: `<bos>`, the turns, and the model turn left open.
pub open spec fn gemma_prompt(system: Seq<char>, ms: Seq<Msg>) -> Seq<char> {
    "<bos>"@ + gemma_turns(system, ms) + "<start_of_turn>model\n"@
}

/// The system text goes into the first user-side turn: after `k + 1` turns it has been placed
/// exactly when some of them is user-side.
proof fn lemma_gemma_step(system: Seq<char>, ms: Seq<Msg>, k: int)
    requires
        0 <= k < ms.len(),
    ensures
        ms.take(k + 1).drop_last() == ms.take(k),
        ms.take(k + 1).last() == ms[k],
        (system.len() > 0 && !all_assistant(ms.take(k + 1))) == (system.len() > 0 && (
        !all_assistant(ms.take(k)) || !is_assistant(ms[k]))),
{
    let t = ms.take(k + 1);
    assert(t.drop_last() =~= ms.take(k));
    if all_assistant(ms.take(k)) && is_assistant(ms[k]) {
        assert forall|i: int| 0 <= i < t.len() implies is_assistant(#[trigger] t[i]) by {
            if i < k {
                assert(t[i] == ms.take(k)[i]);
            }
        }
    }
    if !all_assistant(ms.take(k)) {
        let w = choose|i: int| 0 <= i < k && !is_assistant(#[trigger] ms.take(k)[i]);
        assert(t[w] == ms.take(k)[w]);
    }
    if !is_assistant(ms[k]) {
        assert(!is_assistant(t[k]));
    }
}

pub fn format_chat_gemma(system: &str, messages: &[Message]) -> (p: String)
    ensures
        p@ == gemma_prompt(system@, msgs_view(messages@)),
{
    let ghost ms = msgs_view(messages@);
    let mut p: Vec<char> = Vec::new();
    append_str(&mut p, "<bos>");
    let ghost head = p@;
    let sys = to_chars(system);
    let mut sys_injected = false;
    let mut k: usize = 0;
    while k < messages.len()
        invariant
            k <= messages.len(),
            ms == msgs_view(messages@),
            sys@ == system@,
            p@ == head + gemma_turns(system@, ms.take(k as int)),
            sys_injected == (system@.len() > 0 && !all_assistant(ms.take(k as int))),
        decreases messages.len() - k,
    {
        let m = &messages[k];
        let assistant = is_word(&m.role, "assistant");
        append_str(&mut p, "<start_of_turn>");
        if assistant {
            append_str(&mut p, "model");
        } else {
            append_str(&mut p, "user");
        }
        append_str(&mut p, "\n");
        let inject = !assistant && !sys_injected && sys.len() > 0;
        if inject {
            append_chars(&mut p, &sys);
            append_str(&mut p, "\n\n");
            sys_injected = true;
        }
        append_str(&mut p, m.content.as_str());
        append_str(&mut p, "<end_of_turn>\n");
        proof {
            lemma_gemma_step(system@, ms, k as int);
            assert(ms[k as int] == msg_view(messages@[k as int]));
        }
        k = k + 1;
        assert(p@ =~= head + gemma_turns(system@, ms.take(k as int)));
    }
    append_str(&mut p, "<start_of_turn>model\n");
    proof {
        assert(ms.take(messages.len() as int) =~= ms);
    }
    let r = from_chars(p.as_slice());
    assert(r@ =~= gemma_prompt(system@, ms));
    r
}

// ---------------------------------------------------------------- Mistral

/// Index of the last turn whose role is `user`.
pub open spec fn last_user(ms: Seq<Msg>) -> Option<int>
    decreases ms.len(),
{
    if ms.len() == 0 {
        None
    } else if ms.last().role == "user"@ {
        Some(ms.len() - 1)
    } else {
        last_user(ms.drop_last())
    }
}

/// One Mistral turn, at index `i` of a conversation whose last user turn is `lu`.
pub open spec fn mistral_turn(
    m: Msg,
    i: int,
    lu: Option<int>,
    system: Seq<char>,
    tools: Option<Seq<char>>,
) -> Seq<char> {
    if m.role == "user"@ {
        let is_last = lu == Some(i);
        (if is_last && tools is Some {
            tools->0
        } else {
            seq![]
        }) + "[INST] "@ + (if is_last && system.len() > 0 {
            system + "\n\n"@
        } else {
            seq![]
        }) + m.content + "[/INST]"@
    } else if m.role == "tool"@ {
        m.content
    } else {
        (if starts_with(m.content, "[TOOL_CALLS]"@) {
            m.content
        } else {
            " "@ + m.content
        }) + "</s>"@
    }
}

/// The first `n` Mistral turns.
pub open spec fn mistral_turns(
    ms: Seq<Msg>,
    n: int,
    lu: Option<int>,
    system: Seq<char>,
    tools: Option<Seq<char>>,
) -> Seq<char>
    decreases n,
{
    if n <= 0 {
        seq![]
    } else {
        mistral_turns(ms, n - 1, lu, system, tools) + mistral_turn(ms[n - 1], n - 1, lu, system, tools)
    }
}

/// The official Mistral template: user turns in `[INST] …[/INST]`, the system text folded into
/// the last user turn, the tools block right before it, tool results standalone, assistant
/// text after a space and closed by `</s>` (a tool call without the space).
pub open spec fn mistral_prompt(system: Seq<char>, ms: Seq<Msg>, tools: Option<Seq<char>>) -> Seq<char> {
    mistral_turns(ms, ms.len() as int, last_user(ms), system, tools)
}

pub proof fn lemma_last_user(ms: Seq<Msg>)
    ensures
        last_user(ms) matches Some(i) ==> 0 <= i < ms.len() && ms[i].role == "user"@ && forall|
            j: int,
        | i < j < ms.len() ==> ms[j].role != "user"@,
        last_user(ms) is None ==> forall|j: int| 0 <= j < ms.len() ==> ms[j].role != "user"@,
    decreases ms.len(),
{
    if ms.len() > 0 && ms.last().role != "user"@ {
        lemma_last_user(ms.drop_last());
        assert forall|j: int| 0 <= j < ms.len() - 1 implies ms[j] == ms.drop_last()[j] by {}
    }
}

/// Index of the last turn whose role is `user`.
fn last_user_exec(messages: &[Message]) -> (r: Option<usize>)
    ensures
        (match r {
            Some(i) => Some(i as int),
            None => None,
        }) == last_user(msgs_view(messages@)),
{
    let ghost ms = msgs_view(messages@);
    proof {
        lemma_last_user(ms);
    }
    let mut j: usize = messages.len();
    while j > 0
        invariant
            j <= messages.len(),
            ms == msgs_view(messages@),
            forall|q: int| j <= q < messages.len() ==> ms[q].role != "user"@,
            last_user(ms) matches Some(i) ==> i < j,
        decreases j,
    {
        proof {
            lemma_last_user(ms);
        }
        assert(ms[j - 1] == msg_view(messages@[j - 1]));
        if is_word(&messages[j - 1].role, "user") {
            assert(ms[j - 1].role == "user"@);
            assert(last_user(ms) == Some(j - 1)) by {
                if let Some(i) = last_user(ms) {
                    if i < j - 1 {
                        assert(ms[j - 1].role != "user"@);
                    }
                }
            }
            return Some(j - 1);
        }
        assert(ms[j - 1].role != "user"@);
        j = j - 1;
    }
    None
}

pub fn format_chat_mistral(system: &str, messages: &[Message], tools_block: Option<&str>) -> (p: String)
    ensures
        p@ == mistral_prompt(
            system@,
            msgs_view(messages@),
            match tools_block {
                Some(t) => Some(t@),
                None => None,
            },
        ),
{
    let ghost ms = msgs_view(messages@);
    let ghost tools = match tools_block {
        Some(t) => Some(t@),
        None => None,
    };
    let last = last_user_exec(messages);
    let mut p: Vec<char> = Vec::new();
    let mut k: usize = 0;
    while k < messages.len()
        invariant
            k <= messages.len(),
            ms == msgs_view(messages@),
            tools == match tools_block {
                Some(t) => Some(t@),
                None => None,
            },
            (match last {
                Some(i) => Some(i as int),
                None => None,
            }) == last_user(ms),
            p@ == mistral_turns(ms, k as int, last_user(ms), system@, tools),
        decreases messages.len() - k,
    {
        let m = &messages[k];
        let is_last = match last {
            Some(i) => i == k,
            None => false,
        };
        if is_word(&m.role, "user") {
            if is_last {
                match tools_block {
                    Some(tb) => append_str(&mut p, tb),
                    None => {},
                }
            }
            append_str(&mut p, "[INST] ");
            if is_last && !system.is_empty() {
                append_str(&mut p, system);
                append_str(&mut p, "\n\n");
            }
            append_str(&mut p, m.content.as_str());
            append_str(&mut p, "[/INST]");
        } else if is_word(&m.role, "tool") {
            append_str(&mut p, m.content.as_str());
        } else {
            let c = to_chars(m.content.as_str());
            let tc = to_chars("[TOOL_CALLS]");
            if starts_with_exec(&c, &tc) {
                append_chars(&mut p, &c);
            } else {
                append_str(&mut p, " ");
                append_chars(&mut p, &c);
            }
            append_str(&mut p, "</s>");
        }
        proof {
            assert(ms[k as int] == msg_view(messages@[k as int]));
        }
        k = k + 1;
        assert(p@ =~= mistral_turns(ms, k as int, last_user(ms), system@, tools));
    }
    from_chars(p.as_slice())
}

// ---------------------------------------------------------------- Cohere

/// One Cohere turn: the assistant speaks as CHATBOT, every other role as USER.
pub open spec fn cohere_turn(m: Msg) -> Seq<char> {
    "<|START_OF_TURN_TOKEN|>"@ + (if is_assistant(m) {
        "<|CHATBOT_TOKEN|>"@
    } else {
        "<|USER_TOKEN|>"@
    }) + m.content + "<|END_OF_TURN_TOKEN|>"@
}

pub open spec fn cohere_turns(ms: Seq<Msg>) -> Seq<char>
    decreases ms.len(),
{
    if ms.len() == 0 {
        seq![]
    } else {
        cohere_turns(ms.drop_last()) + cohere_turn(ms.last())
    }
}

/// The Cohere prompt: `<BOS_TOKEN>`, a SYSTEM turn when there is system text, the turns, and
/// the CHATBOT turn left open.
pub open spec fn cohere_prompt(system: Seq<char>, ms: Seq<Msg>) -> Seq<char> {
    "<BOS_TOKEN>"@ + (if system.len() > 0 {
        "<|START_OF_TURN_TOKEN|><|SYSTEM_TOKEN|>"@ + system + "<|END_OF_TURN_TOKEN|>"@
    } else {
        seq![]
    }) + cohere_turns(ms) + "<|START_OF_TURN_TOKEN|><|CHATBOT_TOKEN|>"@
}

pub fn format_chat_cohere(system: &str, messages: &[Message]) -> (p: String)
    ensures
        p@ == cohere_prompt(system@, msgs_view(messages@)),
{
    let ghost ms = msgs_view(messages@);
    let mut p: Vec<char> = Vec::new();
    append_str(&mut p, "<BOS_TOKEN>");
    if !system.is_empty() {
        append_str(&mut p, "<|START_OF_TURN_TOKEN|><|SYSTEM_TOKEN|>");
        append_str(&mut p, system);
        append_str(&mut p, "<|END_OF_TURN_TOKEN|>");
    }
    let ghost head = p@;
    let mut k: usize = 0;
    while k < messages.len()
        invariant
            k <= messages.len(),
            ms == msgs_view(messages@),
            p@ == head + cohere_turns(ms.take(k as int)),
        decreases messages.len() - k,
    {
        let m = &messages[k];
        append_str(&mut p, "<|START_OF_TURN_TOKEN|>");
        if is_word(&m.role, "assistant") {
            append_str(&mut p, "<|CHATBOT_TOKEN|>");
        } else {
            append_str(&mut p, "<|USER_TOKEN|>");
        }
        append_str(&mut p, m.content.as_str());
        append_str(&mut p, "<|END_OF_TURN_TOKEN|>");
        proof {
            assert(ms.take(k + 1).drop_last() =~= ms.take(k as int));
            assert(ms.take(k + 1).last() == msg_view(messages@[k as int]));
        }
        k = k + 1;
        assert(p@ =~= head + cohere_turns(ms.take(k as int)));
    }
    append_str(&mut p, "<|START_OF_TURN_TOKEN|><|CHATBOT_TOKEN|>");
    proof {
        assert(ms.take(messages.len() as int) =~= ms);
    }
    let r = from_chars(p.as_slice());
    assert(r@ =~= cohere_prompt(system@, ms));
    r
}

/// In a Cohere prompt, a turn added to the conversation is rendered just before the open
/// CHATBOT turn: an assistant turn speaks as CHATBOT, every other turn (the user's and the
/// tool results alike) as USER.
pub proof fn lemma_cohere_turn_roles(system: Seq<char>, ms: Seq<Msg>, m: Msg, thinking: bool, tools: Option<Seq<char>>)
    ensures
        ({
            let open = "<|START_OF_TURN_TOKEN|><|CHATBOT_TOKEN|>"@;
            let before = chat_prompt(system, ms, thinking, Dialect::Cohere, tools);
            let after = chat_prompt(system, ms.push(m), thinking, Dialect::Cohere, tools);
            let head = before.take(before.len() - open.len());
            &&& before.len() >= open.len()
            &&& m.role != "assistant"@ ==> after == head + "<|START_OF_TURN_TOKEN|>"@ + "<|USER_TOKEN|>"@
                + m.content + "<|END_OF_TURN_TOKEN|>"@ + open
            &&& m.role == "assistant"@ ==> after == head + "<|START_OF_TURN_TOKEN|>"@ + "<|CHATBOT_TOKEN|>"@
                + m.content + "<|END_OF_TURN_TOKEN|>"@ + open
        }),
{
    let open = "<|START_OF_TURN_TOKEN|><|CHATBOT_TOKEN|>"@;
    let sys = if system.len() > 0 {
        "<|START_OF_TURN_TOKEN|><|SYSTEM_TOKEN|>"@ + system + "<|END_OF_TURN_TOKEN|>"@
    } else {
        seq![]
    };
    let x = "<BOS_TOKEN>"@ + sys + cohere_turns(ms);
    assert(ms.push(m).drop_last() =~= ms);
    assert(cohere_turns(ms.push(m)) == cohere_turns(ms) + cohere_turn(m));
    let before = chat_prompt(system, ms, thinking, Dialect::Cohere, tools);
    assert(before == x + open);
    assert((x + open).take(x.len() as int) =~= x);
    let after = chat_prompt(system, ms.push(m), thinking, Dialect::Cohere, tools);
    assert(after =~= x + cohere_turn(m) + open);
    if m.role != "assistant"@ {
        assert(x + cohere_turn(m) + open =~= x + "<|START_OF_TURN_TOKEN|>"@ + "<|USER_TOKEN|>"@ + m.content
            + "<|END_OF_TURN_TOKEN|>"@ + open);
    } else {
        assert(x + cohere_turn(m) + open =~= x + "<|START_OF_TURN_TOKEN|>"@ + "<|CHATBOT_TOKEN|>"@ + m.content
            + "<|END_OF_TURN_TOKEN|>"@ + open);
    }
}

// ---------------------------------------------------------------- all dialects

/// The prompt for a conversation in the given dialect.
pub open spec fn chat_prompt(
    system: Seq<char>,
    ms: Seq<Msg>,
    thinking: bool,
    dialect: Dialect,
    tools: Option<Seq<char>>,
) -> Seq<char> {
    match dialect {
        Dialect::Gemma => gemma_prompt(system, ms),
        Dialect::Mistral => mistral_prompt(system, ms, tools),
        Dialect::Cohere => cohere_prompt(system, ms),
        Dialect::Qwen => qwen_prompt(system, ms, thinking),
    }
}

/// Renders a conversation into the prompt of the given dialect, leaving the assistant turn
/// open.  `thinking` matters for Qwen only; `tools_block` (the serialised
/// `[AVAILABLE_TOOLS] …[/AVAILABLE_TOOLS]`) for Mistral only.
pub fn format_chat(
    system: &str,
    messages: &[Message],
    thinking: bool,
    dialect: Dialect,
    tools_block: Option<&str>,
) -> (p: String)
    ensures
        p@ == chat_prompt(
            system@,
            msgs_view(messages@),
            thinking,
            dialect,
            match tools_block {
                Some(t) => Some(t@),
                None => None,
            },
        ),
{
    match dialect {
        Dialect::Gemma => format_chat_gemma(system, messages),
        Dialect::Mistral => format_chat_mistral(system, messages, tools_block),
        Dialect::Cohere => format_chat_cohere(system, messages),
        Dialect::Qwen => format_chat_qwen(system, messages, thinking),
    }
}

/// The system text of the memory extractor.
pub open spec fn extractor_system() -> Seq<char> {
    "Sei un estrattore di memoria personale. Dall'ultimo scambio estrai OGNI fatto durevole e utile per conoscere meglio l'UTENTE: nome, età, famiglia e relazioni, lavoro o studio, dove vive, gusti e preferenze, obiettivi, abitudini, opinioni, progetti, date importanti, salute, qualsiasi cosa stabile. NON estrarre fatti temporanei, domande, o cose sull'assistente. Rispondi SOLO con un array JSON di stringhe brevi in italiano, in terza persona (es. [\"Si chiama Marco\", \"Ama il jazz\"]). Se non c'è nulla di utile, rispondi []."@
}

/// The memory-extraction prompt (ChatML) for the last exchange.
pub open spec fn extraction_prompt_text(user: Seq<char>, assistant: Seq<char>) -> Seq<char> {
    "<|im_start|>system\n"@ + extractor_system() + "<|im_end|>\n<|im_start|>user\nUTENTE: "@ + user
        + "\nASSISTENTE: "@ + assistant + "<|im_end|>\n<|im_start|>assistant\n"@
}

/// Builds the memory-extraction prompt: any durable fact that helps know the user better.
pub fn extraction_prompt(user: &str, assistant: &str) -> (p: String)
    ensures
        p@ == extraction_prompt_text(user@, assistant@),
{
    let mut p: Vec<char> = Vec::new();
    append_str(&mut p, "<|im_start|>system\n");
    append_str(&mut p, "Sei un estrattore di memoria personale. Dall'ultimo scambio estrai OGNI fatto durevole e utile per conoscere meglio l'UTENTE: nome, età, famiglia e relazioni, lavoro o studio, dove vive, gusti e preferenze, obiettivi, abitudini, opinioni, progetti, date importanti, salute, qualsiasi cosa stabile. NON estrarre fatti temporanei, domande, o cose sull'assistente. Rispondi SOLO con un array JSON di stringhe brevi in italiano, in terza persona (es. [\"Si chiama Marco\", \"Ama il jazz\"]). Se non c'è nulla di utile, rispondi [].");
    append_str(&mut p, "<|im_end|>\n<|im_start|>user\nUTENTE: ");
    append_str(&mut p, user);
    append_str(&mut p, "\nASSISTENTE: ");
    append_str(&mut p, assistant);
    append_str(&mut p, "<|im_end|>\n<|im_start|>assistant\n");
    let r = from_chars(p.as_slice());
    assert(r@ =~= extraction_prompt_text(user@, assistant@));
    r
}

} // verus!
