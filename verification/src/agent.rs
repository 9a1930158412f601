//! The ReAct tool loop as a state machine: the model thinks, calls tools, observes, answers.
//!
//! The machine decides; the caller does the outside work.  Each [`AgentAction`] says what to do
//! (run a generation, look a tool up, ask the user's consent, run a tool, report a result,
//! finish) and the caller answers with the matching [`AgentEvent`].  At most five steps are
//! taken; when the intent is unambiguous (a web address, a web search, the weather) the first
//! step calls the tool directly instead of asking the model.
use vstd::prelude::*;
use crate::chars::{contains, contains_exec, to_chars, from_chars, trim, trim_exec, append_str, chars_eq};
use crate::format::{Dialect, Message, Msg, msg_view, msgs_view, chat_prompt, format_chat};
use crate::intent::{
    capped_result, cap_tool_result, search_intent, search_query, tool_response_text, tool_resp,
    url_in, UrlScan, weather_city, weather_query, extract_url,
};
use crate::json::{json_text, json_to_text, json_with, json_insert, json_str_value, json_from_text, empty_object, empty_json_object, json_parse};
use crate::markers::{visible_answer, strip_markers};
use crate::toolcall::{Call, CallArgs, ToolArgs, ToolCall, tool_call, extract_tool_call, call_is, opt_call_is, args_are};
use crate::lower::{lowercase, str_to_lowercase};
use crate::chars::utf8_len;

verus! {

/// At most this many model steps per turn.
pub const MAX_STEPS: usize = 5;

/// What the caller must do next.
pub enum AgentAction {
    /// Generate with the model.  With `routed`, stream through a `StreamRouter` (tool calls and
    /// reasoning hidden); otherwise show every token.  Answer with `Output`.
    Generate { prompt: String, max_tokens: usize, stop: Vec<String>, grammar: bool, routed: bool },
    /// Turn the arguments into JSON and look the tool up: answer with `ToolInfo`.
    CheckTool { name: String, args: ToolArgs },
    /// Ask the user's consent (saved permission or interactive): answer with `Consent`.
    AskConsent { tool: String, action: String },
    /// Report the call (`on_tool` with the arguments' text) and run the tool: answer with
    /// `ToolOutput`.
    RunTool { name: String, args: serde_json::Value, args_text: String },
    /// Report the result (`on_tool_result`): answer with `Begin`.
    ToolResult { name: String, result: String },
    /// The turn's answer.
    Done(String),
    /// The event does not fit the current step; nothing changed.
    Unexpected,
}

/// What the caller reports back.
pub enum AgentEvent {
    /// Go on with the next step (at the start, and after a reported result); `cancelled` when
    /// the user stopped the turn.
    Begin { cancelled: bool },
    /// The raw text a generation produced.
    Output(String),
    /// The call's arguments as JSON, the consent action when the tool is sensitive, and whether
    /// the user stopped the turn.
    ToolInfo { args: serde_json::Value, consent: Option<String>, cancelled: bool },
    /// The user's consent.
    Consent(bool),
    /// What the tool returned, or its error.
    ToolOutput(Result<String, String>),
}

/// Where the machine stands.
pub enum Phase {
    Ready,
    AwaitOutput,
    AwaitFinal,
    AwaitToolInfo { name: String },
    AwaitConsent { name: String, args: serde_json::Value, action: String },
    AwaitToolOutput { name: String, args: serde_json::Value },
    AfterResult,
    Finished,
}

/// The mathematical form of a [`Phase`].
pub enum Ph {
    Ready,
    AwaitOutput,
    AwaitFinal,
    AwaitToolInfo(Seq<char>),
    AwaitConsent(Seq<char>, serde_json::Value, Seq<char>),
    AwaitToolOutput(Seq<char>, serde_json::Value),
    AfterResult,
    Finished,
}

pub open spec fn phase_view(p: Phase) -> Ph {
    match p {
        Phase::Ready => Ph::Ready,
        Phase::AwaitOutput => Ph::AwaitOutput,
        Phase::AwaitFinal => Ph::AwaitFinal,
        Phase::AwaitToolInfo { name } => Ph::AwaitToolInfo(name@),
        Phase::AwaitConsent { name, args, action } => Ph::AwaitConsent(name@, args, action@),
        Phase::AwaitToolOutput { name, args } => Ph::AwaitToolOutput(name@, args),
        Phase::AfterResult => Ph::AfterResult,
        Phase::Finished => Ph::Finished,
    }
}

/// The mathematical form of the machine.
pub struct Agent {
    pub convo: Seq<Msg>,
    pub system: Seq<char>,
    pub base_system: Seq<char>,
    pub dialect: Dialect,
    pub thinking: bool,
    pub max_tokens: nat,
    pub tools: bool,
    pub grammar: bool,
    pub user_request: Seq<char>,
    pub forced: Option<Seq<char>>,
    pub forced_used: bool,
    pub steps: nat,
    pub phase: Ph,
}

/// The mathematical form of an [`AgentAction`].
pub enum Act {
    Generate { prompt: Seq<char>, max_tokens: nat, stop: Seq<Seq<char>>, grammar: bool, routed: bool },
    CheckTool { name: Seq<char>, args: CallArgs },
    AskConsent { tool: Seq<char>, action: Seq<char> },
    RunTool { name: Seq<char>, args: serde_json::Value, args_text: Seq<char> },
    ToolResult { name: Seq<char>, result: Seq<char> },
    Done(Seq<char>),
    Unexpected,
}

/// The mathematical form of an [`AgentEvent`].
pub enum Ev {
    Begin(bool),
    Output(Seq<char>),
    ToolInfo(serde_json::Value, Option<Seq<char>>, bool),
    Consent(bool),
    ToolOutput(Result<Seq<char>, Seq<char>>),
}

pub open spec fn event_view(e: AgentEvent) -> Ev {
    match e {
        AgentEvent::Begin { cancelled } => Ev::Begin(cancelled),
        AgentEvent::Output(s) => Ev::Output(s@),
        AgentEvent::ToolInfo { args, consent, cancelled } => Ev::ToolInfo(
            args,
            match consent {
                Some(c) => Some(c@),
                None => None,
            },
            cancelled,
        ),
        AgentEvent::Consent(b) => Ev::Consent(b),
        AgentEvent::ToolOutput(r) => Ev::ToolOutput(
            match r {
                Ok(s) => Ok(s@),
                Err(e) => Err(e@),
            },
        ),
    }
}

/// Whether the strings read as `s`.
pub open spec fn strings_are(v: Seq<String>, s: Seq<Seq<char>>) -> bool {
    v.len() == s.len() && forall|k: int| 0 <= k < v.len() ==> #[trigger] v[k]@ == s[k]
}

/// Whether the call arguments read as `a`.
pub open spec fn args_read_as(t: ToolArgs, a: CallArgs) -> bool {
    match (t, a) {
        (ToolArgs::Json(v), CallArgs::Json(w)) => v == w,
        (ToolArgs::Gemma(v), CallArgs::Gemma(s)) => args_are(v@, s),
        _ => false,
    }
}

/// Whether an action reads as `a`.
pub open spec fn action_is(x: AgentAction, a: Act) -> bool {
    match (x, a) {
        (
            AgentAction::Generate { prompt, max_tokens, stop, grammar, routed },
            Act::Generate { prompt: p, max_tokens: m, stop: s, grammar: g, routed: r },
        ) => prompt@ == p && max_tokens == m && strings_are(stop@, s) && grammar == g && routed == r,
        (AgentAction::CheckTool { name, args }, Act::CheckTool { name: n, args: a }) => name@ == n
            && args_read_as(args, a),
        (AgentAction::AskConsent { tool, action }, Act::AskConsent { tool: t, action: c }) => tool@
            == t && action@ == c,
        (
            AgentAction::RunTool { name, args, args_text },
            Act::RunTool { name: n, args: a, args_text: t },
        ) => name@ == n && args == a && args_text@ == t,
        (AgentAction::ToolResult { name, result }, Act::ToolResult { name: n, result: r }) => name@
            == n && result@ == r,
        (AgentAction::Done(s), Act::Done(t)) => s@ == t,
        (AgentAction::Unexpected, Act::Unexpected) => true,
        _ => false,
    }
}

// ---------------------------------------------------------------- setup

/// The latest user turn, if any.
pub open spec fn last_user_turn(ms: Seq<Msg>) -> Option<Seq<char>>
    decreases ms.len(),
{
    if ms.len() == 0 {
        None
    } else if ms.last().role == "user"@ {
        Some(ms.last().content)
    } else {
        last_user_turn(ms.drop_last())
    }
}

/// The text of the latest user turn (empty when there is none).
pub open spec fn latest_user_text(ms: Seq<Msg>) -> Seq<char> {
    match last_user_turn(ms) {
        Some(c) => c,
        None => seq![],
    }
}

/// The text of the latest user turn (see [`latest_user_text`]).
pub fn latest_user_message(messages: &[Message]) -> (r: String)
    ensures
        r@ == latest_user_text(msgs_view(messages@)),
{
    match latest_user_exec(messages) {
        Some(c) => c,
        None => String::new(),
    }
}

/// The user's latest request, lowercased: it drives tool routing and the intent guard.
pub open spec fn user_request_of(ms: Seq<Msg>) -> Seq<char> {
    match last_user_turn(ms) {
        Some(c) => lowercase(c),
        None => seq![],
    }
}

fn latest_user_exec(messages: &[Message]) -> (r: Option<String>)
    ensures
        r matches Some(c) ==> last_user_turn(msgs_view(messages@)) == Some(c@),
        r is None ==> last_user_turn(msgs_view(messages@)) is None,
{
    let ghost ms = msgs_view(messages@);
    let mut j: usize = messages.len();
    assert(ms.take(messages.len() as int) =~= ms);
    while j > 0
        invariant
            j <= messages.len(),
            ms == msgs_view(messages@),
            last_user_turn(ms) == last_user_turn(ms.take(j as int)),
        decreases j,
    {
        assert(ms.take(j as int).last() == msg_view(messages@[j - 1]));
        assert(ms.take(j as int).drop_last() =~= ms.take(j - 1));
        let role = to_chars(messages[j - 1].role.as_str());
        if chars_eq(&role, &to_chars("user")) {
            return Some(from_chars(to_chars(messages[j - 1].content.as_str()).as_slice()));
        }
        j = j - 1;
    }
    None
}

/// The user's latest request, lowercased (see [`user_request_of`]); the caller uses it to pick
/// the tools shown in the prompt.
pub fn user_request(messages: &[Message]) -> (r: String)
    ensures
        r@ == user_request_of(msgs_view(messages@)),
{
    match latest_user_exec(messages) {
        Some(c) => str_to_lowercase(c.as_str()),
        None => String::new(),
    }
}

/// The block injected for a forced tool call: `<tool_call>` around the JSON object of the
/// tool's name and arguments.
pub open spec fn forced_call_text(name: Seq<char>, args: serde_json::Value) -> Seq<char> {
    "<tool_call>\n"@ + json_text(
        json_with(json_with(empty_json_object(), "name"@, json_str_value(name)), "arguments"@, args),
    ) + "\n</tool_call>"@
}

/// The arguments object with one string field.
pub open spec fn one_field(key: Seq<char>, value: Seq<char>) -> serde_json::Value {
    json_with(empty_json_object(), key, json_str_value(value))
}

/// The tool call forced by an unambiguous intent of the latest user turn: a web address to
/// fetch; else a web search; else the weather (of a city, or here).
pub open spec fn forced_call_of(ms: Seq<Msg>) -> Option<Seq<char>> {
    match url_in(latest_user_text(ms)) {
        UrlScan::Found(u) => Some(forced_call_text("web_fetch"@, one_field("url"@, u))),
        _ => match search_intent(user_request_of(ms)) {
            Some(q) => Some(forced_call_text("web_search"@, one_field("query"@, trim(q)))),
            None => match weather_city(user_request_of(ms)) {
                Some(c) => Some(
                    forced_call_text(
                        "weather"@,
                        if trim(c).len() == 0 {
                            empty_json_object()
                        } else {
                            one_field("location"@, trim(c))
                        },
                    ),
                ),
                None => None,
            },
        },
    }
}

fn forced_call_exec(name: &str, args: serde_json::Value) -> (r: String)
    ensures
        r@ == forced_call_text(name@, args),
{
    let obj = empty_object();
    let obj = json_insert(obj, "name", json_from_text(name));
    let obj = json_insert(obj, "arguments", args);
    let mut v = to_chars("<tool_call>\n");
    append_str(&mut v, json_to_text(&obj).as_str());
    append_str(&mut v, "\n</tool_call>");
    from_chars(v.as_slice())
}

fn one_field_exec(key: &str, value: &str) -> (r: serde_json::Value)
    ensures
        r == one_field(key@, value@),
{
    json_insert(empty_object(), key, json_from_text(value))
}

/// The machine of one agent turn.
pub struct AgentState {
    convo: Vec<Message>,
    system: String,
    base_system: String,
    dialect: Dialect,
    thinking: bool,
    max_tokens: usize,
    tools: bool,
    grammar: bool,
    user_request: String,
    forced: Option<String>,
    forced_used: bool,
    steps: usize,
    phase: Phase,
}

impl View for AgentState {
    type V = Agent;

    closed spec fn view(&self) -> Agent {
        Agent {
            convo: msgs_view(self.convo@),
            system: self.system@,
            base_system: self.base_system@,
            dialect: self.dialect,
            thinking: self.thinking,
            max_tokens: self.max_tokens as nat,
            tools: self.tools,
            grammar: self.grammar,
            user_request: self.user_request@,
            forced: match self.forced {
                Some(f) => Some(f@),
                None => None,
            },
            forced_used: self.forced_used,
            steps: self.steps as nat,
            phase: phase_view(self.phase),
        }
    }
}

/// The system prompt of the tool loop: the current date and time, the base system prompt,
/// then the tools block when there are tools.
pub open spec fn loop_system(now: Seq<char>, base: Seq<char>, tools: bool, block: Seq<char>) -> Seq<char> {
    "Data e ora correnti: "@ + now + ".\n"@ + base + if tools {
        block
    } else {
        seq![]
    }
}

/// A fresh machine for a turn over `messages`.
pub open spec fn agent_start(
    base: Seq<char>,
    ms: Seq<Msg>,
    thinking: bool,
    max_tokens: nat,
    dialect: Dialect,
    tools: bool,
    now: Seq<char>,
    block: Seq<char>,
    grammar_on: bool,
) -> Agent {
    Agent {
        convo: ms,
        system: loop_system(now, base, tools, block),
        base_system: base,
        dialect,
        thinking,
        max_tokens,
        tools,
        grammar: tools && dialect != Dialect::Gemma && grammar_on,
        user_request: user_request_of(ms),
        forced: forced_call_of(ms),
        forced_used: false,
        steps: 0,
        phase: Ph::Ready,
    }
}

impl AgentState {
    /// Starts a turn.  `now` is the current date and time, `tools_block` the tools shown for
    /// the request (see [`user_request`]), `grammar_on` whether the tool-call grammar may be
    /// used; `has_tools` is false when the registry is empty.
    pub fn new(
        base_system: &str,
        messages: &[Message],
        thinking: bool,
        max_tokens: usize,
        dialect: Dialect,
        has_tools: bool,
        now: &str,
        tools_block: &str,
        grammar_on: bool,
    ) -> (r: Self)
        requires
            utf8_len(latest_user_text(msgs_view(messages@))) < u64::MAX,
        ensures
            r@ == agent_start(
                base_system@,
                msgs_view(messages@),
                thinking,
                max_tokens as nat,
                dialect,
                has_tools,
                now@,
                tools_block@,
                grammar_on,
            ),
    {
        let mut convo: Vec<Message> = Vec::new();
        let mut k: usize = 0;
        while k < messages.len()
            invariant
                k <= messages.len(),
                convo.len() == k,
                msgs_view(convo@) == msgs_view(messages@).take(k as int),
            decreases messages.len() - k,
        {
            let m = Message {
                role: from_chars(to_chars(messages[k].role.as_str()).as_slice()),
                content: from_chars(to_chars(messages[k].content.as_str()).as_slice()),
            };
            let ghost c0 = convo@;
            assert(msg_view(m) == msg_view(messages@[k as int]));
            convo.push(m);
            k = k + 1;
            assert forall|i: int| 0 <= i < k implies #[trigger] msgs_view(convo@)[i] == msgs_view(
                messages@,
            ).take(k as int)[i] by {
                if i < k - 1 {
                    assert(convo@[i] == c0[i]);
                    assert(msgs_view(c0)[i] == msgs_view(messages@).take(k - 1)[i]);
                }
            }
            assert(msgs_view(convo@) =~= msgs_view(messages@).take(k as int));
        }
        assert(msgs_view(messages@).take(messages.len() as int) =~= msgs_view(messages@));
        let mut sys = to_chars("Data e ora correnti: ");
        append_str(&mut sys, now);
        append_str(&mut sys, ".\n");
        append_str(&mut sys, base_system);
        if has_tools {
            append_str(&mut sys, tools_block);
        }
        let system = from_chars(sys.as_slice());
        let req = user_request(messages);
        let user_msg = match latest_user_exec(messages) {
            Some(c) => c,
            None => String::new(),
        };
        let forced = match extract_url(user_msg.as_str()) {
            Some(u) => Some(forced_call_exec("web_fetch", one_field_exec("url", u.as_str()))),
            None => match search_query(req.as_str()) {
                Some(q) => {
                    let t = from_chars(trim_exec(&to_chars(q.as_str())).as_slice());
                    Some(forced_call_exec("web_search", one_field_exec("query", t.as_str())))
                },
                None => match weather_query(req.as_str()) {
                    Some(c) => {
                        let t = trim_exec(&to_chars(c.as_str()));
                        if t.len() == 0 {
                            Some(forced_call_exec("weather", empty_object()))
                        } else {
                            let ts = from_chars(t.as_slice());
                            Some(forced_call_exec("weather", one_field_exec("location", ts.as_str())))
                        }
                    },
                    None => None,
                },
            },
        };
        let grammar = has_tools && !(match dialect {
            Dialect::Gemma => true,
            _ => false,
        }) && grammar_on;
        AgentState {
            convo,
            system,
            base_system: from_chars(to_chars(base_system).as_slice()),
            dialect,
            thinking,
            max_tokens,
            tools: has_tools,
            grammar,
            user_request: req,
            forced,
            forced_used: false,
            steps: 0,
            phase: Phase::Ready,
        }
    }
}

} // verus!

verus! {

/// The stop sequences of a generation: those of a tool step, or of the final answer.
pub open spec fn stops(dialect: Dialect, last: bool) -> Seq<Seq<char>> {
    if last {
        if dialect == Dialect::Gemma {
            seq!["<turn|>"@]
        } else {
            seq!["<|im_end|>"@]
        }
    } else if dialect == Dialect::Gemma {
        seq!["<tool_call|>"@, "</tool_call>"@, "<turn|>"@]
    } else {
        seq!["</tool_call>"@, "<|im_end|>"@]
    }
}

fn stops_exec(dialect: Dialect, last: bool) -> (r: Vec<String>)
    ensures
        strings_are(r@, stops(dialect, last)),
{
    let gemma = match dialect {
        Dialect::Gemma => true,
        _ => false,
    };
    let mut r: Vec<String> = Vec::new();
    if last {
        if gemma {
            r.push(from_chars(to_chars("<turn|>").as_slice()));
        } else {
            r.push(from_chars(to_chars("<|im_end|>").as_slice()));
        }
    } else if gemma {
        r.push(from_chars(to_chars("<tool_call|>").as_slice()));
        r.push(from_chars(to_chars("</tool_call>").as_slice()));
        r.push(from_chars(to_chars("<turn|>").as_slice()));
    } else {
        r.push(from_chars(to_chars("</tool_call>").as_slice()));
        r.push(from_chars(to_chars("<|im_end|>").as_slice()));
    }
    r
}

/// Out of steps (or stopped): one last plain answer, with the base system prompt and no tools.
pub open spec fn final_generation(a: Agent) -> (Agent, Act) {
    (
        Agent { phase: Ph::AwaitFinal, ..a },
        Act::Generate {
            prompt: chat_prompt(a.base_system, a.convo, a.thinking, a.dialect, None),
            max_tokens: 400,
            stop: stops(a.dialect, true),
            grammar: false,
            routed: false,
        },
    )
}

/// The intent guard: a weak model confuses received and sent mail, so the request's wording
/// decides between `email_recent` and `email_sent`.
pub open spec fn guarded_name(name: Seq<char>, req: Seq<char>) -> Seq<char> {
    if name == "email_recent"@ && (contains(req, "inviat"@) || contains(req, "spedit"@) || contains(
        req,
        "mandat"@,
    )) {
        "email_sent"@
    } else if name == "email_sent"@ && (contains(req, "ricevut"@) || contains(req, "in arrivo"@)
        || contains(req, "arrivata"@)) {
        "email_recent"@
    } else {
        name
    }
}

/// A step's raw output: a tool call goes to the tool lookup; otherwise it is the answer.
pub open spec fn on_raw(a: Agent, raw: Seq<char>) -> (Agent, Act) {
    match tool_call(raw) {
        None => (Agent { phase: Ph::Finished, ..a }, Act::Done(visible_answer(raw))),
        Some(c) => {
            let n = guarded_name(c.name, a.user_request);
            (Agent { phase: Ph::AwaitToolInfo(n), ..a }, Act::CheckTool { name: n, args: c.args })
        },
    }
}

/// How the assistant's own tool call is recorded in the conversation: Qwen's `<tool_call>`
/// block; for Gemma a plain sentence (it would imitate and leak the ChatML block).
pub open spec fn assistant_note(name: Seq<char>, args: serde_json::Value, dialect: Dialect) -> Seq<char> {
    if dialect == Dialect::Gemma {
        "Ho usato lo strumento "@ + name + " con argomenti "@ + json_text(args) + "."@
    } else {
        "<tool_call>\n{\"name\": \""@ + name + "\", \"arguments\": "@ + json_text(args)
            + "}\n</tool_call>"@
    }
}

/// A tool result enters the conversation: the assistant's call, then the result as a user
/// turn; the result is reported.
pub open spec fn record_result(a: Agent, name: Seq<char>, args: serde_json::Value, result: Seq<char>) -> (Agent, Act) {
    (
        Agent {
            convo: a.convo.push(Msg { role: "assistant"@, content: assistant_note(name, args, a.dialect) }).push(
                Msg { role: "user"@, content: tool_response_text(result, a.dialect == Dialect::Gemma) },
            ),
            phase: Ph::AfterResult,
            ..a
        },
        Act::ToolResult { name, result },
    )
}

/// The start of a step: out of steps or stopped, the final answer; on the first step with an
/// unambiguous intent, the forced call; otherwise a generation with the tools.
pub open spec fn begin_step(a: Agent, cancelled: bool) -> (Agent, Act) {
    if a.steps >= MAX_STEPS {
        final_generation(a)
    } else {
        let a1 = Agent { steps: a.steps + 1, ..a };
        if cancelled {
            final_generation(a1)
        } else if !a1.forced_used && a1.tools && a1.forced is Some {
            on_raw(Agent { forced_used: true, ..a1 }, a1.forced->0)
        } else {
            (
                Agent { phase: Ph::AwaitOutput, ..a1 },
                Act::Generate {
                    prompt: chat_prompt(a1.system, a1.convo, a1.thinking, a1.dialect, None),
                    max_tokens: a1.max_tokens,
                    stop: stops(a1.dialect, false),
                    grammar: a1.grammar,
                    routed: true,
                },
            )
        }
    }
}

/// One transition of the machine.
pub open spec fn agent_step(a: Agent, e: Ev) -> (Agent, Act) {
    match a.phase {
        Ph::Ready => match e {
            Ev::Begin(c) => begin_step(a, c),
            _ => (a, Act::Unexpected),
        },
        Ph::AfterResult => match e {
            Ev::Begin(c) => begin_step(a, c),
            _ => (a, Act::Unexpected),
        },
        Ph::AwaitOutput => match e {
            Ev::Output(raw) => on_raw(a, raw),
            _ => (a, Act::Unexpected),
        },
        Ph::AwaitFinal => match e {
            Ev::Output(out) => (Agent { phase: Ph::Finished, ..a }, Act::Done(visible_answer(out))),
            _ => (a, Act::Unexpected),
        },
        Ph::AwaitToolInfo(name) => match e {
            Ev::ToolInfo(args, consent, cancelled) => if cancelled {
                final_generation(a)
            } else {
                match consent {
                    Some(action) => (
                        Agent { phase: Ph::AwaitConsent(name, args, action), ..a },
                        Act::AskConsent { tool: name, action },
                    ),
                    None => (
                        Agent { phase: Ph::AwaitToolOutput(name, args), ..a },
                        Act::RunTool { name, args, args_text: json_text(args) },
                    ),
                }
            },
            _ => (a, Act::Unexpected),
        },
        Ph::AwaitConsent(name, args, action) => match e {
            Ev::Consent(ok) => if ok {
                (
                    Agent { phase: Ph::AwaitToolOutput(name, args), ..a },
                    Act::RunTool { name, args, args_text: json_text(args) },
                )
            } else {
                record_result(a, name, args, "Permesso negato dall'utente: "@ + action + "."@)
            },
            _ => (a, Act::Unexpected),
        },
        Ph::AwaitToolOutput(name, args) => match e {
            Ev::ToolOutput(r) => record_result(
                a,
                name,
                args,
                capped_result(
                    match r {
                        Ok(s) => s,
                        Err(x) => "Errore: "@ + x,
                    },
                ),
            ),
            _ => (a, Act::Unexpected),
        },
        Ph::Finished => (a, Act::Unexpected),
    }
}

fn guarded_name_exec(name: String, req: &String) -> (r: String)
    ensures
        r@ == guarded_name(name@, req@),
{
    let n = to_chars(name.as_str());
    let q = to_chars(req.as_str());
    if chars_eq(&n, &to_chars("email_recent")) && (contains_exec(&q, &to_chars("inviat"))
        || contains_exec(&q, &to_chars("spedit")) || contains_exec(&q, &to_chars("mandat"))) {
        from_chars(to_chars("email_sent").as_slice())
    } else if chars_eq(&n, &to_chars("email_sent")) && (contains_exec(&q, &to_chars("ricevut"))
        || contains_exec(&q, &to_chars("in arrivo")) || contains_exec(&q, &to_chars("arrivata"))) {
        from_chars(to_chars("email_recent").as_slice())
    } else {
        name
    }
}

fn assistant_note_exec(name: &String, args: &serde_json::Value, dialect: Dialect) -> (r: String)
    ensures
        r@ == assistant_note(name@, *args, dialect),
{
    let text = json_to_text(args);
    let mut v: Vec<char> = Vec::new();
    match dialect {
        Dialect::Gemma => {
            append_str(&mut v, "Ho usato lo strumento ");
            append_str(&mut v, name.as_str());
            append_str(&mut v, " con argomenti ");
            append_str(&mut v, text.as_str());
            append_str(&mut v, ".");
        },
        _ => {
            append_str(&mut v, "<tool_call>\n{\"name\": \"");
            append_str(&mut v, name.as_str());
            append_str(&mut v, "\", \"arguments\": ");
            append_str(&mut v, text.as_str());
            append_str(&mut v, "}\n</tool_call>");
        },
    }
    let r = from_chars(v.as_slice());
    assert(r@ =~= assistant_note(name@, *args, dialect));
    r
}

fn message(role: &str, content: String) -> (m: Message)
    ensures
        msg_view(m) == (Msg { role: role@, content: content@ }),
{
    Message { role: from_chars(to_chars(role).as_slice()), content }
}

impl AgentState {
    fn final_generation_exec(&mut self) -> (act: AgentAction)
        ensures
            final(self)@ == final_generation(old(self)@).0,
            action_is(act, final_generation(old(self)@).1),
    {
        let prompt = format_chat(self.base_system.as_str(), self.convo.as_slice(), self.thinking, self.dialect, None);
        self.phase = Phase::AwaitFinal;
        AgentAction::Generate {
            prompt,
            max_tokens: 400,
            stop: stops_exec(self.dialect, true),
            grammar: false,
            routed: false,
        }
    }

    fn on_raw_exec(&mut self, raw: &str) -> (act: AgentAction)
        ensures
            final(self)@ == on_raw(old(self)@, raw@).0,
            action_is(act, on_raw(old(self)@, raw@).1),
    {
        match extract_tool_call(raw) {
            None => {
                self.phase = Phase::Finished;
                AgentAction::Done(strip_markers(raw))
            },
            Some(call) => {
                let ToolCall { name, args } = call;
                let n = guarded_name_exec(name, &self.user_request);
                let n2 = from_chars(to_chars(n.as_str()).as_slice());
                self.phase = Phase::AwaitToolInfo { name: n };
                AgentAction::CheckTool { name: n2, args }
            },
        }
    }

    fn record_exec(&mut self, name: String, args: serde_json::Value, result: String) -> (act: AgentAction)
        ensures
            final(self)@ == record_result(old(self)@, name@, args, result@).0,
            action_is(act, record_result(old(self)@, name@, args, result@).1),
    {
        let note = assistant_note_exec(&name, &args, self.dialect);
        let gemma = match self.dialect {
            Dialect::Gemma => true,
            _ => false,
        };
        let resp = tool_resp(result.as_str(), gemma);
        let ghost c0 = self.convo@;
        self.convo.push(message("assistant", note));
        self.convo.push(message("user", resp));
        proof {
            let a = old(self)@;
            let want = a.convo.push(Msg { role: "assistant"@, content: assistant_note(name@, args, a.dialect) }).push(
                Msg { role: "user"@, content: tool_response_text(result@, a.dialect == Dialect::Gemma) },
            );
            assert forall|i: int| 0 <= i < want.len() implies #[trigger] msgs_view(self.convo@)[i] == want[i] by {
                if i < c0.len() {
                    assert(self.convo@[i] == c0[i]);
                }
            }
            assert(msgs_view(self.convo@) =~= want);
        }
        self.phase = Phase::AfterResult;
        AgentAction::ToolResult { name, result }
    }

    fn begin_exec(&mut self, cancelled: bool) -> (act: AgentAction)
        requires
            old(self).steps <= MAX_STEPS,
        ensures
            final(self)@ == begin_step(old(self)@, cancelled).0,
            action_is(act, begin_step(old(self)@, cancelled).1),
    {
        if self.steps >= MAX_STEPS {
            return self.final_generation_exec();
        }
        self.steps = self.steps + 1;
        if cancelled {
            return self.final_generation_exec();
        }
        if !self.forced_used && self.tools && self.forced.is_some() {
            self.forced_used = true;
            let raw = match &self.forced {
                Some(f) => from_chars(to_chars(f.as_str()).as_slice()),
                None => String::new(),
            };
            return self.on_raw_exec(raw.as_str());
        }
        let prompt = format_chat(self.system.as_str(), self.convo.as_slice(), self.thinking, self.dialect, None);
        self.phase = Phase::AwaitOutput;
        AgentAction::Generate {
            prompt,
            max_tokens: self.max_tokens,
            stop: stops_exec(self.dialect, false),
            grammar: self.grammar,
            routed: true,
        }
    }

    /// One transition: takes what the caller reports and says what to do next (see
    /// [`agent_step`]).
    pub fn step(&mut self, event: AgentEvent) -> (act: AgentAction)
        requires
            old(self)@.steps <= MAX_STEPS,
        ensures
            final(self)@ == agent_step(old(self)@, event_view(event)).0,
            action_is(act, agent_step(old(self)@, event_view(event)).1),
            final(self)@.steps <= MAX_STEPS,
    {
        let mut phase = Phase::Finished;
        std::mem::swap(&mut phase, &mut self.phase);
        match phase {
            Phase::Ready | Phase::AfterResult => {
                match event {
                    AgentEvent::Begin { cancelled } => {
                        self.phase = phase;
                        self.begin_exec(cancelled)
                    },
                    _ => {
                        self.phase = phase;
                        AgentAction::Unexpected
                    },
                }
            },
            Phase::AwaitOutput => match event {
                AgentEvent::Output(raw) => {
                    self.phase = Phase::AwaitOutput;
                    self.on_raw_exec(raw.as_str())
                },
                _ => {
                    self.phase = Phase::AwaitOutput;
                    AgentAction::Unexpected
                },
            },
            Phase::AwaitFinal => match event {
                AgentEvent::Output(out) => {
                    self.phase = Phase::Finished;
                    AgentAction::Done(strip_markers(out.as_str()))
                },
                _ => {
                    self.phase = Phase::AwaitFinal;
                    AgentAction::Unexpected
                },
            },
            Phase::AwaitToolInfo { name } => match event {
                AgentEvent::ToolInfo { args, consent, cancelled } => {
                    if cancelled {
                        self.phase = Phase::AwaitToolInfo { name };
                        return self.final_generation_exec();
                    }
                    match consent {
                        Some(action) => {
                            let tool = from_chars(to_chars(name.as_str()).as_slice());
                            let action2 = from_chars(to_chars(action.as_str()).as_slice());
                            self.phase = Phase::AwaitConsent { name, args, action };
                            AgentAction::AskConsent { tool, action: action2 }
                        },
                        None => {
                            let n2 = from_chars(to_chars(name.as_str()).as_slice());
                            let args_text = json_to_text(&args);
                            let args2 = crate::json::json_clone(&args);
                            self.phase = Phase::AwaitToolOutput { name, args };
                            AgentAction::RunTool { name: n2, args: args2, args_text }
                        },
                    }
                },
                _ => {
                    self.phase = Phase::AwaitToolInfo { name };
                    AgentAction::Unexpected
                },
            },
            Phase::AwaitConsent { name, args, action } => match event {
                AgentEvent::Consent(ok) => {
                    if ok {
                        let n2 = from_chars(to_chars(name.as_str()).as_slice());
                        let args_text = json_to_text(&args);
                        let args2 = crate::json::json_clone(&args);
                        self.phase = Phase::AwaitToolOutput { name, args };
                        AgentAction::RunTool { name: n2, args: args2, args_text }
                    } else {
                        let mut v = to_chars("Permesso negato dall'utente: ");
                        append_str(&mut v, action.as_str());
                        append_str(&mut v, ".");
                        let result = from_chars(v.as_slice());
                        self.phase = Phase::AwaitConsent { name: from_chars(to_chars(name.as_str()).as_slice()), args: crate::json::json_clone(&args), action };
                        self.record_exec(name, args, result)
                    }
                },
                _ => {
                    self.phase = Phase::AwaitConsent { name, args, action };
                    AgentAction::Unexpected
                },
            },
            Phase::AwaitToolOutput { name, args } => match event {
                AgentEvent::ToolOutput(r) => {
                    let text = match r {
                        Ok(s) => s,
                        Err(x) => {
                            let mut v = to_chars("Errore: ");
                            append_str(&mut v, x.as_str());
                            from_chars(v.as_slice())
                        },
                    };
                    let result = cap_tool_result(text);
                    self.phase = Phase::AwaitToolOutput { name: from_chars(to_chars(name.as_str()).as_slice()), args: crate::json::json_clone(&args) };
                    self.record_exec(name, args, result)
                },
                _ => {
                    self.phase = Phase::AwaitToolOutput { name, args };
                    AgentAction::Unexpected
                },
            },
            Phase::Finished => {
                self.phase = Phase::Finished;
                AgentAction::Unexpected
            },
        }
    }
}

} // verus!

verus! {

/// The consent gate holds: a tool the registry marks sensitive is never run on the strength of
/// the lookup alone; the user is asked first.
pub proof fn lemma_sensitive_tool_asks_first(
    a: Agent,
    name: Seq<char>,
    args: serde_json::Value,
    action: Seq<char>,
)
    requires
        a.phase == Ph::AwaitToolInfo(name),
    ensures
        agent_step(a, Ev::ToolInfo(args, Some(action), false)).1 == (Act::AskConsent {
            tool: name,
            action,
        }),
        agent_step(a, Ev::ToolInfo(args, Some(action), false)).0.phase == Ph::AwaitConsent(
            name,
            args,
            action,
        ),
{
}

/// A refused consent never runs the tool: the refusal itself becomes the tool's result.
pub proof fn lemma_refused_consent_does_not_run(
    a: Agent,
    name: Seq<char>,
    args: serde_json::Value,
    action: Seq<char>,
)
    requires
        a.phase == Ph::AwaitConsent(name, args, action),
    ensures
        agent_step(a, Ev::Consent(false)).1 == (Act::ToolResult {
            name,
            result: "Permesso negato dall'utente: "@ + action + "."@,
        }),
        !(agent_step(a, Ev::Consent(false)).1 is RunTool),
{
}

/// A tool is run only right after the lookup found it not sensitive, or after the user's
/// consent.
pub proof fn lemma_run_only_when_allowed(a: Agent, e: Ev)
    ensures
        agent_step(a, e).1 is RunTool ==> (a.phase is AwaitToolInfo && e matches Ev::ToolInfo(
            _,
            None,
            false,
        )) || (a.phase is AwaitConsent && e == Ev::Consent(true)),
{
}

/// A turn takes at most `MAX_STEPS` model steps: the step count never passes it, and once
/// reached the next step is the final plain answer; the forced call is made at most once.
pub proof fn lemma_bounded_steps(a: Agent, e: Ev)
    requires
        a.steps <= MAX_STEPS,
    ensures
        agent_step(a, e).0.steps <= MAX_STEPS,
        a.steps == MAX_STEPS && (a.phase is Ready || a.phase is AfterResult) && e is Begin
            ==> agent_step(a, e).0.phase is AwaitFinal,
        a.forced_used ==> agent_step(a, e).0.forced_used,
{
}

/// The conversation only grows, by exactly the assistant's call and the tool's result, when a
/// result is recorded.
pub proof fn lemma_convo_grows(a: Agent, e: Ev)
    ensures
        agent_step(a, e).0.convo == a.convo || (agent_step(a, e).1 is ToolResult
            && agent_step(a, e).0.convo.len() == a.convo.len() + 2 && agent_step(a, e).0.convo.take(
            a.convo.len() as int,
        ) == a.convo),
{
    let r = agent_step(a, e);
    if r.0.convo != a.convo {
        assert(r.0.convo.take(a.convo.len() as int) =~= a.convo);
    }
}

/// The mail intent guard, received side: when the model calls `email_sent` but the user's
/// request speaks of received mail ("ricevut", "in arrivo" or "arrivata"), the tool the agent
/// looks up, and then runs or asks consent for, is `email_recent`.
pub proof fn lemma_received_mail_runs_email_recent(
    a: Agent,
    raw: Seq<char>,
    args: serde_json::Value,
    action: Seq<char>,
)
    requires
        a.phase == Ph::AwaitOutput,
        tool_call(raw) matches Some(c) && c.name == "email_sent"@,
        contains(a.user_request, "ricevut"@) || contains(a.user_request, "in arrivo"@) || contains(
            a.user_request,
            "arrivata"@,
        ),
    ensures
        agent_step(a, Ev::Output(raw)).1 == (Act::CheckTool { name: "email_recent"@, args: tool_call(raw)->0.args }),
        agent_step(agent_step(a, Ev::Output(raw)).0, Ev::ToolInfo(args, None, false)).1 == (Act::RunTool {
            name: "email_recent"@,
            args,
            args_text: json_text(args),
        }),
        agent_step(agent_step(a, Ev::Output(raw)).0, Ev::ToolInfo(args, Some(action), false)).1 == (Act::AskConsent {
            tool: "email_recent"@,
            action,
        }),
{
    reveal_strlit("email_sent");
    reveal_strlit("email_recent");
    assert("email_sent"@.len() != "email_recent"@.len());
}

/// The mail intent guard, sent side: when the model calls `email_recent` but the user's request
/// speaks of sent mail ("inviat", "spedit" or "mandat"), the tool the agent looks up, and then
/// runs or asks consent for, is `email_sent`.
pub proof fn lemma_sent_mail_runs_email_sent(
    a: Agent,
    raw: Seq<char>,
    args: serde_json::Value,
    action: Seq<char>,
)
    requires
        a.phase == Ph::AwaitOutput,
        tool_call(raw) matches Some(c) && c.name == "email_recent"@,
        contains(a.user_request, "inviat"@) || contains(a.user_request, "spedit"@) || contains(
            a.user_request,
            "mandat"@,
        ),
    ensures
        agent_step(a, Ev::Output(raw)).1 == (Act::CheckTool { name: "email_sent"@, args: tool_call(raw)->0.args }),
        agent_step(agent_step(a, Ev::Output(raw)).0, Ev::ToolInfo(args, None, false)).1 == (Act::RunTool {
            name: "email_sent"@,
            args,
            args_text: json_text(args),
        }),
        agent_step(agent_step(a, Ev::Output(raw)).0, Ev::ToolInfo(args, Some(action), false)).1 == (Act::AskConsent {
            tool: "email_sent"@,
            action,
        }),
{
}

/// Any other tool the model calls is looked up under its own name.
pub proof fn lemma_other_tools_keep_their_name(a: Agent, raw: Seq<char>)
    requires
        a.phase == Ph::AwaitOutput,
        tool_call(raw) matches Some(c) && c.name != "email_sent"@ && c.name != "email_recent"@,
    ensures
        agent_step(a, Ev::Output(raw)).1 == (Act::CheckTool { name: tool_call(raw)->0.name, args: tool_call(raw)->0.args }),
{
}

} // verus!
