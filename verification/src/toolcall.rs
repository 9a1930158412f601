//! Tool calls in the output of the local model, in each dialect it speaks:
//! Qwen `<tool_call>{"name":…,"arguments":{…}}`, Mistral `[TOOL_CALLS][{…}, …]` and Gemma
//! `<|tool_call>call:NAME{…}`; and the memory extractor's JSON list of facts.
use vstd::prelude::*;
use crate::chars::{
    find, find_exec, lemma_find, rfind, rfind_exec, slice, starts_with, starts_with_exec,
    to_chars, from_chars, trim, trim_exec, trim_start, trim_start_exec, utf8_len,
    utf8_len_capped,
};
use crate::scan::{json_object_block, json_object_block_exec, json_array_block, json_array_block_exec};
use crate::gemma::{gemma_body, gemma_body_exec, gemma_args, parse_gemma_args, GemmaArg, GemmaVal, arg_view};
use crate::json::{
    json_parse, json_field, json_string, json_items, empty_json_object, parse_json, json_get,
    json_as_string, json_array_items, empty_object, json_string_list, parse_string_list,
};

verus! {

/// The arguments of a tool call: a JSON value (Qwen, Mistral) or Gemma's typed pairs.
pub enum ToolArgs {
    Json(serde_json::Value),
    Gemma(Vec<GemmaArg>),
}

/// A tool call: the tool's name and its arguments.
pub struct ToolCall {
    pub name: String,
    pub args: ToolArgs,
}

/// The mathematical form of [`ToolArgs`].
pub enum CallArgs {
    Json(serde_json::Value),
    Gemma(Seq<(Seq<char>, GemmaVal)>),
}

/// The mathematical form of [`ToolCall`].
pub struct Call {
    pub name: Seq<char>,
    pub args: CallArgs,
}

/// Whether the list of Gemma arguments reads as `s`.
pub open spec fn args_are(v: Seq<GemmaArg>, s: Seq<(Seq<char>, GemmaVal)>) -> bool {
    v.len() == s.len() && forall|k: int| 0 <= k < v.len() ==> #[trigger] arg_view(v[k]) == s[k]
}

/// Whether the tool call reads as `c`.
pub open spec fn call_is(t: ToolCall, c: Call) -> bool {
    t.name@ == c.name && match (t.args, c.args) {
        (ToolArgs::Json(v), CallArgs::Json(w)) => v == w,
        (ToolArgs::Gemma(v), CallArgs::Gemma(s)) => args_are(v@, s),
        _ => false,
    }
}

/// Whether an optional tool call reads as `c`.
pub open spec fn opt_call_is(t: Option<ToolCall>, c: Option<Call>) -> bool {
    match (t, c) {
        (None, None) => true,
        (Some(t), Some(c)) => call_is(t, c),
        _ => false,
    }
}

/// The tool call a JSON object describes: its string `name`, and its `arguments` (`{}` when
/// absent).
pub open spec fn call_of_json(v: serde_json::Value) -> Option<Call> {
    match json_field(v, "name"@) {
        None => None,
        Some(n) => match json_string(n) {
            None => None,
            Some(name) => Some(
                Call {
                    name,
                    args: CallArgs::Json(
                        match json_field(v, "arguments"@) {
                            Some(a) => a,
                            None => empty_json_object(),
                        },
                    ),
                },
            ),
        },
    }
}

/// Qwen / ChatML: `<tool_call>` followed by a JSON object.
pub open spec fn qwen_call(raw: Seq<char>) -> Option<Call> {
    match find(raw, "<tool_call>"@) {
        None => None,
        Some(p) => match json_object_block(raw.skip(p + "<tool_call>"@.len())) {
            None => None,
            Some(obj) => match json_parse(obj) {
                None => None,
                Some(v) => call_of_json(v),
            },
        },
    }
}

/// Mistral: `[TOOL_CALLS]`, optional whitespace, then a JSON array whose first element is read.
pub open spec fn mistral_call(raw: Seq<char>) -> Option<Call> {
    match find(raw, "[TOOL_CALLS]"@) {
        None => None,
        Some(i) => match json_array_block(trim_start(raw.skip(i + "[TOOL_CALLS]"@.len()))) {
            None => None,
            Some(arr) => match json_parse(arr) {
                None => None,
                Some(v) => match json_items(v) {
                    None => None,
                    Some(items) => if items.len() == 0 {
                        None
                    } else {
                        call_of_json(items[0])
                    },
                },
            },
        },
    }
}

/// What follows `<|tool_call>`: with `call:` dropped when, after leading whitespace, it is there.
pub open spec fn gemma_after_call(after: Seq<char>) -> Seq<char> {
    if starts_with(trim_start(after), "call:"@) {
        trim_start(after).skip("call:"@.len() as int)
    } else {
        after
    }
}

/// Gemma: `<|tool_call>call:NAME{…}` with a non-blank name.
pub open spec fn gemma_call(raw: Seq<char>) -> Option<Call> {
    match find(raw, "<|tool_call>"@) {
        None => None,
        Some(pos) => {
            let a = gemma_after_call(raw.skip(pos + "<|tool_call>"@.len()));
            match find(a, seq!['{']) {
                None => None,
                Some(b) => if trim(a.take(b)).len() == 0 {
                    None
                } else {
                    match gemma_body(a.skip(b)) {
                        None => None,
                        Some(body) => Some(
                            Call { name: trim(a.take(b)), args: CallArgs::Gemma(gemma_args(body)) },
                        ),
                    }
                },
            }
        },
    }
}

/// The tool call in a model output: Qwen's form first (tool forcing writes it for every
/// dialect), then Mistral's, then Gemma's.
pub open spec fn tool_call(raw: Seq<char>) -> Option<Call> {
    match qwen_call(raw) {
        Some(c) => Some(c),
        None => match mistral_call(raw) {
            Some(c) => Some(c),
            None => gemma_call(raw),
        },
    }
}

/// The tool call a parsed JSON object describes.
pub fn call_of_json_exec(v: &serde_json::Value) -> (r: Option<ToolCall>)
    ensures
        opt_call_is(r, call_of_json(*v)),
{
    let n = match json_get(v, "name") {
        None => return None,
        Some(n) => n,
    };
    let name = match json_as_string(&n) {
        None => return None,
        Some(s) => s,
    };
    let args = match json_get(v, "arguments") {
        Some(a) => a,
        None => empty_object(),
    };
    Some(ToolCall { name, args: ToolArgs::Json(args) })
}

/// Qwen's `<tool_call>{"name": …, "arguments": {…}}`.
pub fn extract_tool_call_qwen(raw: &str) -> (r: Option<ToolCall>)
    ensures
        opt_call_is(r, qwen_call(raw@)),
{
    let v = to_chars(raw);
    let m = to_chars("<tool_call>");
    let p = match find_exec(&v, &m) {
        None => return None,
        Some(p) => p,
    };
    proof {
        lemma_find(v@, m@);
        assert(crate::chars::matches_at(v@, m@, p as int));
    }
    let rest = slice(&v, p + m.len(), v.len());
    assert(rest@ =~= raw@.skip(p + "<tool_call>"@.len()));
    let obj = match json_object_block_exec(&rest) {
        None => return None,
        Some(o) => o,
    };
    let text = from_chars(obj.as_slice());
    match parse_json(text.as_str()) {
        None => None,
        Some(val) => call_of_json_exec(&val),
    }
}

/// Mistral's `[TOOL_CALLS][{"name": …, "arguments": {…}}, …]`: the first call of the array.
pub fn extract_tool_call_mistral(raw: &str) -> (r: Option<ToolCall>)
    ensures
        opt_call_is(r, mistral_call(raw@)),
{
    let v = to_chars(raw);
    let m = to_chars("[TOOL_CALLS]");
    let i = match find_exec(&v, &m) {
        None => return None,
        Some(i) => i,
    };
    proof {
        lemma_find(v@, m@);
        assert(crate::chars::matches_at(v@, m@, i as int));
    }
    let rest = slice(&v, i + m.len(), v.len());
    assert(rest@ =~= raw@.skip(i + "[TOOL_CALLS]"@.len()));
    let after = trim_start_exec(&rest);
    let arr = match json_array_block_exec(&after) {
        None => return None,
        Some(a) => a,
    };
    let text = from_chars(arr.as_slice());
    let val = match parse_json(text.as_str()) {
        None => return None,
        Some(x) => x,
    };
    let items = match json_array_items(&val) {
        None => return None,
        Some(items) => items,
    };
    if items.len() == 0 {
        return None;
    }
    call_of_json_exec(&items[0])
}

/// Gemma's native `<|tool_call>call:NAME{key:<|"|>val<|"|>,n:3}`.
pub fn extract_tool_call_gemma(raw: &str) -> (r: Option<ToolCall>)
    ensures
        opt_call_is(r, gemma_call(raw@)),
{
    let v = to_chars(raw);
    let m = to_chars("<|tool_call>");
    let pos = match find_exec(&v, &m) {
        None => return None,
        Some(p) => p,
    };
    proof {
        lemma_find(v@, m@);
        assert(crate::chars::matches_at(v@, m@, pos as int));
    }
    let after = slice(&v, pos + m.len(), v.len());
    assert(after@ =~= raw@.skip(pos + "<|tool_call>"@.len()));
    let ts = trim_start_exec(&after);
    let call = to_chars("call:");
    let a = if starts_with_exec(&ts, &call) {
        slice(&ts, call.len(), ts.len())
    } else {
        slice(&after, 0, after.len())
    };
    assert(a@ =~= gemma_after_call(after@));
    let brace = vec!['{'];
    assert(brace@ =~= seq!['{']);
    let b = match find_exec(&a, &brace) {
        None => return None,
        Some(b) => b,
    };
    proof {
        lemma_find(a@, brace@);
    }
    let head = slice(&a, 0, b);
    assert(head@ =~= a@.take(b as int));
    let name = trim_exec(&head);
    if name.len() == 0 {
        return None;
    }
    let tail = slice(&a, b, a.len());
    assert(tail@ =~= a@.skip(b as int));
    let body = match gemma_body_exec(&tail) {
        None => return None,
        Some(body) => body,
    };
    let body_text = from_chars(body.as_slice());
    let args = parse_gemma_args(body_text.as_str());
    Some(ToolCall { name: from_chars(name.as_slice()), args: ToolArgs::Gemma(args) })
}

/// The tool call the model emitted, if any (see [`tool_call`]).
pub fn extract_tool_call(raw: &str) -> (r: Option<ToolCall>)
    ensures
        opt_call_is(r, tool_call(raw@)),
{
    match extract_tool_call_qwen(raw) {
        Some(c) => Some(c),
        None => match extract_tool_call_mistral(raw) {
            Some(c) => Some(c),
            None => extract_tool_call_gemma(raw),
        },
    }
}

/// The facts kept from the extractor's list: each trimmed, and only those longer than two bytes.
pub open spec fn kept_facts(l: Seq<Seq<char>>) -> Seq<Seq<char>>
    decreases l.len(),
{
    if l.len() == 0 {
        seq![]
    } else {
        let rest = kept_facts(l.drop_last());
        if utf8_len(trim(l.last())) > 2 {
            rest.push(trim(l.last()))
        } else {
            rest
        }
    }
}

/// The facts in the memory extractor's output: the JSON list of strings between the first `[`
/// and the last `]`, each trimmed, keeping those longer than two bytes; nothing when there is
/// no such list.
pub open spec fn facts_of(out: Seq<char>) -> Seq<Seq<char>> {
    match (find(out, seq!['[']), rfind(out, seq![']'])) {
        (Some(a), Some(b)) => if b > a {
            match json_string_list(out.subrange(a, b + 1)) {
                Some(l) => kept_facts(l),
                None => seq![],
            }
        } else {
            seq![]
        },
        _ => seq![],
    }
}

/// Lenient parse of the memory extractor's output (see [`facts_of`]).
pub fn parse_facts(out: &str) -> (r: Vec<String>)
    ensures
        r.len() == facts_of(out@).len(),
        forall|k: int| 0 <= k < r.len() ==> #[trigger] r@[k]@ == facts_of(out@)[k],
{
    let v = to_chars(out);
    let open = vec!['['];
    let close = vec![']'];
    assert(open@ =~= seq!['[']);
    assert(close@ =~= seq![']']);
    let a = match find_exec(&v, &open) {
        None => return Vec::new(),
        Some(a) => a,
    };
    let b = match rfind_exec(&v, &close) {
        None => return Vec::new(),
        Some(b) => b,
    };
    if b <= a {
        return Vec::new();
    }
    proof {
        crate::chars::lemma_rfind(v@, close@);
        assert(crate::chars::matches_at(v@, close@, b as int));
    }
    assert(b < v.len());
    let inner = slice(&v, a, b + 1);
    let text = from_chars(inner.as_slice());
    let l = match parse_string_list(text.as_str()) {
        None => return Vec::new(),
        Some(l) => l,
    };
    let ghost ls = json_string_list(text@)->0;
    let mut r: Vec<String> = Vec::new();
    let mut k: usize = 0;
    while k < l.len()
        invariant
            k <= l.len(),
            ls.len() == l.len(),
            forall|j: int| 0 <= j < l.len() ==> #[trigger] l@[j]@ == ls[j],
            r.len() == kept_facts(ls.take(k as int)).len(),
            forall|j: int| 0 <= j < r.len() ==> #[trigger] r@[j]@ == kept_facts(ls.take(k as int))[j],
        decreases l.len() - k,
    {
        proof {
            assert(ls.take(k + 1).drop_last() =~= ls.take(k as int));
            assert(ls.take(k + 1).last() == l@[k as int]@);
        }
        let c = to_chars(l[k].as_str());
        let t = trim_exec(&c);
        if utf8_len_capped(&t, 3) > 2 {
            let ghost r0 = r@;
            r.push(from_chars(t.as_slice()));
            proof {
                assert forall|j: int| 0 <= j < r.len() implies #[trigger] r@[j]@ == kept_facts(
                    ls.take(k + 1),
                )[j] by {
                    if j < r.len() - 1 {
                        assert(r@[j] == r0[j]);
                    }
                }
            }
        }
        k = k + 1;
    }
    assert(ls.take(l.len() as int) =~= ls);
    r
}

} // verus!
