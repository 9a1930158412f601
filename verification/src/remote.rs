//! Tool calls written in the text of a cloud model's reply, for when the server leaves them in
//! the content instead of the structured `tool_calls` field: the `<tool_call>{…}` form, Mistral's
//! textual `[TOOL_CALLS]` forms, and a bare JSON object.
use vstd::prelude::*;
use crate::chars::{
    contains, contains_exec, find, find_exec, lemma_find, matches_at, slice, starts_with,
    starts_with_exec, to_chars, from_chars, trim, trim_exec, trim_start, trim_start_exec,
    append_chars, append_str,
};
use crate::scan::{bal_close, bal_close_exec, lemma_bal_close_range, json_object_block, json_object_block_exec};
use crate::json::{
    json_parse, json_field, json_string, json_items, json_without, json_text, parse_json,
    json_get, json_as_string, json_array_items, json_object_without, json_to_text,
};
use crate::lower::{is_alnum, char_is_alphanumeric};

verus! {

/// A tool call in the OpenAI wire format: `{"id": …, "type": "function", "function":
/// {"name": …, "arguments": "<JSON text>"}}`.
#[derive(Clone, Debug)]
pub struct RemoteCall {
    pub id: String,
    pub name: String,
    /// The arguments as JSON text.
    pub arguments: String,
}

/// The mathematical form of a [`RemoteCall`]: id, name, arguments.
pub struct RCall {
    pub id: Seq<char>,
    pub name: Seq<char>,
    pub arguments: Seq<char>,
}

pub open spec fn rcall_view(c: RemoteCall) -> RCall {
    RCall { id: c.id@, name: c.name@, arguments: c.arguments@ }
}

/// The decimal digits of `n`.
pub open spec fn decimal(n: nat) -> Seq<char>
    decreases n,
{
    if n < 10 {
        seq![((n + 48) as u32) as char]
    } else {
        decimal(n / 10) + seq![(((n % 10) + 48) as u32) as char]
    }
}

/// The decimal digits of `n`, computed.
pub fn decimal_exec(n: usize) -> (r: Vec<char>)
    ensures
        r@ == decimal(n as nat),
    decreases n,
{
    if n < 10 {
        let c = ((n as u8) + 48) as char;
        let r = vec![c];
        assert(r@ =~= decimal(n as nat));
        r
    } else {
        let mut r = decimal_exec(n / 10);
        let c = (((n % 10) as u8) + 48) as char;
        r.push(c);
        r
    }
}

/// The id of the `idx`-th call: `call_IDX`.
pub open spec fn call_id(idx: nat) -> Seq<char> {
    "call_"@ + decimal(idx)
}

/// The call a JSON object describes, with index `idx`: its string `name`; as arguments its
/// `arguments` field, or else every other field (the model sometimes puts them next to the
/// name), kept as text when it is a JSON string and serialised otherwise.
pub open spec fn call_of_object(obj: Seq<char>, idx: nat) -> Option<RCall> {
    match json_parse(obj) {
        None => None,
        Some(v) => match json_field(v, "name"@) {
            None => None,
            Some(n) => match json_string(n) {
                None => None,
                Some(name) => {
                    let args = match json_field(v, "arguments"@) {
                        Some(a) => a,
                        None => json_without(v, "name"@),
                    };
                    Some(
                        RCall {
                            id: call_id(idx),
                            name,
                            arguments: match json_string(args) {
                                Some(s) => s,
                                None => json_text(args),
                            },
                        },
                    )
                },
            },
        },
    }
}

fn call_id_exec(idx: usize) -> (r: String)
    ensures
        r@ == call_id(idx as nat),
{
    let mut v = to_chars("call_");
    append_chars(&mut v, &decimal_exec(idx));
    from_chars(v.as_slice())
}

/// The call a JSON object text describes (see [`call_of_object`]).
pub fn tc_from_obj(obj: &str, idx: usize) -> (r: Option<RemoteCall>)
    ensures
        r matches Some(c) ==> call_of_object(obj@, idx as nat) == Some(rcall_view(c)),
        r is None ==> call_of_object(obj@, idx as nat) is None,
{
    let v = match parse_json(obj) {
        None => return None,
        Some(v) => v,
    };
    let n = match json_get(&v, "name") {
        None => return None,
        Some(n) => n,
    };
    let name = match json_as_string(&n) {
        None => return None,
        Some(s) => s,
    };
    let args = match json_get(&v, "arguments") {
        Some(a) => a,
        None => json_object_without(&v, "name"),
    };
    let arguments = match json_as_string(&args) {
        Some(s) => s,
        None => json_to_text(&args),
    };
    Some(RemoteCall { id: call_id_exec(idx), name, arguments })
}

/// The calls written as `<tool_call>{…}` in `cur`, numbered from `n`; scanning stops at a tag
/// with no balanced object after it.
pub open spec fn tagged_calls(cur: Seq<char>, n: nat) -> Seq<RCall>
    decreases cur.len(),
{
    match find(cur, "<tool_call>"@) {
        None => seq![],
        Some(p) => {
            if 0 <= p && p + "<tool_call>"@.len() <= cur.len() && "<tool_call>"@.len() > 0 {
                let after = cur.skip(p + "<tool_call>"@.len());
                match json_object_block(after) {
                    None => seq![],
                    Some(obj) => match call_of_object(obj, n) {
                        Some(c) => seq![c] + tagged_calls(after, n + 1),
                        None => tagged_calls(after, n),
                    },
                }
            } else {
                seq![]
            }
        },
    }
}

/// The first balanced `[…]` array of `s` (from its first `[`).
pub open spec fn array_block_anywhere(s: Seq<char>) -> Option<Seq<char>> {
    match find(s, seq!['[']) {
        None => None,
        Some(st) => match bal_close(s, st, 0, false, false, '[', ']') {
            None => None,
            Some(e) => Some(s.subrange(st, e + 1)),
        },
    }
}

/// The first balanced `[…]` JSON array in `s`; brackets inside JSON strings do not count.
pub fn first_json_array(s: &str) -> (r: Option<String>)
    ensures
        r matches Some(a) ==> array_block_anywhere(s@) == Some(a@),
        r is None ==> array_block_anywhere(s@) is None,
{
    let v = to_chars(s);
    let open = vec!['['];
    assert(open@ =~= seq!['[']);
    match find_exec(&v, &open) {
        None => None,
        Some(st) => {
            proof {
                lemma_find(v@, open@);
                assert(v@.subrange(st as int, st + 1)[0] == v@[st as int]);
            }
            match bal_close_exec(&v, st, '[', ']') {
                None => None,
                Some(e) => {
                    proof {
                        lemma_bal_close_range(v@, st as int, 0, false, false, '[', ']');
                    }
                    assert(e < v.len());
                    Some(from_chars(slice(&v, st, e + 1).as_slice()))
                },
            }
        },
    }
}

/// The first balanced `{…}` JSON object in `s` (the same scanner as the local parser's).
pub fn first_json_object(s: &str) -> (r: Option<String>)
    ensures
        r matches Some(o) ==> json_object_block(s@) == Some(o@),
        r is None ==> json_object_block(s@) is None,
{
    crate::scan::first_json_object(s)
}

/// The calls of a JSON array of call objects, each read as its serialised text, numbered from
/// `n` in order.
pub open spec fn array_calls(items: Seq<serde_json::Value>, n: nat) -> Seq<RCall>
    decreases items.len(),
{
    if items.len() == 0 {
        seq![]
    } else {
        match call_of_object(json_text(items[0]), n) {
            Some(c) => seq![c] + array_calls(items.drop_first(), n + 1),
            None => array_calls(items.drop_first(), n),
        }
    }
}

pub open spec fn name_char(c: char) -> bool {
    is_alnum(c) || c == '_'
}

/// `name{json}` calls, possibly repeated (`weather{…}datetime{…}`), numbered from `n`: each
/// name non-empty and made of alphanumerics and `_`, its object kept as the arguments text.
pub open spec fn named_calls(rest: Seq<char>, n: nat) -> Seq<RCall>
    decreases rest.len(),
{
    match find(rest, seq!['{']) {
        None => seq![],
        Some(b) => {
            let name = trim(rest.take(b));
            if name.len() == 0 || !(forall|i: int| 0 <= i < name.len() ==> name_char(#[trigger] name[i])) {
                seq![]
            } else {
                match json_object_block(rest.skip(b)) {
                    None => seq![],
                    Some(obj) => if 0 <= b && b + obj.len() <= rest.len() && obj.len() > 0 {
                        proof {
                            crate::chars::lemma_trim_start_len(rest.skip(b + obj.len()));
                        }
                        seq![RCall { id: call_id(n), name, arguments: obj }] + named_calls(
                            trim_start(rest.skip(b + obj.len())),
                            n + 1,
                        )
                    } else {
                        seq![]
                    },
                }
            }
        },
    }
}

/// Mistral's textual calls after `[TOOL_CALLS]`: an array of call objects, or `name{json}`
/// forms.
pub open spec fn mistral_text_calls(raw: Seq<char>) -> Seq<RCall> {
    match find(raw, "[TOOL_CALLS]"@) {
        None => seq![],
        Some(p) => {
            let rest = trim_start(raw.skip(p + "[TOOL_CALLS]"@.len()));
            if starts_with(rest, seq!['[']) {
                match array_block_anywhere(rest) {
                    None => seq![],
                    Some(arr) => match json_parse(arr) {
                        None => seq![],
                        Some(v) => match json_items(v) {
                            None => seq![],
                            Some(items) => array_calls(items, 0),
                        },
                    },
                }
            } else {
                named_calls(rest, 0)
            }
        },
    }
}

/// A whole reply that is one bare JSON call object.
pub open spec fn bare_call(raw: Seq<char>) -> Seq<RCall> {
    let t = trim(raw);
    if starts_with(t, seq!['{']) && contains(t, "\"name\""@) && contains(t, "\"arguments\""@) {
        match json_object_block(t) {
            None => seq![],
            Some(obj) => match call_of_object(obj, 0) {
                Some(c) => seq![c],
                None => seq![],
            },
        }
    } else {
        seq![]
    }
}

/// The tool calls written in a reply: the `<tool_call>` forms; failing those, Mistral's
/// textual forms; failing those, a bare JSON object.
pub open spec fn text_calls(raw: Seq<char>) -> Seq<RCall> {
    let a = tagged_calls(raw, 0);
    if a.len() > 0 {
        a
    } else {
        let b = mistral_text_calls(raw);
        if b.len() > 0 {
            b
        } else {
            bare_call(raw)
        }
    }
}

/// Whether `out` reads as `s`.
pub open spec fn calls_are(out: Seq<RemoteCall>, s: Seq<RCall>) -> bool {
    out.len() == s.len() && forall|k: int| 0 <= k < out.len() ==> #[trigger] rcall_view(out[k]) == s[k]
}

proof fn lemma_calls_push(out: Seq<RemoteCall>, done: Seq<RCall>, c: RemoteCall, rest: Seq<RCall>)
    requires
        calls_are(out, done),
    ensures
        calls_are(out.push(c), done.push(rcall_view(c))),
        done + (seq![rcall_view(c)] + rest) == done.push(rcall_view(c)) + rest,
{
    assert(done + (seq![rcall_view(c)] + rest) =~= done.push(rcall_view(c)) + rest);
    assert forall|k: int| 0 <= k < out.len() + 1 implies #[trigger] rcall_view(out.push(c)[k])
        == done.push(rcall_view(c))[k] by {
        if k < out.len() {
            assert(out.push(c)[k] == out[k]);
        }
    }
}

fn tagged_calls_exec(raw: &Vec<char>) -> (r: Vec<RemoteCall>)
    ensures
        calls_are(r@, tagged_calls(raw@, 0)),
{
    let tag = to_chars("<tool_call>");
    let mut out: Vec<RemoteCall> = Vec::new();
    let ghost done: Seq<RCall> = seq![];
    let mut cur = slice(raw, 0, raw.len());
    assert(cur@ =~= raw@);
    loop
        invariant
            tag@ == "<tool_call>"@,
            calls_are(out@, done),
            done + tagged_calls(cur@, out.len() as nat) == tagged_calls(raw@, 0),
        decreases cur.len(),
    {
        let p = match find_exec(&cur, &tag) {
            None => {
                assert(done + Seq::<RCall>::empty() =~= done);
                return out;
            },
            Some(p) => p,
        };
        proof {
            lemma_find(cur@, tag@);
            assert(matches_at(cur@, tag@, p as int));
            reveal_strlit("<tool_call>");
        }
        assert(p + tag.len() <= cur.len());
        let after = slice(&cur, p + tag.len(), cur.len());
        assert(after@ =~= cur@.skip(p + "<tool_call>"@.len()));
        let obj = match json_object_block_exec(&after) {
            None => {
                assert(done + Seq::<RCall>::empty() =~= done);
                return out;
            },
            Some(o) => o,
        };
        let text = from_chars(obj.as_slice());
        match tc_from_obj(text.as_str(), out.len()) {
            Some(tc) => {
                proof {
                    lemma_calls_push(out@, done, tc, tagged_calls(after@, (out.len() + 1) as nat));
                    done = done.push(rcall_view(tc));
                }
                out.push(tc);
            },
            None => {},
        }
        cur = after;
    }
}

fn all_name_chars(v: &Vec<char>) -> (r: bool)
    ensures
        r == (forall|i: int| 0 <= i < v.len() ==> name_char(#[trigger] v@[i])),
{
    let mut i: usize = 0;
    while i < v.len()
        invariant
            i <= v.len(),
            forall|j: int| 0 <= j < i ==> name_char(#[trigger] v@[j]),
        decreases v.len() - i,
    {
        if !(char_is_alphanumeric(v[i]) || v[i] == '_') {
            return false;
        }
        i = i + 1;
    }
    true
}

fn named_calls_exec(rest0: &Vec<char>) -> (r: Vec<RemoteCall>)
    ensures
        calls_are(r@, named_calls(rest0@, 0)),
{
    let mut out: Vec<RemoteCall> = Vec::new();
    let ghost done: Seq<RCall> = seq![];
    let mut rest = slice(rest0, 0, rest0.len());
    assert(rest@ =~= rest0@);
    let brace = vec!['{'];
    assert(brace@ =~= seq!['{']);
    loop
        invariant
            brace@ == seq!['{'],
            calls_are(out@, done),
            done + named_calls(rest@, out.len() as nat) == named_calls(rest0@, 0),
        decreases rest.len(),
    {
        let b = match find_exec(&rest, &brace) {
            None => {
                assert(done + Seq::<RCall>::empty() =~= done);
                return out;
            },
            Some(b) => b,
        };
        proof {
            lemma_find(rest@, brace@);
            assert(matches_at(rest@, brace@, b as int));
        }
        assert(b < rest.len());
        let head = slice(&rest, 0, b);
        assert(head@ =~= rest@.take(b as int));
        let name = trim_exec(&head);
        if name.len() == 0 || !all_name_chars(&name) {
            assert(done + Seq::<RCall>::empty() =~= done);
            return out;
        }
        let tail = slice(&rest, b, rest.len());
        assert(tail@ =~= rest@.skip(b as int));
        let obj = match json_object_block_exec(&tail) {
            None => {
                assert(done + Seq::<RCall>::empty() =~= done);
                return out;
            },
            Some(o) => o,
        };
        proof {
            crate::chars::lemma_find(tail@, seq!['{']);
            let st = find(tail@, seq!['{'])->0;
            lemma_bal_close_range(tail@, st, 0, false, false, '{', '}');
            assert(tail@.subrange(0, 1) =~= seq!['{']);
            crate::chars::lemma_find_is_first(tail@, seq!['{'], 0);
        }
        assert(obj.len() > 0);
        assert(b + obj.len() <= rest.len());
        let tc = RemoteCall {
            id: call_id_exec(out.len()),
            name: from_chars(name.as_slice()),
            arguments: from_chars(obj.as_slice()),
        };
        let after = slice(&rest, b + obj.len(), rest.len());
        assert(after@ =~= rest@.skip(b + obj@.len()));
        let next = trim_start_exec(&after);
        proof {
            crate::chars::lemma_trim_start_len(after@);
        }
        assert(next.len() < rest.len());
        proof {
            lemma_calls_push(out@, done, tc, named_calls(next@, (out.len() + 1) as nat));
            done = done.push(rcall_view(tc));
        }
        out.push(tc);
        rest = next;
    }
}

fn array_calls_exec(items: &Vec<serde_json::Value>) -> (r: Vec<RemoteCall>)
    ensures
        calls_are(r@, array_calls(items@, 0)),
{
    let mut out: Vec<RemoteCall> = Vec::new();
    let ghost done: Seq<RCall> = seq![];
    let mut k: usize = 0;
    assert(items@.skip(0) =~= items@);
    while k < items.len()
        invariant
            k <= items.len(),
            calls_are(out@, done),
            done + array_calls(items@.skip(k as int), out.len() as nat) == array_calls(items@, 0),
        decreases items.len() - k,
    {
        assert(items@.skip(k as int)[0] == items@[k as int]);
        assert(items@.skip(k as int).drop_first() =~= items@.skip(k + 1));
        let text = json_to_text(&items[k]);
        match tc_from_obj(text.as_str(), out.len()) {
            Some(tc) => {
                proof {
                    lemma_calls_push(out@, done, tc, array_calls(items@.skip(k + 1), (out.len() + 1) as nat));
                    done = done.push(rcall_view(tc));
                }
                out.push(tc);
            },
            None => {},
        }
        k = k + 1;
    }
    assert(items@.skip(k as int) =~= Seq::<serde_json::Value>::empty());
    assert(done + Seq::<RCall>::empty() =~= done);
    out
}

/// Mistral's textual calls (see [`mistral_text_calls`]).
pub fn parse_mistral_text_calls(raw: &str) -> (r: Vec<RemoteCall>)
    ensures
        calls_are(r@, mistral_text_calls(raw@)),
{
    let v = to_chars(raw);
    let m = to_chars("[TOOL_CALLS]");
    let p = match find_exec(&v, &m) {
        None => return Vec::new(),
        Some(p) => p,
    };
    proof {
        lemma_find(v@, m@);
        assert(matches_at(v@, m@, p as int));
    }
    assert(p + m.len() <= v.len());
    let after = slice(&v, p + m.len(), v.len());
    assert(after@ =~= raw@.skip(p + "[TOOL_CALLS]"@.len()));
    let rest = trim_start_exec(&after);
    let open = vec!['['];
    assert(open@ =~= seq!['[']);
    if starts_with_exec(&rest, &open) {
        let rs = from_chars(rest.as_slice());
        let arr = match first_json_array(rs.as_str()) {
            None => return Vec::new(),
            Some(a) => a,
        };
        let val = match parse_json(arr.as_str()) {
            None => return Vec::new(),
            Some(x) => x,
        };
        match json_array_items(&val) {
            None => Vec::new(),
            Some(items) => array_calls_exec(&items),
        }
    } else {
        named_calls_exec(&rest)
    }
}

/// Pulls the tool calls out of the text of a reply (see [`text_calls`]), numbered `call_0`,
/// `call_1`, … in order.
pub fn parse_tool_calls_from_text(raw: &str) -> (r: Vec<RemoteCall>)
    ensures
        calls_are(r@, text_calls(raw@)),
{
    let v = to_chars(raw);
    let a = tagged_calls_exec(&v);
    if a.len() > 0 {
        return a;
    }
    let b = parse_mistral_text_calls(raw);
    if b.len() > 0 {
        return b;
    }
    let t = trim_exec(&v);
    let open = vec!['{'];
    assert(open@ =~= seq!['{']);
    if starts_with_exec(&t, &open) && contains_exec(&t, &to_chars("\"name\"")) && contains_exec(
        &t,
        &to_chars("\"arguments\""),
    ) {
        match json_object_block_exec(&t) {
            None => Vec::new(),
            Some(obj) => {
                let text = from_chars(obj.as_slice());
                match tc_from_obj(text.as_str(), 0) {
                    Some(tc) => {
                        let mut out: Vec<RemoteCall> = Vec::new();
                        out.push(tc);
                        assert(out@ =~= seq![tc]);
                        out
                    },
                    None => Vec::new(),
                }
            },
        }
    } else {
        Vec::new()
    }
}

} // verus!
