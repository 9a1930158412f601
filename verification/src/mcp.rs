//! The Model Context Protocol host's own rules: what a `tools/list` reply describes, the text
//! of a `tools/call` reply, which reply answers a request, and the servers the configuration
//! names.  Starting the servers and talking to them over their pipes is the application's part.
use vstd::prelude::*;
use crate::chars::{join, join_exec, append_str, to_chars, from_chars};
use crate::json::{
    json_field, json_string, json_items, json_text, json_with, json_str_value, json_parse,
    json_int, empty_json_object, json_get, json_as_string, json_array_items, json_to_text,
    json_insert, json_from_text, empty_object, json_as_i64, null_value, string_field, get_string,
};

verus! {

/// A tool that an MCP server offers.
pub struct McpToolSpec {
    pub name: String,
    pub description: String,
    pub schema: serde_json::Value,
}

impl View for McpToolSpec {
    type V = (Seq<char>, Seq<char>, serde_json::Value);

    open spec fn view(&self) -> Self::V {
        (self.name@, self.description@, self.schema)
    }
}

/// The schema a tool gets when its server gives none: `{"type": "object"}`.
pub open spec fn default_schema() -> serde_json::Value {
    json_with(empty_json_object(), "type"@, json_str_value("object"@))
}

/// The tool an entry of `tools/list` describes: it needs a string `name`; a missing
/// `description` is empty and a missing `inputSchema` is [`default_schema`].
pub open spec fn tool_of(t: serde_json::Value) -> Option<(Seq<char>, Seq<char>, serde_json::Value)> {
    match string_field(t, "name"@) {
        Some(name) => Some(
            (
                name,
                match string_field(t, "description"@) {
                    Some(d) => d,
                    None => seq![],
                },
                match json_field(t, "inputSchema"@) {
                    Some(s) => s,
                    None => default_schema(),
                },
            ),
        ),
        None => None,
    }
}

/// The tools of a list of entries, in order, skipping the entries without a name.
pub open spec fn tools_of(items: Seq<serde_json::Value>) -> Seq<
    (Seq<char>, Seq<char>, serde_json::Value),
>
    decreases items.len(),
{
    if items.len() == 0 {
        seq![]
    } else {
        let rest = tools_of(items.drop_last());
        match tool_of(items.last()) {
            Some(t) => rest.push(t),
            None => rest,
        }
    }
}

/// The tools a `tools/list` result describes: those of its `tools` array, none when there is
/// no such array.
pub open spec fn listed_tools(result: serde_json::Value) -> Seq<
    (Seq<char>, Seq<char>, serde_json::Value),
> {
    match json_field(result, "tools"@) {
        Some(t) => match json_items(t) {
            Some(items) => tools_of(items),
            None => seq![],
        },
        None => seq![],
    }
}

/// The default schema `{"type": "object"}`.
fn object_schema() -> (r: serde_json::Value)
    ensures
        r == default_schema(),
{
    let e = empty_object();
    json_insert(e, "type", json_from_text("object"))
}

/// Reads a `tools/list` result into tool descriptions (see [`listed_tools`]).
pub fn parse_tools(result: &serde_json::Value) -> (r: Vec<McpToolSpec>)
    ensures
        r.len() == listed_tools(*result).len(),
        forall|k: int| 0 <= k < r.len() ==> #[trigger] r@[k]@ == listed_tools(*result)[k],
{
    let mut r: Vec<McpToolSpec> = Vec::new();
    let items = match json_get(result, "tools") {
        Some(t) => match json_array_items(&t) {
            Some(items) => items,
            None => return r,
        },
        None => return r,
    };
    let ghost all = items@;
    let mut k: usize = 0;
    while k < items.len()
        invariant
            k <= items.len(),
            all == items@,
            tools_of(all) == listed_tools(*result),
            r.len() == tools_of(all.take(k as int)).len(),
            forall|j: int| 0 <= j < r.len() ==> #[trigger] r@[j]@ == tools_of(all.take(k as int))[j],
        decreases items.len() - k,
    {
        assert(all.take(k + 1).drop_last() =~= all.take(k as int));
        assert(all.take(k + 1).last() == all[k as int]);
        let t = &items[k];
        match get_string(t, "name") {
            Some(name) => {
                let description = match get_string(t, "description") {
                    Some(d) => d,
                    None => String::new(),
                };
                let schema = match json_get(t, "inputSchema") {
                    Some(s) => s,
                    None => object_schema(),
                };
                r.push(McpToolSpec { name, description, schema });
            },
            None => {},
        }
        k = k + 1;
    }
    assert(all.take(items.len() as int) =~= all);
    r
}

/// The text of a content block: its string `text` field.
pub open spec fn texts_of(items: Seq<serde_json::Value>) -> Seq<Seq<char>>
    decreases items.len(),
{
    if items.len() == 0 {
        seq![]
    } else {
        let rest = texts_of(items.drop_last());
        match string_field(items.last(), "text"@) {
            Some(t) => rest.push(t),
            None => rest,
        }
    }
}

/// The text of a `tools/call` result: the texts of its `content` blocks, one per line; where
/// that is empty, the result's own JSON text.
pub open spec fn call_result_text(result: serde_json::Value) -> Seq<char> {
    let text = match json_field(result, "content"@) {
        Some(c) => match json_items(c) {
            Some(items) => join(texts_of(items), "\n"@),
            None => seq![],
        },
        None => seq![],
    };
    if text.len() == 0 {
        json_text(result)
    } else {
        text
    }
}

/// Flattens a `tools/call` result into plain text (see [`call_result_text`]).
pub fn parse_call_result(result: &serde_json::Value) -> (r: String)
    ensures
        r@ == call_result_text(*result),
{
    let mut texts: Vec<Vec<char>> = Vec::new();
    let ghost mut joined: Seq<char> = seq![];
    let mut have_array = false;
    if let Some(c) = json_get(result, "content") {
        if let Some(items) = json_array_items(&c) {
            have_array = true;
            let ghost all = items@;
            let mut k: usize = 0;
            while k < items.len()
                invariant
                    k <= items.len(),
                    all == items@,
                    texts@.map_values(|w: Vec<char>| w@) == texts_of(all.take(k as int)),
                decreases items.len() - k,
            {
                assert(all.take(k + 1).drop_last() =~= all.take(k as int));
                assert(all.take(k + 1).last() == all[k as int]);
                if let Some(t) = get_string(&items[k], "text") {
                    let ghost before = texts@;
                    texts.push(to_chars(t.as_str()));
                    assert(texts@.map_values(|w: Vec<char>| w@) =~= before.map_values(
                        |w: Vec<char>| w@,
                    ).push(t@));
                }
                k = k + 1;
            }
            assert(all.take(items.len() as int) =~= all);
        }
    }
    let sep = to_chars("\n");
    let text = join_exec(&texts, &sep);
    proof {
        if !have_array {
            assert(texts@.map_values(|w: Vec<char>| w@) =~= Seq::<Seq<char>>::empty());
        }
    }
    if text.len() == 0 {
        json_to_text(result)
    } else {
        from_chars(text.as_slice())
    }
}

/// What a line read from a server means for the request with number `id`.
pub enum Reply {
    /// A notification, or the reply to another request: keep waiting.
    Other,
    /// The server answered with an error; the message quotes the error's JSON text.
    Failed(String),
    /// The server answered with this result (`null` when the reply carries none).
    Answered(serde_json::Value),
}

/// The JSON `null`.
pub open spec fn null_json() -> serde_json::Value {
    json_parse("null"@)->0
}

/// What the line `v` means for request `id`: a line whose integer `id` is not `id` is
/// [`Reply::Other`]; one with an `error` field fails with `MCP error: ` and that field's JSON
/// text; otherwise its `result` field, or `null`, is the answer.
pub open spec fn reply_for(v: serde_json::Value, id: i64) -> (Option<Seq<char>>, Option<
    serde_json::Value,
>) {
    if (match json_field(v, "id"@) {
        Some(x) => json_int(x),
        None => None,
    }) != Some(id) {
        (None, None)
    } else {
        match json_field(v, "error"@) {
            Some(err) => (Some("MCP error: "@ + json_text(err)), None),
            None => (
                None,
                Some(
                    match json_field(v, "result"@) {
                        Some(x) => x,
                        None => null_json(),
                    },
                ),
            ),
        }
    }
}

/// Reads one line of a server's output against the request with number `id` (see
/// [`reply_for`]).
pub fn reply_to(v: &serde_json::Value, id: i64) -> (r: Reply)
    ensures
        reply_for(*v, id).0 is None && reply_for(*v, id).1 is None <==> r is Other,
        r matches Reply::Failed(m) ==> reply_for(*v, id).0 == Some(m@),
        r matches Reply::Answered(x) ==> reply_for(*v, id).1 == Some(x),
{
    let got = match json_get(v, "id") {
        Some(x) => json_as_i64(&x),
        None => None,
    };
    match got {
        Some(n) => {
            if n != id {
                return Reply::Other;
            }
        },
        None => {
            return Reply::Other;
        },
    }
    match json_get(v, "error") {
        Some(err) => {
            let mut m = to_chars("MCP error: ");
            let t = json_to_text(&err);
            append_str(&mut m, t.as_str());
            Reply::Failed(from_chars(m.as_slice()))
        },
        None => match json_get(v, "result") {
            Some(x) => Reply::Answered(x),
            None => Reply::Answered(null_value()),
        },
    }
}

/// An MCP server the configuration names: the command that starts it and its arguments.
pub struct McpServer {
    pub command: String,
    pub args: Vec<String>,
}

/// The strings of a list of JSON values, skipping the values that are not strings.
pub open spec fn strings_in(items: Seq<serde_json::Value>) -> Seq<Seq<char>>
    decreases items.len(),
{
    if items.len() == 0 {
        seq![]
    } else {
        let rest = strings_in(items.drop_last());
        match json_string(items.last()) {
            Some(s) => rest.push(s),
            None => rest,
        }
    }
}

/// The server an entry of the configuration names: its string `command` (empty when
/// missing) and the strings of its `args` array.
pub open spec fn server_of(s: serde_json::Value) -> (Seq<char>, Seq<Seq<char>>) {
    (
        match string_field(s, "command"@) {
            Some(c) => c,
            None => seq![],
        },
        match json_field(s, "args"@) {
            Some(a) => match json_items(a) {
                Some(items) => strings_in(items),
                None => seq![],
            },
            None => seq![],
        },
    )
}

/// The servers a configuration text names, when it is a JSON array (`None` otherwise).
pub open spec fn configured(cfg: Seq<char>) -> Option<Seq<(Seq<char>, Seq<Seq<char>>)>> {
    match json_parse(cfg) {
        Some(v) => match json_items(v) {
            Some(items) => Some(items.map_values(|s: serde_json::Value| server_of(s))),
            None => None,
        },
        None => None,
    }
}

/// The strings of a JSON array's elements (see [`strings_in`]).
fn strings_exec(items: &Vec<serde_json::Value>) -> (r: Vec<String>)
    ensures
        r.len() == strings_in(items@).len(),
        forall|k: int| 0 <= k < r.len() ==> #[trigger] r@[k]@ == strings_in(items@)[k],
{
    let mut r: Vec<String> = Vec::new();
    let mut k: usize = 0;
    while k < items.len()
        invariant
            k <= items.len(),
            r.len() == strings_in(items@.take(k as int)).len(),
            forall|j: int| 0 <= j < r.len() ==> #[trigger] r@[j]@ == strings_in(items@.take(k as int))[j],
        decreases items.len() - k,
    {
        assert(items@.take(k + 1).drop_last() =~= items@.take(k as int));
        assert(items@.take(k + 1).last() == items@[k as int]);
        if let Some(s) = json_as_string(&items[k]) {
            r.push(s);
        }
        k = k + 1;
    }
    assert(items@.take(items.len() as int) =~= items@);
    r
}

/// The servers the configuration text names (see [`configured`]); `None` when it is not a
/// JSON array.
pub fn configured_servers(cfg: &str) -> (r: Option<Vec<McpServer>>)
    ensures
        r is None <==> configured(cfg@) is None,
        r matches Some(v) ==> ({
            let c = configured(cfg@)->0;
            &&& v.len() == c.len()
            &&& forall|k: int|
                0 <= k < v.len() ==> (#[trigger] v@[k]).command@ == c[k].0 && v@[k].args.len()
                    == c[k].1.len() && (forall|j: int|
                    0 <= j < v@[k].args.len() ==> #[trigger] v@[k].args@[j]@ == c[k].1[j])
        }),
{
    let v = match crate::json::parse_json(cfg) {
        Some(v) => v,
        None => return None,
    };
    let items = match json_array_items(&v) {
        Some(items) => items,
        None => return None,
    };
    let ghost c = configured(cfg@)->0;
    let mut out: Vec<McpServer> = Vec::new();
    let mut k: usize = 0;
    while k < items.len()
        invariant
            k <= items.len(),
            c == items@.map_values(|s: serde_json::Value| server_of(s)),
            out.len() == k,
            forall|i: int|
                0 <= i < k ==> (#[trigger] out@[i]).command@ == c[i].0 && out@[i].args.len()
                    == c[i].1.len() && (forall|j: int|
                    0 <= j < out@[i].args.len() ==> #[trigger] out@[i].args@[j]@ == c[i].1[j]),
        decreases items.len() - k,
    {
        let s = &items[k];
        let command = match get_string(s, "command") {
            Some(c) => c,
            None => String::new(),
        };
        let args = match json_get(s, "args") {
            Some(a) => match json_array_items(&a) {
                Some(xs) => strings_exec(&xs),
                None => Vec::new(),
            },
            None => Vec::new(),
        };
        assert(c[k as int] == server_of(items@[k as int]));
        out.push(McpServer { command, args });
        k = k + 1;
    }
    Some(out)
}

/// The name under which the agent sees a server's tool: `mcp_` and the tool's name.
pub fn mcp_tool_name(name: &str) -> (r: String)
    ensures
        r@ == "mcp_"@ + name@,
{
    let mut v = to_chars("mcp_");
    append_str(&mut v, name);
    from_chars(v.as_slice())
}

/// What the user is asked to allow before a server's tool runs.
pub fn mcp_consent_action(name: &str) -> (r: String)
    ensures
        r@ == "usare lo strumento esterno MCP «"@ + name@ + "»"@,
{
    let mut v = to_chars("usare lo strumento esterno MCP «");
    append_str(&mut v, name);
    append_str(&mut v, "»");
    from_chars(v.as_slice())
}

} // verus!
