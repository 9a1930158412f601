//! Sizing of the local engine's contexts, and the prompt dialect of a model.
use vstd::prelude::*;
use crate::chars::{contains, contains_exec, to_chars};
use crate::format::Dialect;
use crate::lower::{lowercase, str_to_lowercase};

verus! {

/// Context of an auxiliary slot (extraction, judging, summaries): they do not need the full
/// context, and a second full-size KV cache runs the device out of memory.
pub const AUX_SLOT_CTX: u32 = 2048;

/// The effective context of a slot: slot 0 has the full context, auxiliary slots are capped.
pub fn slot_ctx(n_ctx: u32, slot: usize) -> (r: u32)
    ensures
        r == if slot >= 1 && n_ctx > AUX_SLOT_CTX {
            AUX_SLOT_CTX
        } else {
            n_ctx
        },
{
    if slot >= 1 {
        if n_ctx < AUX_SLOT_CTX {
            n_ctx
        } else {
            AUX_SLOT_CTX
        }
    } else {
        n_ctx
    }
}

/// The prompt's token budget in a slot: its context less the expected generation and a margin
/// of 64, and never below 64 (the prompt is then trimmed anyway).
pub fn prompt_budget(slot_ctx: u32, max_tokens: usize) -> (r: usize)
    requires
        max_tokens + 64 <= usize::MAX,
    ensures
        r == if slot_ctx - (max_tokens + 64) > 64 {
            slot_ctx - (max_tokens + 64)
        } else {
            64
        },
{
    let reserve = max_tokens + 64;
    let c = slot_ctx as usize;
    let left = if c > reserve {
        c - reserve
    } else {
        0
    };
    if left > 64 {
        left
    } else {
        64
    }
}

/// The prompt dialect of a local model, from its identifier (case ignored): Gemma, the Mistral
/// family (Mistral, Nemo, Ministral, Velvet), the Cohere family (Aya, Command-R), else ChatML.
pub open spec fn dialect_of(id: Seq<char>) -> Dialect {
    let l = lowercase(id);
    if contains(l, "gemma"@) {
        Dialect::Gemma
    } else if contains(l, "mistral"@) || contains(l, "nemo"@) || contains(l, "ministral"@)
        || contains(l, "velvet"@) {
        Dialect::Mistral
    } else if contains(l, "aya"@) || contains(l, "command-r"@) || contains(l, "commandr"@)
        || contains(l, "cohere"@) {
        Dialect::Cohere
    } else {
        Dialect::Qwen
    }
}

/// The prompt dialect of a model (see [`dialect_of`]).
pub fn dialect_for_model(id: &str) -> (r: Dialect)
    ensures
        r == dialect_of(id@),
{
    let ls = str_to_lowercase(id);
    let l = to_chars(ls.as_str());
    if contains_exec(&l, &to_chars("gemma")) {
        Dialect::Gemma
    } else if contains_exec(&l, &to_chars("mistral")) || contains_exec(&l, &to_chars("nemo"))
        || contains_exec(&l, &to_chars("ministral")) || contains_exec(&l, &to_chars("velvet")) {
        Dialect::Mistral
    } else if contains_exec(&l, &to_chars("aya")) || contains_exec(&l, &to_chars("command-r"))
        || contains_exec(&l, &to_chars("commandr")) || contains_exec(&l, &to_chars("cohere")) {
        Dialect::Cohere
    } else {
        Dialect::Qwen
    }
}

} // verus!
