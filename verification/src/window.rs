//! The local engine's bookkeeping around a generation, on token ids: which prompt tokens fit
//! the context (the system turn and the most recent whole turns), how much of the cached prompt
//! can be reused, when the decoding loop stops, and when a stop string has been produced.
use vstd::prelude::*;
use crate::chars::{ends_with, ends_with_exec, to_chars};

verus! {

/// Without a turn marker in the prompt, the kept head is a third of the budget, at most this.
pub const HEAD_FALLBACK: usize = 640;

/// The first index `>= from` whose token is one of `set`.
pub open spec fn first_member(t: Seq<i32>, set: Seq<i32>, from: nat) -> Option<nat>
    decreases t.len() - from,
{
    if from >= t.len() {
        None
    } else if set.contains(t[from as int]) {
        Some(from)
    } else {
        first_member(t, set, from + 1)
    }
}

/// How many leading tokens are kept: the whole first turn (up to and including the first
/// turn-end token), within the budget; without such a token, a third of the budget, at most
/// [`HEAD_FALLBACK`].
pub open spec fn head_len(t: Seq<i32>, budget: nat, ends: Seq<i32>) -> nat {
    match first_member(t, ends, 0) {
        Some(p) => if p + 1 < budget {
            p + 1
        } else {
            budget
        },
        None => if budget / 3 < HEAD_FALLBACK {
            budget / 3
        } else {
            HEAD_FALLBACK as nat
        },
    }
}

/// Where the kept tail starts: the last `budget - head` tokens, moved forward to the next
/// turn-start token so that only whole turns are kept.
pub open spec fn tail_start(t: Seq<i32>, budget: nat, ends: Seq<i32>, starts: Seq<i32>) -> nat {
    let tail = (budget - head_len(t, budget, ends)) as nat;
    let s0: nat = if t.len() >= tail {
        (t.len() - tail) as nat
    } else {
        0
    };
    match first_member(t, starts, s0) {
        Some(q) => q,
        None => s0,
    }
}

/// The prompt tokens given to the model: all of them when they fit the budget; otherwise the
/// head and the tail, without the middle.
pub open spec fn window(t: Seq<i32>, budget: nat, ends: Seq<i32>, starts: Seq<i32>) -> Seq<i32> {
    if t.len() <= budget {
        t
    } else {
        t.take(head_len(t, budget, ends) as int) + t.skip(tail_start(t, budget, ends, starts) as int)
    }
}

proof fn lemma_first_member(t: Seq<i32>, set: Seq<i32>, from: nat)
    ensures
        first_member(t, set, from) matches Some(q) ==> from <= q < t.len() && set.contains(t[q as int])
            && forall|j: int| from <= j < q ==> !set.contains(#[trigger] t[j]),
        first_member(t, set, from) is None ==> forall|j: int| from <= j < t.len() ==> !set.contains(#[trigger] t[j]),
    decreases t.len() - from,
{
    if from < t.len() && !set.contains(t[from as int]) {
        lemma_first_member(t, set, from + 1);
    }
}

/// Whether `x` is one of `set`.
fn member(set: &Vec<i32>, x: i32) -> (r: bool)
    ensures
        r == set@.contains(x),
{
    let mut k: usize = 0;
    while k < set.len()
        invariant
            k <= set.len(),
            forall|j: int| 0 <= j < k ==> set@[j] != x,
        decreases set.len() - k,
    {
        if set[k] == x {
            assert(set@[k as int] == x);
            return true;
        }
        k = k + 1;
    }
    false
}

fn first_member_exec(t: &Vec<i32>, set: &Vec<i32>, from: usize) -> (r: Option<usize>)
    ensures
        r matches Some(q) ==> first_member(t@, set@, from as nat) == Some(q as nat),
        r is None ==> first_member(t@, set@, from as nat) is None,
{
    let mut i = from;
    while i < t.len()
        invariant
            from <= i,
            first_member(t@, set@, from as nat) == first_member(t@, set@, i as nat),
        decreases t.len() - i,
    {
        if member(set, t[i]) {
            return Some(i);
        }
        i = i + 1;
    }
    None
}

/// The prompt tokens that fit the context (see [`window`]).
pub fn fit_window(tokens: &Vec<i32>, budget: usize, turn_ends: &Vec<i32>, turn_starts: &Vec<i32>) -> (r: Vec<i32>)
    ensures
        r@ == window(tokens@, budget as nat, turn_ends@, turn_starts@),
{
    if tokens.len() <= budget {
        let mut r: Vec<i32> = Vec::new();
        let mut k: usize = 0;
        while k < tokens.len()
            invariant
                k <= tokens.len(),
                r@ == tokens@.take(k as int),
            decreases tokens.len() - k,
        {
            r.push(tokens[k]);
            k = k + 1;
            assert(r@ =~= tokens@.take(k as int));
        }
        assert(tokens@.take(tokens.len() as int) =~= tokens@);
        return r;
    }
    let head = match first_member_exec(tokens, turn_ends, 0) {
        Some(p) => if budget > 0 && p < budget - 1 {
            p + 1
        } else {
            budget
        },
        None => if budget / 3 < HEAD_FALLBACK {
            budget / 3
        } else {
            HEAD_FALLBACK
        },
    };
    let tail = budget - head;
    let s0 = if tokens.len() >= tail {
        tokens.len() - tail
    } else {
        0
    };
    let start = match first_member_exec(tokens, turn_starts, s0) {
        Some(q) => q,
        None => s0,
    };
    proof {
        lemma_first_member(tokens@, turn_starts@, s0 as nat);
    }
    let mut r: Vec<i32> = Vec::new();
    let mut k: usize = 0;
    while k < head
        invariant
            k <= head,
            head <= budget < tokens.len(),
            r@ == tokens@.take(k as int),
        decreases head - k,
    {
        r.push(tokens[k]);
        k = k + 1;
        assert(r@ =~= tokens@.take(k as int));
    }
    let mut j = start;
    while j < tokens.len()
        invariant
            start <= j <= tokens.len(),
            r@ == tokens@.take(head as int) + tokens@.subrange(start as int, j as int),
        decreases tokens.len() - j,
    {
        r.push(tokens[j]);
        j = j + 1;
        assert(r@ =~= tokens@.take(head as int) + tokens@.subrange(start as int, j as int));
    }
    assert(tokens@.subrange(start as int, tokens.len() as int) =~= tokens@.skip(start as int));
    r
}

/// The kept window always fits: when the prompt is too long, what is kept is the head (the
/// first turn, or the fallback) followed by a suffix of the prompt, and it is no longer than
/// the budget.
pub proof fn lemma_window_fits(t: Seq<i32>, budget: nat, ends: Seq<i32>, starts: Seq<i32>)
    ensures
        window(t, budget, ends, starts).len() <= if t.len() <= budget {
            t.len()
        } else {
            budget
        },
        t.len() > budget ==> window(t, budget, ends, starts) == t.take(head_len(t, budget, ends) as int)
            + t.skip(tail_start(t, budget, ends, starts) as int),
        t.len() > budget ==> head_len(t, budget, ends) <= tail_start(t, budget, ends, starts) <= t.len(),
        t.len() <= budget ==> window(t, budget, ends, starts) == t,
{
    if t.len() > budget {
        let h = head_len(t, budget, ends);
        let tail = (budget - h) as nat;
        let s0: nat = (t.len() - tail) as nat;
        lemma_first_member(t, starts, s0);
        let s = tail_start(t, budget, ends, starts);
        assert(s0 <= s <= t.len());
    }
}

/// The longest common prefix of `a` and `b` from index `i` on.
pub open spec fn common_from(a: Seq<i32>, b: Seq<i32>, i: nat) -> nat
    decreases a.len() - i,
{
    if i < a.len() && i < b.len() && a[i as int] == b[i as int] {
        common_from(a, b, i + 1)
    } else {
        i
    }
}

/// How much of the cached tokens is reused for the new prompt: their common prefix, but never
/// the whole prompt (the last token is decoded again for fresh logits).
pub open spec fn reused(tokens: Seq<i32>, cached: Seq<i32>) -> nat {
    let c = common_from(tokens, cached, 0);
    if c >= tokens.len() {
        if tokens.len() > 0 {
            (tokens.len() - 1) as nat
        } else {
            0
        }
    } else {
        c
    }
}

proof fn lemma_common_from(a: Seq<i32>, b: Seq<i32>, i: nat)
    requires
        i <= a.len(),
        i <= b.len(),
        a.take(i as int) == b.take(i as int),
    ensures
        i <= common_from(a, b, i) <= a.len(),
        common_from(a, b, i) <= b.len(),
        a.take(common_from(a, b, i) as int) == b.take(common_from(a, b, i) as int),
    decreases a.len() - i,
{
    if i < a.len() && i < b.len() && a[i as int] == b[i as int] {
        assert(a.take(i + 1int) =~= a.take(i as int).push(a[i as int]));
        assert(b.take(i + 1int) =~= b.take(i as int).push(b[i as int]));
        lemma_common_from(a, b, i + 1);
    }
}

/// How many tokens of the cache the new prompt reuses (see [`reused`]).
pub fn reuse_prefix(tokens: &Vec<i32>, cached: &Vec<i32>) -> (r: usize)
    ensures
        r == reused(tokens@, cached@),
{
    let mut c: usize = 0;
    while c < tokens.len() && c < cached.len() && tokens[c] == cached[c]
        invariant
            c <= tokens.len(),
            common_from(tokens@, cached@, 0) == common_from(tokens@, cached@, c as nat),
        decreases tokens.len() - c,
    {
        c = c + 1;
    }
    if c >= tokens.len() {
        if tokens.len() > 0 {
            tokens.len() - 1
        } else {
            0
        }
    } else {
        c
    }
}

/// The reused tokens are a prefix shared by the prompt and the cache, and, for a non-empty
/// prompt, at least its last token is decoded again.
pub proof fn lemma_reuse_is_shared(tokens: Seq<i32>, cached: Seq<i32>)
    ensures
        reused(tokens, cached) <= cached.len(),
        tokens.take(reused(tokens, cached) as int) == cached.take(reused(tokens, cached) as int),
        tokens.len() > 0 ==> reused(tokens, cached) < tokens.len(),
{
    assert(tokens.take(0) =~= cached.take(0));
    lemma_common_from(tokens, cached, 0);
    let c = common_from(tokens, cached, 0);
    let r = reused(tokens, cached);
    if r < c {
        assert(tokens.take(r as int) =~= tokens.take(c as int).take(r as int));
        assert(cached.take(r as int) =~= cached.take(c as int).take(r as int));
    }
}

/// What the decoding loop does before sampling the next token.
#[derive(PartialEq, Eq, Structural)]
pub enum DecodeStep {
    /// Sample and decode the next token.
    Go,
    /// The answer's budget is spent, or the user stopped: end here.
    Stop,
    /// One step before the slot's context is full: end here, marking the cut with `…`.
    ContextFull,
}

/// Before each token: a spent budget or a stop ends the loop; then, at position `n_ctx - 1`,
/// the context is full and nothing more is decoded.
pub open spec fn next_step(generated: nat, max_tokens: nat, cancelled: bool, position: nat, n_ctx: nat) -> DecodeStep {
    if generated >= max_tokens || cancelled {
        DecodeStep::Stop
    } else if position + 1 >= n_ctx {
        DecodeStep::ContextFull
    } else {
        DecodeStep::Go
    }
}

/// Decides the decoding loop's next move (see [`next_step`]).
pub fn decode_step(generated: usize, max_tokens: usize, cancelled: bool, position: usize, n_ctx: u32) -> (r: DecodeStep)
    ensures
        r == next_step(generated as nat, max_tokens as nat, cancelled, position as nat, n_ctx as nat),
{
    if generated >= max_tokens || cancelled {
        DecodeStep::Stop
    } else if n_ctx == 0 || position as u64 >= n_ctx as u64 - 1 {
        DecodeStep::ContextFull
    } else {
        DecodeStep::Go
    }
}

/// Whether the output so far ends with one of the stop strings.
pub open spec fn stopped_by(out: Seq<char>, stops: Seq<Seq<char>>) -> bool {
    exists|k: int| 0 <= k < stops.len() && ends_with(out, #[trigger] stops[k])
}

/// Checks the output against the stop strings (see [`stopped_by`]).
pub fn hit_stop(out: &str, stops: &Vec<String>) -> (r: bool)
    ensures
        r == stopped_by(out@, stops@.map_values(|s: String| s@)),
{
    let ghost sv = stops@.map_values(|s: String| s@);
    let o = to_chars(out);
    let mut k: usize = 0;
    while k < stops.len()
        invariant
            k <= stops.len(),
            o@ == out@,
            sv == stops@.map_values(|s: String| s@),
            forall|j: int| 0 <= j < k ==> !ends_with(out@, #[trigger] sv[j]),
        decreases stops.len() - k,
    {
        let s = to_chars(stops[k].as_str());
        if ends_with_exec(&o, &s) {
            assert(sv[k as int] == s@);
            return true;
        }
        k = k + 1;
    }
    false
}

} // verus!
