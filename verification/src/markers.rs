//! Control markers in model output: end-of-turn tokens, tool-call openers and Gemma's
//! "thinking channel".  What is shown to the user is the text with all of these removed.
use vstd::prelude::*;
use crate::chars::{
    ends_with, find, find_exec, lemma_find, matches_at, slice, to_chars, from_chars, trim,
    trim_exec, append_chars, contains, trim_start, trim_end, is_ws, lemma_find_append,
    lemma_matches_at_skip, lemma_trim_idempotent,
};

verus! {

/// Gemma's tool-call opener `<|tool_call`.
pub open spec fn gemma_call_marker() -> Seq<char> {
    seq!['<', '|', 't', 'o', 'o', 'l', '_', 'c', 'a', 'l', 'l']
}

/// Qwen's tool-call opener `<tool_call`.
pub open spec fn qwen_call_marker() -> Seq<char> {
    seq!['<', 't', 'o', 'o', 'l', '_', 'c', 'a', 'l', 'l']
}

/// Mistral's tool-call opener `[TOOL_CALLS`.
pub open spec fn mistral_call_marker() -> Seq<char> {
    seq!['[', 'T', 'O', 'O', 'L', '_', 'C', 'A', 'L', 'L', 'S']
}

/// Gemma's thinking-channel opener `<|channel>`.
pub open spec fn channel_open() -> Seq<char> {
    seq!['<', '|', 'c', 'h', 'a', 'n', 'n', 'e', 'l', '>']
}

/// Gemma's thinking-channel closer `<channel|>`.
pub open spec fn channel_close() -> Seq<char> {
    seq!['<', 'c', 'h', 'a', 'n', 'n', 'e', 'l', '|', '>']
}

pub fn gemma_call_marker_exec() -> (m: Vec<char>)
    ensures
        m@ == gemma_call_marker(),
{
    let m = vec!['<', '|', 't', 'o', 'o', 'l', '_', 'c', 'a', 'l', 'l'];
    assert(m@ =~= gemma_call_marker());
    m
}

pub fn qwen_call_marker_exec() -> (m: Vec<char>)
    ensures
        m@ == qwen_call_marker(),
{
    let m = vec!['<', 't', 'o', 'o', 'l', '_', 'c', 'a', 'l', 'l'];
    assert(m@ =~= qwen_call_marker());
    m
}

pub fn mistral_call_marker_exec() -> (m: Vec<char>)
    ensures
        m@ == mistral_call_marker(),
{
    let m = vec!['[', 'T', 'O', 'O', 'L', '_', 'C', 'A', 'L', 'L', 'S'];
    assert(m@ =~= mistral_call_marker());
    m
}

pub fn channel_open_exec() -> (m: Vec<char>)
    ensures
        m@ == channel_open(),
{
    let m = vec!['<', '|', 'c', 'h', 'a', 'n', 'n', 'e', 'l', '>'];
    assert(m@ =~= channel_open());
    m
}

pub fn channel_close_exec() -> (m: Vec<char>)
    ensures
        m@ == channel_close(),
{
    let m = vec!['<', 'c', 'h', 'a', 'n', 'n', 'e', 'l', '|', '>'];
    assert(m@ =~= channel_close());
    m
}

/// The largest `k <= i` such that `s` ends with the first `k` characters of `m` (0 if none).
pub open spec fn longest_tail(s: Seq<char>, m: Seq<char>, i: int) -> int
    decreases i,
{
    if i <= 0 {
        0
    } else if ends_with(s, m.take(i)) {
        i
    } else {
        longest_tail(s, m, i - 1)
    }
}

/// Length of the longest proper-or-whole prefix of `m` that `s` ends with.
pub open spec fn marker_tail(s: Seq<char>, m: Seq<char>) -> int {
    longest_tail(s, m, if m.len() < s.len() { m.len() as int } else { s.len() as int })
}

pub open spec fn max2(a: int, b: int) -> int {
    if a >= b {
        a
    } else {
        b
    }
}

/// How many trailing characters of `s` could be the start of a tool-call opener.
pub open spec fn call_prefix_tail(s: Seq<char>) -> int {
    max2(
        max2(marker_tail(s, gemma_call_marker()), marker_tail(s, qwen_call_marker())),
        marker_tail(s, mistral_call_marker()),
    )
}

pub proof fn lemma_longest_tail(s: Seq<char>, m: Seq<char>, i: int)
    requires
        i <= m.len(),
    ensures
        0 <= longest_tail(s, m, i) <= if i < 0 { 0 } else { i },
        longest_tail(s, m, i) > 0 ==> ends_with(s, m.take(longest_tail(s, m, i))),
    decreases i,
{
    if i > 0 && !ends_with(s, m.take(i)) {
        lemma_longest_tail(s, m, i - 1);
    }
}

/// The held-back tail never exceeds the text.
pub proof fn lemma_call_prefix_tail_bound(s: Seq<char>)
    ensures
        0 <= call_prefix_tail(s) <= s.len(),
        0 <= marker_tail(s, gemma_call_marker()) <= s.len(),
        0 <= marker_tail(s, qwen_call_marker()) <= s.len(),
        0 <= marker_tail(s, mistral_call_marker()) <= s.len(),
{
    let g = gemma_call_marker();
    let q = qwen_call_marker();
    let m = mistral_call_marker();
    lemma_longest_tail(s, g, if g.len() < s.len() { g.len() as int } else { s.len() as int });
    lemma_longest_tail(s, q, if q.len() < s.len() { q.len() as int } else { s.len() as int });
    lemma_longest_tail(s, m, if m.len() < s.len() { m.len() as int } else { s.len() as int });
}

/// `longest_tail` is the longest: any prefix of `m` of length `k <= i` that `s` ends with is
/// at most as long.
pub proof fn lemma_longest_tail_max(s: Seq<char>, m: Seq<char>, i: int, k: int)
    requires
        1 <= k <= i,
        ends_with(s, m.take(k)),
    ensures
        longest_tail(s, m, i) >= k,
    decreases i,
{
    if !ends_with(s, m.take(i)) {
        lemma_longest_tail_max(s, m, i - 1, k);
    }
}

/// Any prefix of `m` (proper or whole) that `s` ends with is at most `marker_tail(s, m)` long.
pub proof fn lemma_marker_tail_max(s: Seq<char>, m: Seq<char>, k: int)
    requires
        1 <= k <= m.len(),
        k <= s.len(),
        ends_with(s, m.take(k)),
    ensures
        marker_tail(s, m) >= k,
{
    lemma_longest_tail_max(s, m, if m.len() < s.len() { m.len() as int } else { s.len() as int }, k);
}

/// Appending `p` lengthens a held-back tail by at most `p`'s length.
pub proof fn lemma_marker_tail_growth(a: Seq<char>, p: Seq<char>, m: Seq<char>)
    ensures
        marker_tail(a + p, m) <= marker_tail(a, m) + p.len(),
{
    let s = a + p;
    let t = marker_tail(s, m);
    lemma_longest_tail(s, m, if m.len() < s.len() { m.len() as int } else { s.len() as int });
    lemma_longest_tail(a, m, if m.len() < a.len() { m.len() as int } else { a.len() as int });
    if t > p.len() {
        let j = t - p.len();
        // `a` ends with the first `j` characters of `m`
        assert(ends_with(s, m.take(t)));
        assert forall|q: int| 0 <= q < j implies #[trigger] a.skip(a.len() - j)[q] == m.take(j)[q] by {
            assert(s.skip(s.len() - t)[q] == m.take(t)[q]);
            assert(s[s.len() - t + q] == a[a.len() - j + q]);
        }
        assert(a.skip(a.len() - j) =~= m.take(j));
        lemma_marker_tail_max(a, m, j);
    }
}

pub proof fn lemma_call_prefix_tail_growth(a: Seq<char>, p: Seq<char>)
    ensures
        call_prefix_tail(a + p) <= call_prefix_tail(a) + p.len(),
{
    lemma_marker_tail_growth(a, p, gemma_call_marker());
    lemma_marker_tail_growth(a, p, qwen_call_marker());
    lemma_marker_tail_growth(a, p, mistral_call_marker());
}

/// Whether `s` ends with the first `i` characters of `m`.
fn ends_with_prefix(s: &Vec<char>, m: &Vec<char>, i: usize) -> (r: bool)
    requires
        i <= m.len(),
        i <= s.len(),
    ensures
        r == ends_with(s@, m@.take(i as int)),
{
    let base = s.len() - i;
    let mut j: usize = 0;
    while j < i
        invariant
            j <= i <= m.len(),
            base + i == s.len(),
            forall|q: int| 0 <= q < j ==> s@[base + q] == m@[q],
        decreases i - j,
    {
        if s[base + j] != m[j] {
            assert(s@.skip(s@.len() - i)[j as int] != m@.take(i as int)[j as int]);
            return false;
        }
        j = j + 1;
    }
    assert(s@.skip(s@.len() - i) =~= m@.take(i as int));
    true
}

/// `marker_tail` computed.
pub(crate) fn marker_tail_exec(s: &Vec<char>, m: &Vec<char>) -> (r: usize)
    ensures
        r == marker_tail(s@, m@),
{
    let max = if m.len() < s.len() {
        m.len()
    } else {
        s.len()
    };
    let mut i = max;
    while i > 0
        invariant
            i <= max,
            max <= m.len(),
            max <= s.len(),
            marker_tail(s@, m@) == longest_tail(s@, m@, i as int),
        decreases i,
    {
        if ends_with_prefix(s, m, i) {
            return i;
        }
        i = i - 1;
    }
    0
}

/// `toolcall_prefix_tail` on characters.
pub fn call_prefix_tail_exec(s: &Vec<char>) -> (r: usize)
    ensures
        r == call_prefix_tail(s@),
{
    let a = marker_tail_exec(s, &gemma_call_marker_exec());
    let b = marker_tail_exec(s, &qwen_call_marker_exec());
    let c = marker_tail_exec(s, &mistral_call_marker_exec());
    let ab = if a >= b {
        a
    } else {
        b
    };
    if ab >= c {
        ab
    } else {
        c
    }
}

/// Length of the trailing part of `s` that could be the start of a tool-call opener (Qwen
/// `<tool_call`, Gemma `<|tool_call` or Mistral `[TOOL_CALLS`): the longest such partial
/// match, held back from streaming until it is known whether a tool call follows.
pub fn toolcall_prefix_tail(s: &str) -> (r: usize)
    ensures
        r == call_prefix_tail(s@),
{
    let v = to_chars(s);
    call_prefix_tail_exec(&v)
}

/// `t` with every complete `<|channel>…<channel|>` block removed, left to right; an opened
/// channel that never closes cuts the text where it opens.
pub open spec fn without_channels(t: Seq<char>) -> Seq<char>
    decreases t.len(),
{
    match find(t, channel_open()) {
        None => t,
        Some(st) => match find(t.skip(st), channel_close()) {
            None => t.take(st),
            Some(rel) => if 0 <= st && 0 <= rel && st + rel + 10 <= t.len() {
                without_channels(t.take(st) + t.skip(st + rel + 10))
            } else {
                t
            },
        },
    }
}

/// `strip_channel_thinking` on characters.
pub fn without_channels_exec(s: &Vec<char>) -> (r: Vec<char>)
    ensures
        r@ == without_channels(s@),
    decreases s.len(),
{
    let open = channel_open_exec();
    let close = channel_close_exec();
    match find_exec(s, &open) {
        None => slice(s, 0, s.len()),
        Some(st) => {
            proof {
                lemma_find(s@, open@);
            }
            let tail = slice(s, st, s.len());
            assert(tail@ =~= s@.skip(st as int));
            match find_exec(&tail, &close) {
                None => {
                    let r = slice(s, 0, st);
                    assert(r@ =~= s@.take(st as int));
                    r
                },
                Some(rel) => {
                    proof {
                        lemma_find(tail@, close@);
                        assert(matches_at(tail@, close@, rel as int));
                    }
                    let mut t = slice(s, 0, st);
                    let after = slice(s, st + rel + 10, s.len());
                    append_chars(&mut t, &after);
                    assert(t@ =~= s@.take(st as int) + s@.skip(st + rel + 10));
                    without_channels_exec(&t)
                },
            }
        },
    }
}

/// Removes Gemma's internal reasoning `<|channel>…<channel|>` from a reply: every closed
/// block goes; a channel that is opened and never closed (a truncated reply) cuts the text
/// from there on.
pub fn strip_channel_thinking(s: &str) -> (r: String)
    ensures
        r@ == without_channels(s@),
{
    let v = to_chars(s);
    let r = without_channels_exec(&v);
    from_chars(r.as_slice())
}

/// `t` cut at the first occurrence of `m`, if any.
pub open spec fn cut_at(t: Seq<char>, m: Seq<char>) -> Seq<char> {
    match find(t, m) {
        Some(i) => t.take(i),
        None => t,
    }
}

fn cut_at_exec(t: &Vec<char>, m: &str) -> (r: Vec<char>)
    ensures
        r@ == cut_at(t@, m@),
{
    let mv = to_chars(m);
    match find_exec(t, &mv) {
        Some(i) => {
            proof {
                lemma_find(t@, mv@);
            }
            let r = slice(t, 0, i);
            assert(r@ =~= t@.take(i as int));
            r
        },
        None => slice(t, 0, t.len()),
    }
}

/// The visible answer: thinking channels removed, the text cut at the first end-of-turn
/// token of any dialect (`<|im_end|>`, `<end_of_turn>`, `<turn|>`, `</s>`,
/// `<|END_OF_TURN_TOKEN|>`) and at the first tool-call opener, then trimmed.
pub open spec fn visible_answer(s: Seq<char>) -> Seq<char> {
    let t = without_channels(s);
    let t = cut_at(t, "<|im_end|>"@);
    let t = cut_at(t, "<end_of_turn>"@);
    let t = cut_at(t, "<turn|>"@);
    let t = cut_at(t, "</s>"@);
    let t = cut_at(t, "<|END_OF_TURN_TOKEN|>"@);
    let t = cut_at(t, "<|tool_call"@);
    let t = cut_at(t, "<tool_call"@);
    let t = cut_at(t, "[TOOL_CALLS"@);
    trim(t)
}

/// `strip_markers` on characters.
pub fn visible_answer_exec(s: &Vec<char>) -> (r: Vec<char>)
    ensures
        r@ == visible_answer(s@),
{
    let t = without_channels_exec(s);
    let t = cut_at_exec(&t, "<|im_end|>");
    let t = cut_at_exec(&t, "<end_of_turn>");
    let t = cut_at_exec(&t, "<turn|>");
    let t = cut_at_exec(&t, "</s>");
    let t = cut_at_exec(&t, "<|END_OF_TURN_TOKEN|>");
    let t = cut_at_exec(&t, "<|tool_call");
    let t = cut_at_exec(&t, "<tool_call");
    let t = cut_at_exec(&t, "[TOOL_CALLS");
    trim_exec(&t)
}

/// The user-visible reply of a raw model output (see [`visible_answer`]).
pub fn strip_markers(s: &str) -> (r: String)
    ensures
        r@ == visible_answer(s@),
{
    let v = to_chars(s);
    let r = visible_answer_exec(&v);
    from_chars(r.as_slice())
}

/// A prefix of a text without `m` has no `m` either.
proof fn lemma_no_match_take(t: Seq<char>, m: Seq<char>, i: int)
    requires
        !contains(t, m),
        0 <= i <= t.len(),
    ensures
        !contains(t.take(i), m),
{
    assert(t.take(i) + t.skip(i) =~= t);
    lemma_find_append(t.take(i), t.skip(i), m);
}

/// A suffix of a text without `m` has no `m` either.
proof fn lemma_no_match_skip(t: Seq<char>, m: Seq<char>, i: int)
    requires
        !contains(t, m),
        0 <= i <= t.len(),
    ensures
        !contains(t.skip(i), m),
{
    lemma_find(t, m);
    lemma_find(t.skip(i), m);
    if let Some(j) = find(t.skip(i), m) {
        lemma_matches_at_skip(t, m, i, j);
    }
}

/// Trimming a text without `m` leaves none.
proof fn lemma_no_match_trim(t: Seq<char>, m: Seq<char>)
    requires
        !contains(t, m),
    ensures
        !contains(trim(t), m),
{
    lemma_no_match_trim_start(t, m);
    lemma_no_match_trim_end(trim_start(t), m);
}

proof fn lemma_no_match_trim_start(t: Seq<char>, m: Seq<char>)
    requires
        !contains(t, m),
    ensures
        !contains(trim_start(t), m),
    decreases t.len(),
{
    if t.len() > 0 && is_ws(t[0]) {
        lemma_no_match_skip(t, m, 1);
        assert(t.skip(1) =~= t.drop_first());
        lemma_no_match_trim_start(t.drop_first(), m);
    }
}

proof fn lemma_no_match_trim_end(t: Seq<char>, m: Seq<char>)
    requires
        !contains(t, m),
    ensures
        !contains(trim_end(t), m),
    decreases t.len(),
{
    if t.len() > 0 && is_ws(t.last()) {
        lemma_no_match_take(t, m, t.len() - 1);
        assert(t.take(t.len() - 1) =~= t.drop_last());
        lemma_no_match_trim_end(t.drop_last(), m);
    }
}

/// Cutting at a non-empty `m` leaves no `m`, and keeps out what was not there.
proof fn lemma_cut_at(t: Seq<char>, m: Seq<char>, x: Seq<char>)
    requires
        m.len() > 0,
    ensures
        !contains(cut_at(t, m), m),
        !contains(t, x) ==> !contains(cut_at(t, m), x),
{
    lemma_find(t, m);
    if let Some(i) = find(t, m) {
        if !contains(t, x) {
            lemma_no_match_take(t, x, i);
        }
        assert(t.take(i) + t.skip(i) =~= t);
        lemma_find_append(t.take(i), t.skip(i), m);
        lemma_find(t.take(i), m);
    }
}

/// No channel opener is left once the channels are removed.
proof fn lemma_without_channels_clean(t: Seq<char>)
    ensures
        !contains(without_channels(t), channel_open()),
    decreases t.len(),
{
    let open = channel_open();
    let close = channel_close();
    lemma_find(t, open);
    if let Some(st) = find(t, open) {
        lemma_find(t.skip(st), close);
        match find(t.skip(st), close) {
            None => {
                lemma_cut_at(t, open, open);
            },
            Some(rel) => {
                lemma_without_channels_clean(t.take(st) + t.skip(st + rel + 10));
            },
        }
    }
}

/// The visible answer holds no end-of-turn token, no tool-call opener and no channel opener,
/// and making a visible answer of it again changes nothing.
pub proof fn lemma_visible_answer_clean(s: Seq<char>)
    ensures
        !contains(visible_answer(s), "<|im_end|>"@),
        !contains(visible_answer(s), "<end_of_turn>"@),
        !contains(visible_answer(s), "<turn|>"@),
        !contains(visible_answer(s), "</s>"@),
        !contains(visible_answer(s), "<|END_OF_TURN_TOKEN|>"@),
        !contains(visible_answer(s), "<|tool_call"@),
        !contains(visible_answer(s), "<tool_call"@),
        !contains(visible_answer(s), "[TOOL_CALLS"@),
        !contains(visible_answer(s), channel_open()),
        visible_answer(visible_answer(s)) == visible_answer(s),
{
    reveal_strlit("<|im_end|>");
    reveal_strlit("<end_of_turn>");
    reveal_strlit("<turn|>");
    reveal_strlit("</s>");
    reveal_strlit("<|END_OF_TURN_TOKEN|>");
    reveal_strlit("<|tool_call");
    reveal_strlit("<tool_call");
    reveal_strlit("[TOOL_CALLS");
    let ms: Seq<Seq<char>> = seq![
        "<|im_end|>"@, "<end_of_turn>"@, "<turn|>"@, "</s>"@, "<|END_OF_TURN_TOKEN|>"@,
        "<|tool_call"@, "<tool_call"@, "[TOOL_CALLS"@,
    ];
    let t0 = without_channels(s);
    lemma_without_channels_clean(s);
    // after the k-th cut, none of the first k markers nor the channel opener is left
    let t1 = cut_at(t0, ms[0]);
    let t2 = cut_at(t1, ms[1]);
    let t3 = cut_at(t2, ms[2]);
    let t4 = cut_at(t3, ms[3]);
    let t5 = cut_at(t4, ms[4]);
    let t6 = cut_at(t5, ms[5]);
    let t7 = cut_at(t6, ms[6]);
    let t8 = cut_at(t7, ms[7]);
    assert(t8 == cut_at(cut_at(cut_at(cut_at(cut_at(cut_at(cut_at(cut_at(t0, "<|im_end|>"@),
        "<end_of_turn>"@), "<turn|>"@), "</s>"@), "<|END_OF_TURN_TOKEN|>"@), "<|tool_call"@),
        "<tool_call"@), "[TOOL_CALLS"@));
    let o = channel_open();
    lemma_cut_at(t0, ms[0], o);
    lemma_cut_at(t1, ms[1], o);
    lemma_cut_at(t1, ms[1], ms[0]);
    lemma_cut_at(t2, ms[2], o);
    lemma_cut_at(t2, ms[2], ms[0]);
    lemma_cut_at(t2, ms[2], ms[1]);
    lemma_cut_at(t3, ms[3], o);
    lemma_cut_at(t3, ms[3], ms[0]);
    lemma_cut_at(t3, ms[3], ms[1]);
    lemma_cut_at(t3, ms[3], ms[2]);
    lemma_cut_at(t4, ms[4], o);
    lemma_cut_at(t4, ms[4], ms[0]);
    lemma_cut_at(t4, ms[4], ms[1]);
    lemma_cut_at(t4, ms[4], ms[2]);
    lemma_cut_at(t4, ms[4], ms[3]);
    lemma_cut_at(t5, ms[5], o);
    lemma_cut_at(t5, ms[5], ms[0]);
    lemma_cut_at(t5, ms[5], ms[1]);
    lemma_cut_at(t5, ms[5], ms[2]);
    lemma_cut_at(t5, ms[5], ms[3]);
    lemma_cut_at(t5, ms[5], ms[4]);
    lemma_cut_at(t6, ms[6], o);
    lemma_cut_at(t6, ms[6], ms[0]);
    lemma_cut_at(t6, ms[6], ms[1]);
    lemma_cut_at(t6, ms[6], ms[2]);
    lemma_cut_at(t6, ms[6], ms[3]);
    lemma_cut_at(t6, ms[6], ms[4]);
    lemma_cut_at(t6, ms[6], ms[5]);
    lemma_cut_at(t7, ms[7], o);
    lemma_cut_at(t7, ms[7], ms[0]);
    lemma_cut_at(t7, ms[7], ms[1]);
    lemma_cut_at(t7, ms[7], ms[2]);
    lemma_cut_at(t7, ms[7], ms[3]);
    lemma_cut_at(t7, ms[7], ms[4]);
    lemma_cut_at(t7, ms[7], ms[5]);
    lemma_cut_at(t7, ms[7], ms[6]);
    let v = trim(t8);
    assert(v == visible_answer(s));
    lemma_no_match_trim(t8, o);
    lemma_no_match_trim(t8, ms[0]);
    lemma_no_match_trim(t8, ms[1]);
    lemma_no_match_trim(t8, ms[2]);
    lemma_no_match_trim(t8, ms[3]);
    lemma_no_match_trim(t8, ms[4]);
    lemma_no_match_trim(t8, ms[5]);
    lemma_no_match_trim(t8, ms[6]);
    lemma_no_match_trim(t8, ms[7]);
    // a second pass finds nothing to remove or cut
    assert(without_channels(v) == v);
    assert(cut_at(v, ms[0]) == v);
    assert(cut_at(v, ms[1]) == v);
    assert(cut_at(v, ms[2]) == v);
    assert(cut_at(v, ms[3]) == v);
    assert(cut_at(v, ms[4]) == v);
    assert(cut_at(v, ms[5]) == v);
    assert(cut_at(v, ms[6]) == v);
    assert(cut_at(v, ms[7]) == v);
    lemma_trim_idempotent(t8);
}

/// Stripping the markers twice gives the same text as stripping them once
/// (`strip_markers(strip_markers(s)) == strip_markers(s)`).
pub proof fn lemma_strip_markers_idempotent(s: Seq<char>)
    ensures
        visible_answer(visible_answer(s)) == visible_answer(s),
{
    lemma_visible_answer_clean(s);
}

} // verus!
