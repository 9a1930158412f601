//! Streaming router: decides, piece by piece, which part of the model's output is shown to the
//! user and which is held back or hidden.
//!
//! In order:
//!   1. Gemma's thinking channels (`<|channel>…<channel|>`) are internal reasoning: every one is
//!      hidden, and while one is open nothing after its opener is shown;
//!   2. from a tool-call opener (`<tool_call` or `<|tool_call`) on, everything is suppressed;
//!      the prose before it is shown;
//!   3. a tail that could be the start of a tool-call or channel opener is held back until it
//!      is known whether it becomes one; at the end of the stream it is shown.
use vstd::prelude::*;
use crate::chars::{
    find, find_exec, lemma_find, matches_at, slice, from_chars, append_str, append_chars, contains_exec,
    contains, ends_with, lemma_find_append, lemma_find_skip, lemma_matches_at_append,
    lemma_matches_at_skip,
};
use crate::markers::{
    call_prefix_tail, call_prefix_tail_exec, channel_close, channel_close_exec, channel_open,
    channel_open_exec, gemma_call_marker, gemma_call_marker_exec, qwen_call_marker,
    qwen_call_marker_exec, lemma_call_prefix_tail_bound, lemma_call_prefix_tail_growth,
    lemma_marker_tail_max, marker_tail, mistral_call_marker, max2, marker_tail_exec,
    lemma_marker_tail_growth, lemma_longest_tail,
};

verus! {

/// The state of a [`StreamRouter`].
pub struct RouterState {
    /// Everything the model produced so far.
    pub raw: Seq<char>,
    /// How much of `raw` has been handed to the user (or skipped as hidden).
    pub emitted: int,
    /// A tool-call block has started: nothing more is shown.
    pub suppress: bool,
}

/// Position of the first Qwen or Gemma tool-call opener at or after `emitted`.
pub open spec fn next_marker(raw: Seq<char>, emitted: int) -> Option<int> {
    let tail = raw.skip(emitted);
    match (find(tail, gemma_call_marker()), find(tail, qwen_call_marker())) {
        (Some(a), Some(b)) => Some(if a <= b { a } else { b } + emitted),
        (Some(a), None) => Some(a + emitted),
        (None, Some(b)) => Some(b + emitted),
        (None, None) => None,
    }
}

/// Position of the first thinking-channel opener at or after `e`.
pub open spec fn opener_at(raw: Seq<char>, e: int) -> Option<int> {
    match find(raw.skip(e), channel_open()) {
        Some(a) => Some(a + e),
        None => None,
    }
}

/// Where the channel opened at `c` ends: just past its first closer (`None` while open).
pub open spec fn closer_after(raw: Seq<char>, c: int) -> Option<int> {
    match find(raw.skip(c), channel_close()) {
        Some(r) => Some(c + r + 10),
        None => None,
    }
}

/// How many trailing characters are held back: the longest tail that could start a tool-call
/// or a channel opener.
pub open spec fn held_tail(raw: Seq<char>) -> int {
    max2(call_prefix_tail(raw), marker_tail(raw, channel_open()))
}

/// What the router does with `raw` from position `e` on: the new emitted mark, whether a tool
/// call has started, and the text shown.  A tool-call opener before any channel opener ends
/// the showing at it; a closed channel is skipped and the routing goes on after it; an open
/// channel stops the showing where it opens; otherwise everything but the held-back tail is
/// shown.
pub open spec fn route_from(raw: Seq<char>, e: int) -> (int, bool, Seq<char>)
    decreases raw.len() - e,
{
    if e < 0 || e > raw.len() {
        (e, false, seq![])
    } else {
        let tc = next_marker(raw, e);
        let ch = opener_at(raw, e);
        if tc is Some && (ch is None || tc->0 < ch->0) {
            (raw.len() as int, true, raw.subrange(e, tc->0))
        } else if ch is Some {
            let c = ch->0;
            match closer_after(raw, c) {
                Some(z) => if e < z && z <= raw.len() {
                    let r = route_from(raw, z);
                    (r.0, r.1, raw.subrange(e, c) + r.2)
                } else {
                    (e, false, seq![])
                },
                None => (c, false, raw.subrange(e, c)),
            }
        } else {
            let u = raw.len() - held_tail(raw);
            if u > e {
                (u, false, raw.subrange(e, u))
            } else {
                (e, false, seq![])
            }
        }
    }
}

/// `push`: the new state and the text to show now.
pub open spec fn route_push(st: RouterState, piece: Seq<char>) -> (RouterState, Seq<char>) {
    let raw = st.raw + piece;
    if st.suppress {
        (RouterState { raw, ..st }, seq![])
    } else {
        let r = route_from(raw, st.emitted);
        (RouterState { raw, emitted: r.0, suppress: r.1 }, r.2)
    }
}

/// `finish`: the new state and the last text to show: the whole remaining tail, unless a tool
/// call has started or a thinking channel is still open in it.
pub open spec fn route_finish(st: RouterState) -> (RouterState, Seq<char>) {
    if st.suppress || contains(st.raw.skip(st.emitted), channel_open()) || st.emitted >= st.raw.len() {
        (st, seq![])
    } else {
        (RouterState { emitted: st.raw.len() as int, ..st }, st.raw.subrange(st.emitted, st.raw.len() as int))
    }
}

/// The router's state is consistent: what has been emitted is part of the text.
pub open spec fn router_wf(s: RouterState) -> bool {
    0 <= s.emitted <= s.raw.len()
}

/// The state of a router that has seen nothing.
pub open spec fn router_start() -> RouterState {
    RouterState { raw: seq![], emitted: 0, suppress: false }
}

proof fn lemma_held_tail_bound(raw: Seq<char>)
    ensures
        0 <= held_tail(raw) <= raw.len(),
        held_tail(raw) >= call_prefix_tail(raw),
        held_tail(raw) >= marker_tail(raw, channel_open()),
{
    lemma_call_prefix_tail_bound(raw);
    let m = channel_open();
    lemma_longest_tail(raw, m, if m.len() < raw.len() { m.len() as int } else { raw.len() as int });
}

/// Routing from `e` never moves the emitted mark back nor past the text.
proof fn lemma_route_from_bounds(raw: Seq<char>, e: int)
    requires
        0 <= e <= raw.len(),
    ensures
        e <= route_from(raw, e).0 <= raw.len(),
    decreases raw.len() - e,
{
    lemma_held_tail_bound(raw);
    let tc = next_marker(raw, e);
    let ch = opener_at(raw, e);
    if tc is Some && (ch is None || tc->0 < ch->0) {
    } else if ch is Some {
        let c = ch->0;
        lemma_find(raw.skip(e), channel_open());
        match closer_after(raw, c) {
            Some(z) => if e < z && z <= raw.len() {
                lemma_route_from_bounds(raw, z);
            },
            None => {},
        }
    }
}

/// Decides which part of a streamed model output is shown to the user.
pub struct StreamRouter {
    raw: Vec<char>,
    emitted: usize,
    suppress: bool,
}

impl View for StreamRouter {
    type V = RouterState;

    closed spec fn view(&self) -> RouterState {
        RouterState { raw: self.raw@, emitted: self.emitted as int, suppress: self.suppress }
    }
}

/// Position of the first Qwen or Gemma tool-call opener at or after `e`.
fn marker_from(raw: &Vec<char>, e: usize) -> (r: Option<usize>)
    requires
        e <= raw.len(),
    ensures
        r matches Some(p) ==> next_marker(raw@, e as int) == Some(p as int) && e <= p <= raw.len(),
        r is None ==> next_marker(raw@, e as int) is None,
{
    let tail = slice(raw, e, raw.len());
    assert(tail@ =~= raw@.skip(e as int));
    let gm = gemma_call_marker_exec();
    let qm = qwen_call_marker_exec();
    let a = find_exec(&tail, &gm);
    let b = find_exec(&tail, &qm);
    proof {
        lemma_find(tail@, gm@);
        lemma_find(tail@, qm@);
    }
    match (a, b) {
        (Some(a), Some(b)) => {
            assert(matches_at(tail@, gm@, a as int));
            assert(matches_at(tail@, qm@, b as int));
            Some(if a <= b { a } else { b } + e)
        },
        (Some(a), None) => {
            assert(matches_at(tail@, gm@, a as int));
            Some(a + e)
        },
        (None, Some(b)) => {
            assert(matches_at(tail@, qm@, b as int));
            Some(b + e)
        },
        (None, None) => None,
    }
}

/// Position of the first channel opener at or after `e`.
fn opener_from(raw: &Vec<char>, e: usize) -> (r: Option<usize>)
    requires
        e <= raw.len(),
    ensures
        r matches Some(c) ==> opener_at(raw@, e as int) == Some(c as int) && e <= c && c + 10 <= raw.len(),
        r is None ==> opener_at(raw@, e as int) is None,
{
    let tail = slice(raw, e, raw.len());
    assert(tail@ =~= raw@.skip(e as int));
    let open = channel_open_exec();
    let a = find_exec(&tail, &open);
    proof {
        lemma_find(tail@, open@);
    }
    match a {
        Some(a) => {
            assert(matches_at(tail@, open@, a as int));
            Some(a + e)
        },
        None => None,
    }
}

/// Where the channel opened at `c` ends (just past its closer), when it is closed.
fn closer_from(raw: &Vec<char>, c: usize) -> (r: Option<usize>)
    requires
        c <= raw.len(),
    ensures
        r matches Some(z) ==> closer_after(raw@, c as int) == Some(z as int) && c + 10 <= z <= raw.len(),
        r is None ==> closer_after(raw@, c as int) is None,
{
    let tail = slice(raw, c, raw.len());
    assert(tail@ =~= raw@.skip(c as int));
    let close = channel_close_exec();
    let a = find_exec(&tail, &close);
    proof {
        lemma_find(tail@, close@);
    }
    match a {
        Some(a) => {
            assert(matches_at(tail@, close@, a as int));
            Some(c + a + 10)
        },
        None => None,
    }
}

/// The held-back tail computed (see [`held_tail`]).
fn held_tail_exec(raw: &Vec<char>) -> (r: usize)
    ensures
        r == held_tail(raw@),
{
    let a = call_prefix_tail_exec(raw);
    let b = marker_tail_exec(raw, &channel_open_exec());
    if a >= b {
        a
    } else {
        b
    }
}

impl StreamRouter {
    /// A router that has seen nothing.
    pub fn new() -> (r: Self)
        ensures
            r@ == router_start(),
    {
        StreamRouter { raw: Vec::new(), emitted: 0, suppress: false }
    }

    /// Takes a piece of the model's output and returns the text to show now (empty when
    /// nothing can be shown yet: inside a tool call, inside an open thinking channel, or on a
    /// tail that may become an opener).
    pub fn push(&mut self, piece: &str) -> (out: String)
        requires
            router_wf(old(self)@),
        ensures
            router_wf(final(self)@),
            (final(self)@, out@) == route_push(old(self)@, piece@),
    {
        append_str(&mut self.raw, piece);
        if self.suppress {
            return String::new();
        }
        let ghost raw = self.raw@;
        let ghost e0 = self.emitted as int;
        let ghost target = route_from(raw, e0);
        let mut out: Vec<char> = Vec::new();
        let mut e = self.emitted;
        loop
            invariant
                e <= self.raw.len(),
                self.raw@ == raw,
                raw == old(self)@.raw + piece@,
                e0 == old(self)@.emitted,
                !old(self)@.suppress,
                !self.suppress,
                target == route_from(raw, e0),
                route_from(raw, e as int).0 == target.0,
                route_from(raw, e as int).1 == target.1,
                out@ + route_from(raw, e as int).2 == target.2,
            decreases self.raw.len() - e,
        {
            let tc = marker_from(&self.raw, e);
            let ch = opener_from(&self.raw, e);
            let tool_first = match (tc, ch) {
                (Some(t), Some(c)) => t < c,
                (Some(_), None) => true,
                _ => false,
            };
            if tool_first {
                let t = tc.unwrap();
                let piece = slice(&self.raw, e, t);
                let ghost before = out@;
                append_chars(&mut out, &piece);
                assert(out@ == before + raw.subrange(e as int, t as int));
                self.emitted = self.raw.len();
                self.suppress = true;
                assert(out@ =~= target.2);
                return from_chars(out.as_slice());
            }
            match ch {
                Some(c) => {
                    let piece = slice(&self.raw, e, c);
                    let ghost before = out@;
                    append_chars(&mut out, &piece);
                    match closer_from(&self.raw, c) {
                        Some(z) => {
                            assert(out@ + route_from(raw, z as int).2 =~= before + (raw.subrange(e as int, c as int)
                                + route_from(raw, z as int).2));
                            e = z;
                        },
                        None => {
                            self.emitted = c;
                            assert(out@ =~= target.2);
                            return from_chars(out.as_slice());
                        },
                    }
                },
                None => {
                    let h = held_tail_exec(&self.raw);
                    proof {
                        lemma_held_tail_bound(raw);
                    }
                    let u = self.raw.len() - h;
                    if u > e {
                        let piece = slice(&self.raw, e, u);
                        append_chars(&mut out, &piece);
                        self.emitted = u;
                    } else {
                        self.emitted = e;
                    }
                    assert(out@ =~= target.2);
                    return from_chars(out.as_slice());
                },
            }
        }
    }

    /// End of generation: the remaining tail, unless inside a tool call or a thinking channel
    /// that is still open (then the tail is all hidden material).
    pub fn finish(&mut self) -> (out: String)
        requires
            router_wf(old(self)@),
        ensures
            router_wf(final(self)@),
            (final(self)@, out@) == route_finish(old(self)@),
    {
        if self.suppress || self.emitted >= self.raw.len() {
            return String::new();
        }
        let rest = slice(&self.raw, self.emitted, self.raw.len());
        assert(rest@ =~= self.raw@.skip(self.emitted as int));
        let open = channel_open_exec();
        if contains_exec(&rest, &open) {
            return String::new();
        }
        self.emitted = self.raw.len();
        from_chars(rest.as_slice())
    }

    /// The complete raw output (for tool-call extraction and the final marker strip).
    pub fn into_raw(self) -> (r: String)
        ensures
            r@ == self@.raw,
    {
        from_chars(self.raw.as_slice())
    }
}

/// The concatenation of the pieces of a stream.
pub open spec fn concat(pieces: Seq<Seq<char>>) -> Seq<char>
    decreases pieces.len(),
{
    if pieces.len() == 0 {
        seq![]
    } else {
        concat(pieces.drop_last()) + pieces.last()
    }
}

/// A fresh router fed `pieces` one by one: its state and all the text it showed.
pub open spec fn route_all(pieces: Seq<Seq<char>>) -> (RouterState, Seq<char>)
    decreases pieces.len(),
{
    if pieces.len() == 0 {
        (router_start(), seq![])
    } else {
        let prev = route_all(pieces.drop_last());
        let step = route_push(prev.0, pieces.last());
        (step.0, prev.1 + step.1)
    }
}

/// Everything a fresh router shows for a whole stream, `finish` included.
pub open spec fn shown(pieces: Seq<Seq<char>>) -> Seq<char> {
    route_all(pieces).1 + route_finish(route_all(pieces).0).1
}

/// The prose of a model output that carries no thinking channel: the text before the first
/// Qwen or Gemma tool-call opener, or the whole text without one.
pub open spec fn prose_before_call(raw: Seq<char>) -> Seq<char> {
    match next_marker(raw, 0) {
        Some(t) => raw.take(t),
        None => raw,
    }
}

/// A text without a channel opener has none from any position on.
proof fn lemma_no_opener_from(raw: Seq<char>, e: int)
    requires
        !contains(raw, channel_open()),
        0 <= e <= raw.len(),
    ensures
        opener_at(raw, e) is None,
        !contains(raw.skip(e), channel_open()),
{
    lemma_find(raw, channel_open());
    lemma_find(raw.skip(e), channel_open());
    if let Some(j) = find(raw.skip(e), channel_open()) {
        lemma_matches_at_skip(raw, channel_open(), e, j);
    }
}

proof fn lemma_no_channel_prefix(a: Seq<char>, b: Seq<char>)
    requires
        !contains(a + b, channel_open()),
    ensures
        !contains(a, channel_open()),
{
    lemma_find_append(a, b, channel_open());
}

/// Appending `p` lengthens the held-back tail by at most `p`'s length.
proof fn lemma_held_tail_growth(a: Seq<char>, p: Seq<char>)
    ensures
        held_tail(a + p) <= held_tail(a) + p.len(),
{
    lemma_call_prefix_tail_growth(a, p);
    lemma_marker_tail_growth(a, p, channel_open());
}

/// The first opener of a text stays the first opener when text is appended.
proof fn lemma_next_marker_append(a: Seq<char>, b: Seq<char>)
    requires
        next_marker(a, 0) is Some,
    ensures
        next_marker(a + b, 0) == next_marker(a, 0),
{
    let g = gemma_call_marker();
    let q = qwen_call_marker();
    assert(a.skip(0) =~= a);
    assert((a + b).skip(0) =~= a + b);
    lemma_find_append(a, b, g);
    lemma_find_append(a, b, q);
    lemma_find(a, g);
    lemma_find(a, q);
}

/// With no opener in `raw0`, no opener of `raw0 + p` starts before what the router had
/// emitted (`raw0`'s length minus its held-back tail).
proof fn lemma_no_marker_before_emitted(raw0: Seq<char>, p: Seq<char>, m: Seq<char>, q: int)
    requires
        m == gemma_call_marker() || m == qwen_call_marker(),
        find(raw0, m) is None,
        0 <= q < raw0.len() - held_tail(raw0),
    ensures
        !matches_at(raw0 + p, m, q),
{
    let raw1 = raw0 + p;
    lemma_find(raw0, m);
    lemma_held_tail_bound(raw0);
    lemma_call_prefix_tail_bound(raw0);
    if matches_at(raw1, m, q) {
        if q + m.len() <= raw0.len() {
            lemma_matches_at_append(raw0, p, m, q);
        } else {
            let j = raw0.len() - q;
            assert forall|k: int| 0 <= k < j implies #[trigger] raw0.skip(raw0.len() - j)[k]
                == m.take(j)[k] by {
                assert(raw1.subrange(q, q + m.len())[k] == m[k]);
                assert(raw1[q + k] == raw0[q + k]);
                assert(raw0.skip(raw0.len() - j)[k] == raw0[q + k]);
                assert(m.take(j)[k] == m[k]);
            }
            assert(raw0.skip(raw0.len() - j) =~= m.take(j));
            assert(ends_with(raw0, m.take(j)));
            lemma_marker_tail_max(raw0, m, j);
        }
    }
}

/// What a fresh router has shown after each piece of a stream without thinking channel.
proof fn lemma_route_all_plain(pieces: Seq<Seq<char>>)
    requires
        !contains(concat(pieces), channel_open()),
    ensures
        route_all(pieces).0.raw == concat(pieces),
        router_wf(route_all(pieces).0),
        next_marker(concat(pieces), 0) is None ==> !route_all(pieces).0.suppress
            && route_all(pieces).0.emitted == concat(pieces).len() - held_tail(concat(pieces))
            && route_all(pieces).1 == concat(pieces).take(route_all(pieces).0.emitted),
        next_marker(concat(pieces), 0) matches Some(t) ==> route_all(pieces).0.suppress
            && route_all(pieces).1 == concat(pieces).take(t),
    decreases pieces.len(),
{
    lemma_held_tail_bound(concat(pieces));
    if pieces.len() == 0 {
        let e: Seq<char> = seq![];
        assert(e.skip(0) =~= e);
        assert(find(e, gemma_call_marker()) is None);
        assert(find(e, qwen_call_marker()) is None);
        assert(e.take(0) =~= e);
    } else {
        let prev = pieces.drop_last();
        let p = pieces.last();
        let raw0 = concat(prev);
        let raw1 = raw0 + p;
        assert(concat(pieces) == raw1);
        lemma_no_channel_prefix(raw0, p);
        lemma_route_all_plain(prev);
        lemma_held_tail_bound(raw0);
        let s = route_all(prev).0;
        let out = route_all(prev).1;
        let g = gemma_call_marker();
        let q = qwen_call_marker();
        match next_marker(raw0, 0) {
            Some(t) => {
                lemma_next_marker_append(raw0, p);
                assert(raw0.skip(0) =~= raw0);
                lemma_find(raw0, g);
                lemma_find(raw0, q);
                assert(t <= raw0.len());
                assert(raw0.take(t) =~= raw1.take(t));
                assert(out + seq![] =~= out);
            },
            None => {
                let e = s.emitted;
                lemma_no_opener_from(raw1, e);
                assert(raw0.skip(0) =~= raw0);
                assert(raw1.skip(0) =~= raw1);
                lemma_find(raw0, g);
                lemma_find(raw0, q);
                assert forall|x: int| 0 <= x < e implies !matches_at(raw1, g, x) by {
                    lemma_no_marker_before_emitted(raw0, p, g, x);
                }
                assert forall|x: int| 0 <= x < e implies !matches_at(raw1, q, x) by {
                    lemma_no_marker_before_emitted(raw0, p, q, x);
                }
                lemma_find_skip(raw1, g, e);
                lemma_find_skip(raw1, q, e);
                assert(next_marker(raw1, e) == next_marker(raw1, 0));
                assert(raw0.take(e) =~= raw1.take(e));
                match next_marker(raw1, 0) {
                    Some(tc) => {
                        lemma_find(raw1, g);
                        lemma_find(raw1, q);
                        assert(tc >= e);
                        assert(raw1.take(e) + raw1.subrange(e, tc) =~= raw1.take(tc));
                    },
                    None => {
                        lemma_held_tail_growth(raw0, p);
                        lemma_held_tail_bound(raw1);
                        let u = raw1.len() - held_tail(raw1);
                        assert(raw1.take(e) + raw1.subrange(e, u) =~= raw1.take(u));
                        assert(raw1.take(e) + seq![] =~= raw1.take(e));
                    },
                }
            },
        }
    }
}

/// On a stream without thinking channel, a fresh router shows exactly the prose before the
/// first tool-call opener, or the whole output when there is none, however the output is cut
/// into pieces: a tail held back as a possible opener is shown at the end.
pub proof fn lemma_stream_shows_prose(pieces: Seq<Seq<char>>)
    requires
        !contains(concat(pieces), channel_open()),
    ensures
        shown(pieces) == prose_before_call(concat(pieces)),
{
    lemma_route_all_plain(pieces);
    let s = route_all(pieces).0;
    let raw = concat(pieces);
    lemma_held_tail_bound(raw);
    if !s.suppress {
        lemma_no_opener_from(raw, s.emitted);
        assert(raw.take(s.emitted) + raw.subrange(s.emitted, raw.len() as int) =~= raw);
        assert(raw.take(raw.len() as int) =~= raw);
        assert(raw.take(s.emitted) + seq![] =~= raw.take(s.emitted));
    } else {
        assert(route_all(pieces).1 + seq![] =~= route_all(pieces).1);
    }
}

/// The raw text a router holds is everything it was given, whatever it showed.
pub proof fn lemma_stream_keeps_raw(pieces: Seq<Seq<char>>)
    ensures
        route_all(pieces).0.raw == concat(pieces),
        route_finish(route_all(pieces).0).0.raw == concat(pieces),
    decreases pieces.len(),
{
    if pieces.len() > 0 {
        lemma_stream_keeps_raw(pieces.drop_last());
    }
}

/// Once a tool call has started, nothing more is shown: every later piece and the end of the
/// stream show nothing, and the router stays suppressed.
pub proof fn lemma_suppression_is_final(s: RouterState, piece: Seq<char>)
    requires
        s.suppress,
    ensures
        route_push(s, piece).1 == Seq::<char>::empty(),
        route_push(s, piece).0.suppress,
        route_finish(s).1 == Seq::<char>::empty(),
        route_finish(s).0.suppress,
{
}

/// The emitted mark never moves back, and stays within the text.
pub proof fn lemma_push_moves_forward(s: RouterState, piece: Seq<char>)
    requires
        router_wf(s),
    ensures
        route_push(s, piece).0.emitted >= s.emitted,
        router_wf(route_push(s, piece).0),
{
    if !s.suppress {
        lemma_route_from_bounds(s.raw + piece, s.emitted);
    }
}

/// The text from `x` on of `r0 + p` is that of `r0` followed by `p`.
proof fn lemma_skip_append(r0: Seq<char>, p: Seq<char>, x: int)
    requires
        0 <= x <= r0.len(),
    ensures
        (r0 + p).skip(x) == r0.skip(x) + p,
{
    assert((r0 + p).skip(x) =~= r0.skip(x) + p);
}

/// A tool-call opener and a channel opener never start at the same place.
proof fn lemma_openers_differ(r: Seq<char>, m: Seq<char>, i: int)
    requires
        m == gemma_call_marker() || m == qwen_call_marker(),
        matches_at(r, m, i),
    ensures
        !matches_at(r, channel_open(), i),
{
    if matches_at(r, channel_open(), i) {
        let o = channel_open();
        assert(r.subrange(i, i + m.len())[1] == m[1]);
        assert(r.subrange(i, i + m.len())[2] == m[2]);
        assert(r.subrange(i, i + o.len())[1] == o[1]);
        assert(r.subrange(i, i + o.len())[2] == o[2]);
        assert(r[i + 1] == m[1]);
        assert(r[i + 2] == m[2]);
        assert(r[i + 1] == o[1]);
        assert(r[i + 2] == o[2]);
    }
}

/// The first match from `x` on, when it is at or after `y`, is also the first from `y` on.
proof fn lemma_find_from_later(r: Seq<char>, m: Seq<char>, x: int, y: int)
    requires
        0 <= x <= y <= r.len(),
        find(r.skip(x), m) matches Some(j) ==> j + x >= y,
    ensures
        (match find(r.skip(y), m) {
            Some(j) => Some(j + y),
            None => None::<int>,
        }) == (match find(r.skip(x), m) {
            Some(j) => Some(j + x),
            None => None::<int>,
        }),
{
    let h = r.skip(x);
    lemma_find(h, m);
    assert(h.skip(y - x) =~= r.skip(y));
    assert forall|q: int| 0 <= q < y - x implies !matches_at(h, m, q) by {
        if let Some(j) = find(h, m) {
            assert(q < j);
        }
    }
    lemma_find_skip(h, m, y - x);
}

/// With nothing starting in between, the routing decisions from `y` are those from `x`.
proof fn lemma_route_tests_from_later(r: Seq<char>, x: int, y: int)
    requires
        0 <= x <= y <= r.len(),
        next_marker(r, x) matches Some(t) ==> t >= y,
        opener_at(r, x) matches Some(c) ==> c >= y,
    ensures
        next_marker(r, y) == next_marker(r, x),
        opener_at(r, y) == opener_at(r, x),
{
    lemma_find_from_later(r, gemma_call_marker(), x, y);
    lemma_find_from_later(r, qwen_call_marker(), x, y);
    lemma_find_from_later(r, channel_open(), x, y);
}

/// Routing from `x` shows `raw[x..y]` and then routes from `y`, when no opener starts between
/// them (and, with no opener at all, when `y` is not past the held-back tail).
proof fn lemma_route_shift(r: Seq<char>, x: int, y: int)
    requires
        0 <= x <= y <= r.len(),
        next_marker(r, x) matches Some(t) ==> t >= y,
        opener_at(r, x) matches Some(c) ==> c >= y,
        (next_marker(r, x) is None && opener_at(r, x) is None) ==> (y == x || y <= r.len() - held_tail(r)),
    ensures
        route_from(r, x) == (route_from(r, y).0, route_from(r, y).1, r.subrange(x, y) + route_from(r, y).2),
{
    if y == x {
        assert(r.subrange(x, x) + route_from(r, x).2 =~= route_from(r, x).2);
    } else {
        lemma_route_tests_from_later(r, x, y);
        lemma_held_tail_bound(r);
        lemma_find(r.skip(x), gemma_call_marker());
        lemma_find(r.skip(x), qwen_call_marker());
        let tc = next_marker(r, x);
        let ch = opener_at(r, x);
        if tc is Some && (ch is None || tc->0 < ch->0) {
            assert(r.subrange(x, tc->0) =~= r.subrange(x, y) + r.subrange(y, tc->0));
        } else if ch is Some {
            let c = ch->0;
            lemma_find(r.skip(x), channel_open());
            lemma_find(r.skip(c), channel_close());
            match closer_after(r, c) {
                Some(z) => {
                    let q = route_from(r, z);
                    assert(r.subrange(x, c) + q.2 =~= r.subrange(x, y) + (r.subrange(y, c) + q.2));
                },
                None => {
                    assert(r.subrange(x, c) =~= r.subrange(x, y) + r.subrange(y, c));
                },
            }
        } else {
            let u = r.len() - held_tail(r);
            if u > y {
                assert(r.subrange(x, u) =~= r.subrange(x, y) + r.subrange(y, u));
            } else {
                assert(r.subrange(x, y) + Seq::<char>::empty() =~= r.subrange(x, y));
            }
        }
    }
}

/// A tool-call or channel opener of `r0 + p` that starts before the part of `r0` held back,
/// and that `r0` does not hold from `x` on, does not exist.
proof fn lemma_no_match_before_hold(r0: Seq<char>, p: Seq<char>, m: Seq<char>, x: int, q: int)
    requires
        m == gemma_call_marker() || m == qwen_call_marker() || m == channel_open(),
        0 <= x <= q < r0.len() - held_tail(r0),
        find(r0.skip(x), m) is None,
    ensures
        !matches_at(r0 + p, m, q),
{
    let r1 = r0 + p;
    lemma_held_tail_bound(r0);
    lemma_call_prefix_tail_bound(r0);
    lemma_find(r0.skip(x), m);
    if matches_at(r1, m, q) {
        if q + m.len() <= r0.len() {
            lemma_matches_at_append(r0, p, m, q);
            lemma_matches_at_skip(r0, m, x, q - x);
        } else {
            let j = r0.len() - q;
            assert forall|k: int| 0 <= k < j implies #[trigger] r0.skip(r0.len() - j)[k] == m.take(j)[k] by {
                assert(r1.subrange(q, q + m.len())[k] == m[k]);
                assert(r1[q + k] == r0[q + k]);
            }
            assert(r0.skip(r0.len() - j) =~= m.take(j));
            lemma_marker_tail_max(r0, m, j);
        }
    }
}

/// Where the openers of `r0 + p` from `x` on lie, against those of `r0`: an opener `r0` has
/// stays the first; a new one reaches into `p`.
proof fn lemma_append_tests(r0: Seq<char>, p: Seq<char>, x: int)
    requires
        0 <= x <= r0.len(),
    ensures
        next_marker(r0, x) matches Some(t) ==> next_marker(r0 + p, x) == Some(t) && x <= t && t + 10 <= r0.len(),
        opener_at(r0, x) matches Some(c) ==> opener_at(r0 + p, x) == Some(c) && x <= c && c + 10 <= r0.len(),
        next_marker(r0, x) is None ==> (next_marker(r0 + p, x) matches Some(t) ==> t + 11 > r0.len()),
        opener_at(r0, x) is None ==> (opener_at(r0 + p, x) matches Some(c) ==> c + 10 > r0.len()),
        next_marker(r0 + p, x) matches Some(t) ==> x <= t,
{
    let r1 = r0 + p;
    let g = gemma_call_marker();
    let qm = qwen_call_marker();
    let o = channel_open();
    lemma_skip_append(r0, p, x);
    let h0 = r0.skip(x);
    lemma_find_append(h0, p, g);
    lemma_find_append(h0, p, qm);
    lemma_find_append(h0, p, o);
    lemma_find(h0, g);
    lemma_find(h0, qm);
    lemma_find(h0, o);
    lemma_find(r1.skip(x), g);
    lemma_find(r1.skip(x), qm);
}

/// No tool-call opener starts where the first channel opener does.
proof fn lemma_call_not_at_channel(r: Seq<char>, x: int)
    requires
        0 <= x <= r.len(),
        next_marker(r, x) is Some,
        opener_at(r, x) is Some,
    ensures
        next_marker(r, x)->0 != opener_at(r, x)->0,
{
    let h = r.skip(x);
    lemma_find(h, gemma_call_marker());
    lemma_find(h, qwen_call_marker());
    lemma_find(h, channel_open());
    let c = opener_at(r, x)->0;
    if let Some(a) = find(h, gemma_call_marker()) {
        if a + x == c {
            lemma_openers_differ(h, gemma_call_marker(), a);
        }
    }
    if let Some(b) = find(h, qwen_call_marker()) {
        if b + x == c {
            lemma_openers_differ(h, qwen_call_marker(), b);
        }
    }
}

/// With no opener in `r0` from `x` on, `r0 + p` shows from `x` what `r0` showed, then routes
/// from where `r0` stopped.
proof fn lemma_append_hold(r0: Seq<char>, p: Seq<char>, x: int)
    requires
        0 <= x <= r0.len(),
        next_marker(r0, x) is None,
        opener_at(r0, x) is None,
    ensures
        !route_from(r0, x).1,
        route_from(r0 + p, x) == (
            route_from(r0 + p, route_from(r0, x).0).0,
            route_from(r0 + p, route_from(r0, x).0).1,
            route_from(r0, x).2 + route_from(r0 + p, route_from(r0, x).0).2,
        ),
{
    let r1 = r0 + p;
    let g = gemma_call_marker();
    let qm = qwen_call_marker();
    let o = channel_open();
    lemma_held_tail_bound(r0);
    lemma_held_tail_bound(r1);
    lemma_held_tail_growth(r0, p);
    let y = route_from(r0, x).0;
    lemma_route_from_bounds(r0, x);
    lemma_append_tests(r0, p, x);
    lemma_find(r1.skip(x), o);
    let h0 = r0.skip(x);
    lemma_find(h0, g);
    lemma_find(h0, qm);
    lemma_find(h0, o);
    if y > x {
        assert forall|q: int| x <= q < y implies !matches_at(r1, g, q) by {
            lemma_no_match_before_hold(r0, p, g, x, q);
        }
        assert forall|q: int| x <= q < y implies !matches_at(r1, qm, q) by {
            lemma_no_match_before_hold(r0, p, qm, x, q);
        }
        assert forall|q: int| x <= q < y implies !matches_at(r1, o, q) by {
            lemma_no_match_before_hold(r0, p, o, x, q);
        }
        let h1 = r1.skip(x);
        lemma_find(h1, g);
        lemma_find(h1, qm);
        lemma_find(h1, o);
        if let Some(a) = find(h1, g) {
            lemma_matches_at_skip(r1, g, x, a);
            assert(a + x >= y);
        }
        if let Some(b) = find(h1, qm) {
            lemma_matches_at_skip(r1, qm, x, b);
            assert(b + x >= y);
        }
        if let Some(c) = find(h1, o) {
            lemma_matches_at_skip(r1, o, x, c);
            assert(c + x >= y);
        }
        assert(next_marker(r1, x) matches Some(t) ==> t >= y);
        assert(opener_at(r1, x) matches Some(c) ==> c >= y);
    }
    lemma_route_shift(r1, x, y);
    assert(r1.subrange(x, y) =~= r0.subrange(x, y));
}

/// What `r0 + p` shows from `x` on: what `r0` showed from `x` on, then, unless a tool call had
/// started, the routing of `r0 + p` from where `r0` stopped.
proof fn lemma_route_append(r0: Seq<char>, p: Seq<char>, x: int)
    requires
        0 <= x <= r0.len(),
    ensures
        route_from(r0, x).1 ==> (route_from(r0 + p, x).1 && route_from(r0 + p, x).2 == route_from(r0, x).2),
        !route_from(r0, x).1 ==> route_from(r0 + p, x) == (
            route_from(r0 + p, route_from(r0, x).0).0,
            route_from(r0 + p, route_from(r0, x).0).1,
            route_from(r0, x).2 + route_from(r0 + p, route_from(r0, x).0).2,
        ),
    decreases r0.len() - x,
{
    let r1 = r0 + p;
    lemma_append_tests(r0, p, x);
    let tc0 = next_marker(r0, x);
    let ch0 = opener_at(r0, x);
    let tc1 = next_marker(r1, x);
    let ch1 = opener_at(r1, x);
    if tc0 is Some && (ch0 is None || tc0->0 < ch0->0) {
        let t = tc0->0;
        assert(r1.subrange(x, t) =~= r0.subrange(x, t));
    } else if ch0 is Some {
        let c = ch0->0;
        if tc0 is Some {
            lemma_call_not_at_channel(r0, x);
        }
        if tc1 is Some {
            lemma_call_not_at_channel(r1, x);
        }
        assert(tc1 is None || tc1->0 > c);
        lemma_skip_append(r0, p, c);
        lemma_find_append(r0.skip(c), p, channel_close());
        lemma_find(r0.skip(c), channel_close());
        match closer_after(r0, c) {
            Some(z) => {
                assert(closer_after(r1, c) == Some(z));
                lemma_route_append(r0, p, z);
                assert(r1.subrange(x, c) =~= r0.subrange(x, c));
                let q0 = route_from(r0, z);
                if !q0.1 {
                    let q1 = route_from(r1, q0.0);
                    assert(r0.subrange(x, c) + (q0.2 + q1.2) =~= (r0.subrange(x, c) + q0.2) + q1.2);
                }
            },
            None => {
                lemma_route_shift(r1, x, c);
                assert(r1.subrange(x, c) =~= r0.subrange(x, c));
            },
        }
    } else {
        lemma_append_hold(r0, p, x);
    }
}

/// A fresh router fed the pieces one by one is where routing their concatenation from the
/// start leaves it: the same text shown, the same suppression, the same emitted mark.
proof fn lemma_route_all_whole(pieces: Seq<Seq<char>>)
    ensures
        route_all(pieces).0.raw == concat(pieces),
        router_wf(route_all(pieces).0),
        route_all(pieces).0.suppress == route_from(concat(pieces), 0).1,
        route_all(pieces).1 == route_from(concat(pieces), 0).2,
        !route_all(pieces).0.suppress ==> route_all(pieces).0.emitted == route_from(concat(pieces), 0).0,
    decreases pieces.len(),
{
    if pieces.len() == 0 {
        let e: Seq<char> = seq![];
        assert(e.skip(0) =~= e);
        lemma_held_tail_bound(e);
    } else {
        let prev = pieces.drop_last();
        let p = pieces.last();
        lemma_route_all_whole(prev);
        let r0 = concat(prev);
        let r1 = r0 + p;
        assert(concat(pieces) == r1);
        lemma_route_append(r0, p, 0);
        let s = route_all(prev).0;
        if !s.suppress {
            lemma_route_from_bounds(r1, s.emitted);
            let q = route_from(r1, s.emitted);
            assert(route_all(pieces).1 == route_all(prev).1 + q.2);
        } else {
            assert(route_all(pieces).1 =~= route_all(prev).1);
        }
    }
}

/// Everything a router shows for a whole output given at once, `finish` included.
pub open spec fn shown_whole(raw: Seq<char>) -> Seq<char> {
    let r = route_from(raw, 0);
    r.2 + route_finish(RouterState { raw, emitted: r.0, suppress: r.1 }).1
}

/// However the output is cut into pieces (thinking channels, tool calls and held-back tails
/// included), a fresh router shows exactly what it shows for the whole output at once.
pub proof fn lemma_stream_cut_invariant(pieces: Seq<Seq<char>>)
    ensures
        shown(pieces) == shown_whole(concat(pieces)),
{
    lemma_route_all_whole(pieces);
    let s = route_all(pieces).0;
    let raw = concat(pieces);
    let r = route_from(raw, 0);
    let w = RouterState { raw, emitted: r.0, suppress: r.1 };
    if !s.suppress {
        assert(s == w);
    }
}

/// A tool-call opener met before any thinking channel ends what is shown, however the output
/// is cut: exactly the text before it is shown, nothing from it on.
pub proof fn lemma_call_before_channel_hides_rest(pieces: Seq<Seq<char>>)
    requires
        next_marker(concat(pieces), 0) is Some,
        opener_at(concat(pieces), 0) matches Some(c) ==> next_marker(concat(pieces), 0)->0 < c,
    ensures
        shown(pieces) == concat(pieces).take(next_marker(concat(pieces), 0)->0),
{
    lemma_stream_cut_invariant(pieces);
    let raw = concat(pieces);
    assert(raw.subrange(0, next_marker(raw, 0)->0) + Seq::<char>::empty() =~= raw.take(next_marker(raw, 0)->0));
}

/// A thinking channel that opens before any tool-call opener and closes is skipped, however
/// the output is cut: what is shown is the text before it, then what the rest shows after it.
pub proof fn lemma_closed_channel_is_skipped(pieces: Seq<Seq<char>>)
    requires
        opener_at(concat(pieces), 0) is Some,
        next_marker(concat(pieces), 0) matches Some(t) ==> t > opener_at(concat(pieces), 0)->0,
        closer_after(concat(pieces), opener_at(concat(pieces), 0)->0) is Some,
    ensures
        ({
            let raw = concat(pieces);
            let c = opener_at(raw, 0)->0;
            let z = closer_after(raw, c)->0;
            let r = route_from(raw, z);
            shown(pieces) == raw.take(c) + r.2 + route_finish(RouterState { raw, emitted: r.0, suppress: r.1 }).1
        }),
{
    lemma_stream_cut_invariant(pieces);
    let raw = concat(pieces);
    let c = opener_at(raw, 0)->0;
    lemma_find(raw.skip(0), channel_open());
    lemma_find(raw.skip(c), channel_close());
    let z = closer_after(raw, c)->0;
    let r = route_from(raw, z);
    let f = route_finish(RouterState { raw, emitted: r.0, suppress: r.1 }).1;
    assert(raw.subrange(0, c) =~= raw.take(c));
    assert((raw.take(c) + r.2) + f =~= raw.take(c) + r.2 + f);
}

} // verus!
