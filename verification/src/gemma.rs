//! Gemma's native tool-call syntax: `call:NAME{key:<|"|>text<|"|>,n:3,flag:true}`.
//!
//! It is not JSON: strings are delimited by the five-character token `<|"|>` (which opens and
//! closes a string alike), numbers and booleans are bare.  The functions here cut the braced
//! body, split it into `key:value` pairs at top-level commas, and type each value.
use vstd::prelude::*;
use crate::chars::{
    find, matches_at, matches_at_exec, slice, split_once_char, split_once_char_exec, to_chars,
    from_chars, trim, trim_exec, trim_end_char, trim_end_char_exec, trim_start_char,
    trim_start_char_exec, chars_eq,
};
use crate::num::{parse_i64, parse_i64_exec};

verus! {

/// The Gemma string delimiter `<|"|>`.
pub open spec fn gstr() -> Seq<char> {
    seq!['<', '|', '"', '|', '>']
}

fn gstr_exec() -> (g: Vec<char>)
    ensures
        g@ == gstr(),
{
    let g = vec!['<', '|', '"', '|', '>'];
    assert(g@ =~= gstr());
    g
}

/// Index of the `}` closing the braced body read from `i`, with `depth` open braces; braces
/// inside `<|"|>…<|"|>` strings do not count.
pub open spec fn gemma_close(s: Seq<char>, i: int, depth: int, in_str: bool) -> Option<int>
    decreases s.len() - i,
{
    if i < 0 || i >= s.len() {
        None
    } else if matches_at(s, gstr(), i) {
        gemma_close(s, i + 5, depth, !in_str)
    } else if !in_str && s[i] == '{' {
        gemma_close(s, i + 1, depth + 1, in_str)
    } else if !in_str && s[i] == '}' {
        if depth - 1 == 0 {
            Some(i)
        } else {
            gemma_close(s, i + 1, depth - 1, in_str)
        }
    } else {
        gemma_close(s, i + 1, depth, in_str)
    }
}

/// The braced body at the start of `s`: everything up to the `}` that brings the brace depth
/// back to zero.
pub open spec fn gemma_body(s: Seq<char>) -> Option<Seq<char>> {
    match gemma_close(s, 0, 0, false) {
        None => None,
        Some(e) => Some(s.take(e + 1)),
    }
}

pub proof fn lemma_gemma_close_range(s: Seq<char>, i: int, depth: int, in_str: bool)
    ensures
        gemma_close(s, i, depth, in_str) matches Some(e) ==> i <= e < s.len(),
    decreases s.len() - i,
{
    if i < 0 || i >= s.len() {
    } else if matches_at(s, gstr(), i) {
        lemma_gemma_close_range(s, i + 5, depth, !in_str);
    } else if !in_str && s[i] == '{' {
        lemma_gemma_close_range(s, i + 1, depth + 1, in_str);
    } else if !in_str && s[i] == '}' {
        if depth - 1 != 0 {
            lemma_gemma_close_range(s, i + 1, depth - 1, in_str);
        }
    } else {
        lemma_gemma_close_range(s, i + 1, depth, in_str);
    }
}

/// The braced body at the start of `v`.
pub fn gemma_body_exec(v: &Vec<char>) -> (r: Option<Vec<char>>)
    ensures
        r matches Some(b) ==> gemma_body(v@) == Some(b@),
        r is None ==> gemma_body(v@) is None,
{
    let g = gstr_exec();
    let mut opens: usize = 0;
    let mut closes: usize = 0;
    let mut in_str = false;
    let mut i: usize = 0;
    while i < v.len()
        invariant
            i <= v.len(),
            opens <= i,
            closes <= i,
            g@ == gstr(),
            gemma_close(v@, 0, 0, false) == gemma_close(v@, i as int, opens - closes, in_str),
        decreases v.len() - i,
    {
        if matches_at_exec(v, &g, i) {
            in_str = !in_str;
            i = i + 5;
        } else if !in_str && v[i] == '{' {
            opens = opens + 1;
            i = i + 1;
        } else if !in_str && v[i] == '}' {
            closes = closes + 1;
            if opens == closes {
                proof {
                    lemma_gemma_close_range(v@, 0, 0, false);
                }
                let r = slice(v, 0, i + 1);
                assert(r@ =~= v@.take(i + 1));
                return Some(r);
            }
            i = i + 1;
        } else {
            i = i + 1;
        }
    }
    None
}

/// Cuts the balanced `{…}` body at the start of `s`, ignoring braces inside `<|"|>` strings.
pub fn gemma_braced_body(s: &str) -> (r: Option<String>)
    ensures
        r matches Some(b) ==> gemma_body(s@) == Some(b@),
        r is None ==> gemma_body(s@) is None,
{
    let v = to_chars(s);
    match gemma_body_exec(&v) {
        None => None,
        Some(b) => Some(from_chars(b.as_slice())),
    }
}

/// The pieces of `s` from `i` on, separated at commas outside `<|"|>` strings; `start` is where
/// the current piece began.  A trailing piece is kept only when it is not blank.
pub open spec fn pairs_from(s: Seq<char>, i: int, start: int, in_str: bool) -> Seq<Seq<char>>
    decreases s.len() - i,
{
    if i < 0 || i >= s.len() {
        let cur = s.subrange(start, s.len() as int);
        if trim(cur).len() == 0 {
            seq![]
        } else {
            seq![cur]
        }
    } else if matches_at(s, gstr(), i) {
        pairs_from(s, i + 5, start, !in_str)
    } else if s[i] == ',' && !in_str {
        seq![s.subrange(start, i)] + pairs_from(s, i + 1, i + 1, in_str)
    } else {
        pairs_from(s, i + 1, start, in_str)
    }
}

/// `key:value` pieces of a Gemma argument list.
pub open spec fn gemma_pairs(s: Seq<char>) -> Seq<Seq<char>> {
    pairs_from(s, 0, 0, false)
}

/// The pieces of `v` separated at top-level commas.
pub fn gemma_pairs_exec(v: &Vec<char>) -> (r: Vec<Vec<char>>)
    ensures
        r.len() == gemma_pairs(v@).len(),
        forall|k: int| 0 <= k < r.len() ==> #[trigger] r@[k]@ == gemma_pairs(v@)[k],
{
    let g = gstr_exec();
    let mut r: Vec<Vec<char>> = Vec::new();
    let ghost done: Seq<Seq<char>> = seq![];
    let mut start: usize = 0;
    let mut in_str = false;
    let mut i: usize = 0;
    while i < v.len()
        invariant
            start <= i <= v.len(),
            g@ == gstr(),
            r.len() == done.len(),
            forall|k: int| 0 <= k < r.len() ==> #[trigger] r@[k]@ == done[k],
            done + pairs_from(v@, i as int, start as int, in_str) == gemma_pairs(v@),
        decreases v.len() - i,
    {
        if matches_at_exec(v, &g, i) {
            in_str = !in_str;
            i = i + 5;
        } else if v[i] == ',' && !in_str {
            let piece = slice(v, start, i);
            proof {
                let rest = pairs_from(v@, i + 1, i + 1, in_str);
                assert(done + (seq![piece@] + rest) =~= done.push(piece@) + rest);
                done = done.push(piece@);
            }
            r.push(piece);
            i = i + 1;
            start = i;
        } else {
            i = i + 1;
        }
    }
    let cur = slice(v, start, v.len());
    let t = trim_exec(&cur);
    if t.len() > 0 {
        proof {
            assert(done + seq![cur@] =~= done.push(cur@));
            done = done.push(cur@);
        }
        r.push(cur);
    } else {
        assert(done + seq![] =~= done);
    }
    r
}

/// Splits `key:val,key2:val2` at the commas that are not inside a `<|"|>` string; a blank
/// trailing piece is dropped.
pub fn split_gemma_pairs(inner: &str) -> (r: Vec<String>)
    ensures
        r.len() == gemma_pairs(inner@).len(),
        forall|k: int| 0 <= k < r.len() ==> #[trigger] r@[k]@ == gemma_pairs(inner@)[k],
{
    let v = to_chars(inner);
    let ps = gemma_pairs_exec(&v);
    let mut r: Vec<String> = Vec::new();
    let mut k: usize = 0;
    while k < ps.len()
        invariant
            k <= ps.len(),
            r.len() == k,
            ps.len() == gemma_pairs(inner@).len(),
            forall|j: int| 0 <= j < ps.len() ==> #[trigger] ps@[j]@ == gemma_pairs(inner@)[j],
            forall|j: int| 0 <= j < k ==> #[trigger] r@[j]@ == gemma_pairs(inner@)[j],
        decreases ps.len() - k,
    {
        r.push(from_chars(ps[k].as_slice()));
        k = k + 1;
    }
    r
}

/// A typed Gemma argument value.
#[derive(Debug, Clone, PartialEq, Eq)]
pub enum GemmaValue {
    /// `<|"|>text<|"|>`
    Str(String),
    /// `true` or `false`
    Bool(bool),
    /// A decimal integer that fits `i64`.
    Int(i64),
    /// Anything else, as written (a fractional number, or an unquoted word).
    Bare(String),
}

/// The mathematical form of a [`GemmaValue`].
pub enum GemmaVal {
    Str(Seq<char>),
    Bool(bool),
    Int(int),
    Bare(Seq<char>),
}

impl View for GemmaValue {
    type V = GemmaVal;

    open spec fn view(&self) -> GemmaVal {
        match self {
            GemmaValue::Str(s) => GemmaVal::Str(s@),
            GemmaValue::Bool(b) => GemmaVal::Bool(*b),
            GemmaValue::Int(n) => GemmaVal::Int(*n as int),
            GemmaValue::Bare(s) => GemmaVal::Bare(s@),
        }
    }
}

pub open spec fn true_word() -> Seq<char> {
    seq!['t', 'r', 'u', 'e']
}

pub open spec fn false_word() -> Seq<char> {
    seq!['f', 'a', 'l', 's', 'e']
}

/// The typed value of a (trimmed) Gemma value text.
pub open spec fn gemma_value(v: Seq<char>) -> GemmaVal {
    if v.len() >= 10 && v.take(5) == gstr() && v.skip(v.len() - 5) == gstr() {
        GemmaVal::Str(v.subrange(5, v.len() - 5))
    } else if v == true_word() {
        GemmaVal::Bool(true)
    } else if v == false_word() {
        GemmaVal::Bool(false)
    } else if parse_i64(v) is Some {
        GemmaVal::Int(parse_i64(v)->0)
    } else {
        GemmaVal::Bare(v)
    }
}

/// Types a Gemma value: a `<|"|>`-delimited string, `true`/`false`, an `i64`, or else the
/// text as it stands.
pub fn gemma_value_exec(v: &Vec<char>) -> (r: GemmaValue)
    ensures
        r@ == gemma_value(v@),
{
    let g = gstr_exec();
    if v.len() >= 10 && matches_at_exec(v, &g, 0) && matches_at_exec(v, &g, v.len() - 5) {
        proof {
            assert(v@.take(5) =~= v@.subrange(0, 5));
            assert(v@.skip(v@.len() - 5) =~= v@.subrange(v@.len() - 5, v@.len() as int));
        }
        let inner = slice(v, 5, v.len() - 5);
        return GemmaValue::Str(from_chars(inner.as_slice()));
    }
    proof {
        if v@.len() >= 10 {
            assert(v@.take(5) == gstr() ==> v@.subrange(0, 5) == gstr()) by {
                assert(v@.take(5) =~= v@.subrange(0, 5));
            }
            assert(v@.skip(v@.len() - 5) =~= v@.subrange(v@.len() - 5, v@.len() as int));
        }
    }
    let tw = vec!['t', 'r', 'u', 'e'];
    let fw = vec!['f', 'a', 'l', 's', 'e'];
    assert(tw@ =~= true_word());
    assert(fw@ =~= false_word());
    if chars_eq(v, &tw) {
        return GemmaValue::Bool(true);
    }
    if chars_eq(v, &fw) {
        return GemmaValue::Bool(false);
    }
    match parse_i64_exec(v) {
        Some(n) => GemmaValue::Int(n),
        None => GemmaValue::Bare(from_chars(v.as_slice())),
    }
}

/// Types a Gemma value text (see [`GemmaValue`]).
pub fn parse_gemma_value(v: &str) -> (r: GemmaValue)
    ensures
        r@ == gemma_value(v@),
{
    let c = to_chars(v);
    gemma_value_exec(&c)
}

/// One `key:value` argument of a Gemma tool call.
#[derive(Debug, Clone, PartialEq, Eq)]
pub struct GemmaArg {
    pub key: String,
    pub value: GemmaValue,
}

/// The inside of a braced body: surrounding whitespace trimmed, then every leading `{` and
/// trailing `}`.
pub open spec fn gemma_inner(body: Seq<char>) -> Seq<char> {
    trim_end_char(trim_start_char(trim(body), '{'), '}')
}

/// The argument a piece contributes, if it has a `:` and a non-blank key.
pub open spec fn gemma_arg_of(piece: Seq<char>) -> Option<(Seq<char>, GemmaVal)> {
    match split_once_char(piece, ':') {
        None => None,
        Some((k, v)) => if trim(k).len() == 0 {
            None
        } else {
            Some((trim(k), gemma_value(trim(v))))
        },
    }
}

/// The arguments of the pieces, in order, skipping pieces that contribute none.
pub open spec fn gemma_args_of(pieces: Seq<Seq<char>>) -> Seq<(Seq<char>, GemmaVal)>
    decreases pieces.len(),
{
    if pieces.len() == 0 {
        seq![]
    } else {
        let rest = gemma_args_of(pieces.drop_last());
        match gemma_arg_of(pieces.last()) {
            None => rest,
            Some(a) => rest.push(a),
        }
    }
}

/// The arguments of a braced body, in the order they are written.
pub open spec fn gemma_args(body: Seq<char>) -> Seq<(Seq<char>, GemmaVal)> {
    gemma_args_of(gemma_pairs(gemma_inner(body)))
}

pub open spec fn arg_view(a: GemmaArg) -> (Seq<char>, GemmaVal) {
    (a.key@, a.value@)
}

/// Parses a braced body `{key:<|"|>val<|"|>,key2:123}` into its arguments, in order.  (As a
/// JSON object a repeated key keeps its last value.)
pub fn parse_gemma_args(body: &str) -> (r: Vec<GemmaArg>)
    ensures
        r.len() == gemma_args(body@).len(),
        forall|k: int| 0 <= k < r.len() ==> #[trigger] arg_view(r@[k]) == gemma_args(body@)[k],
{
    let b = to_chars(body);
    let t = trim_exec(&b);
    let t1 = trim_start_char_exec(&t, '{');
    let inner = trim_end_char_exec(&t1, '}');
    let pieces = gemma_pairs_exec(&inner);
    let ghost ps = gemma_pairs(inner@);
    let mut r: Vec<GemmaArg> = Vec::new();
    let mut k: usize = 0;
    while k < pieces.len()
        invariant
            k <= pieces.len(),
            ps == gemma_pairs(inner@),
            inner@ == gemma_inner(body@),
            pieces.len() == ps.len(),
            forall|j: int| 0 <= j < pieces.len() ==> #[trigger] pieces@[j]@ == ps[j],
            r.len() == gemma_args_of(ps.take(k as int)).len(),
            forall|j: int| 0 <= j < r.len() ==> #[trigger] arg_view(r@[j]) == gemma_args_of(
                ps.take(k as int),
            )[j],
        decreases pieces.len() - k,
    {
        proof {
            assert(ps.take(k + 1).drop_last() =~= ps.take(k as int));
            assert(ps.take(k + 1).last() == pieces@[k as int]@);
        }
        match split_once_char_exec(&pieces[k], ':') {
            None => {},
            Some((kk, vv)) => {
                let key = trim_exec(&kk);
                if key.len() > 0 {
                    let val = trim_exec(&vv);
                    let value = gemma_value_exec(&val);
                    let arg = GemmaArg { key: from_chars(key.as_slice()), value };
                    let ghost r0 = r@;
                    r.push(arg);
                    proof {
                        let prev = gemma_args_of(ps.take(k as int));
                        assert forall|j: int| 0 <= j < r.len() implies #[trigger] arg_view(r@[j])
                            == gemma_args_of(ps.take(k + 1))[j] by {
                            if j < r.len() - 1 {
                                assert(r@[j] == r0[j]);
                            }
                        }
                    }
                }
            },
        }
        k = k + 1;
    }
    assert(ps.take(pieces.len() as int) =~= ps);
    r
}

} // verus!
