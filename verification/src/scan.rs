//! Balanced-bracket scanners over model output.
//!
//! The model writes tool calls as JSON objects (`{…}`), JSON arrays (`[…]`) or in the Gemma
//! native syntax, where strings are delimited by `<|"|>` instead of quotes.  The scanners here
//! find where such a block closes, skipping brackets that sit inside strings.
use vstd::prelude::*;
use crate::chars::{find, find_exec, from_chars, lemma_find, slice, to_chars};

verus! {

/// Index of the bracket that closes the block being scanned, reading `s` from `i` on with
/// `depth` open brackets and the given string state (`in_str`, and `esc` for a pending
/// backslash inside a string).  JSON strings are delimited by `"`.
pub open spec fn bal_close(
    s: Seq<char>,
    i: int,
    depth: int,
    in_str: bool,
    esc: bool,
    open: char,
    close: char,
) -> Option<int>
    decreases s.len() - i,
{
    if i < 0 || i >= s.len() {
        None
    } else {
        let c = s[i];
        if in_str {
            if esc {
                bal_close(s, i + 1, depth, true, false, open, close)
            } else if c == '\\' {
                bal_close(s, i + 1, depth, true, true, open, close)
            } else if c == '"' {
                bal_close(s, i + 1, depth, false, false, open, close)
            } else {
                bal_close(s, i + 1, depth, true, false, open, close)
            }
        } else if c == '"' {
            bal_close(s, i + 1, depth, true, false, open, close)
        } else if c == open {
            bal_close(s, i + 1, depth + 1, false, false, open, close)
        } else if c == close {
            if depth - 1 == 0 {
                Some(i)
            } else {
                bal_close(s, i + 1, depth - 1, false, false, open, close)
            }
        } else {
            bal_close(s, i + 1, depth, false, false, open, close)
        }
    }
}

/// The balanced `{…}` object that starts at the first `{` of `s`.
pub open spec fn json_object_block(s: Seq<char>) -> Option<Seq<char>> {
    match find(s, seq!['{']) {
        None => None,
        Some(st) => match bal_close(s, st, 0, false, false, '{', '}') {
            None => None,
            Some(e) => Some(s.subrange(st, e + 1)),
        },
    }
}

/// The balanced `[…]` array at the very start of `s`.
pub open spec fn json_array_block(s: Seq<char>) -> Option<Seq<char>> {
    if s.len() == 0 || s[0] != '[' {
        None
    } else {
        match bal_close(s, 0, 0, false, false, '[', ']') {
            None => None,
            Some(e) => Some(s.take(e + 1)),
        }
    }
}

/// A closing index found by `bal_close` lies within the text, at or after the start.
pub proof fn lemma_bal_close_range(
    s: Seq<char>,
    i: int,
    depth: int,
    in_str: bool,
    esc: bool,
    open: char,
    close: char,
)
    ensures
        bal_close(s, i, depth, in_str, esc, open, close) matches Some(e) ==> i <= e < s.len()
            && s[e] == close,
    decreases s.len() - i,
{
    if i < 0 || i >= s.len() {
    } else {
        let c = s[i];
        if in_str {
            if esc {
                lemma_bal_close_range(s, i + 1, depth, true, false, open, close);
            } else if c == '\\' {
                lemma_bal_close_range(s, i + 1, depth, true, true, open, close);
            } else if c == '"' {
                lemma_bal_close_range(s, i + 1, depth, false, false, open, close);
            } else {
                lemma_bal_close_range(s, i + 1, depth, true, false, open, close);
            }
        } else if c == '"' {
            lemma_bal_close_range(s, i + 1, depth, true, false, open, close);
        } else if c == open {
            lemma_bal_close_range(s, i + 1, depth + 1, false, false, open, close);
        } else if c == close {
            if depth - 1 != 0 {
                lemma_bal_close_range(s, i + 1, depth - 1, false, false, open, close);
            }
        } else {
            lemma_bal_close_range(s, i + 1, depth, false, false, open, close);
        }
    }
}

/// Scans `s` from `from`, which holds `open`, for the bracket that balances it.
pub fn bal_close_exec(s: &Vec<char>, from: usize, open: char, close: char) -> (r: Option<usize>)
    requires
        from < s.len(),
        s[from as int] == open,
        open != close,
        open != '"',
        close != '"',
    ensures
        r matches Some(e) ==> bal_close(s@, from as int, 0, false, false, open, close) == Some(
            e as int,
        ),
        r is None ==> bal_close(s@, from as int, 0, false, false, open, close) is None,
{
    // one bracket is open once the first character is read
    let mut opens: usize = 1;
    let mut closes: usize = 0;
    let mut in_str = false;
    let mut esc = false;
    let mut i = from + 1;
    while i < s.len()
        invariant
            from < i <= s.len(),
            closes < opens <= i - from,
            open != close,
            bal_close(s@, from as int, 0, false, false, open, close) == bal_close(
                s@,
                i as int,
                opens - closes,
                in_str,
                esc,
                open,
                close,
            ),
        decreases s.len() - i,
    {
        let c = s[i];
        if in_str {
            if esc {
                esc = false;
            } else if c == '\\' {
                esc = true;
            } else if c == '"' {
                in_str = false;
            }
        } else if c == '"' {
            in_str = true;
            esc = false;
        } else if c == open {
            opens = opens + 1;
            esc = false;
        } else if c == close {
            closes = closes + 1;
            esc = false;
            if opens == closes {
                return Some(i);
            }
        } else {
            esc = false;
        }
        i = i + 1;
    }
    None
}

/// The balanced `{…}` object at the first `{` of `s`, as characters.
pub fn json_object_block_exec(s: &Vec<char>) -> (r: Option<Vec<char>>)
    ensures
        r matches Some(v) ==> json_object_block(s@) == Some(v@),
        r is None ==> json_object_block(s@) is None,
{
    let brace = vec!['{'];
    assert(brace@ =~= seq!['{']);
    match find_exec(s, &brace) {
        None => None,
        Some(st) => {
            proof {
                lemma_find(s@, brace@);
                assert(s@.subrange(st as int, st + 1)[0] == s@[st as int]);
            }
            match bal_close_exec(s, st, '{', '}') {
                None => None,
                Some(e) => {
                    proof {
                        lemma_bal_close_range(s@, st as int, 0, false, false, '{', '}');
                    }
                    assert(e < s.len());
                    Some(slice(s, st, e + 1))
                },
            }
        },
    }
}

/// The balanced `[…]` array at the start of `s`, as characters.
pub fn json_array_block_exec(s: &Vec<char>) -> (r: Option<Vec<char>>)
    ensures
        r matches Some(v) ==> json_array_block(s@) == Some(v@),
        r is None ==> json_array_block(s@) is None,
{
    if s.len() == 0 || s[0] != '[' {
        return None;
    }
    match bal_close_exec(s, 0, '[', ']') {
        None => None,
        Some(e) => {
            proof {
                lemma_bal_close_range(s@, 0, 0, false, false, '[', ']');
            }
            let r = slice(s, 0, e + 1);
            assert(r@ =~= s@.take(e + 1));
            Some(r)
        },
    }
}

/// Extracts the balanced `{…}` JSON object that starts at the first `{` in `s`; braces inside
/// JSON strings (with their backslash escapes) do not count.
pub fn first_json_object(s: &str) -> (r: Option<String>)
    ensures
        r matches Some(o) ==> json_object_block(s@) == Some(o@),
        r is None ==> json_object_block(s@) is None,
{
    let v = to_chars(s);
    match json_object_block_exec(&v) {
        None => None,
        Some(o) => Some(from_chars(o.as_slice())),
    }
}

/// Extracts the balanced `[…]` JSON array at the very start of `s` (`None` when `s` does not
/// start with `[`); brackets inside JSON strings do not count.
pub fn first_json_array(s: &str) -> (r: Option<String>)
    ensures
        r matches Some(o) ==> json_array_block(s@) == Some(o@),
        r is None ==> json_array_block(s@) is None,
{
    let v = to_chars(s);
    match json_array_block_exec(&v) {
        None => None,
        Some(o) => Some(from_chars(o.as_slice())),
    }
}

} // verus!
