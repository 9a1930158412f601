//! Character-sequence helpers shared by the parsers and prompt builders.
//!
//! Text is handled as `Seq<char>` in specifications and as `Vec<char>` in code; the
//! functions here are the searching, trimming and rewriting primitives that the rest of
//! the library is written with.
use vstd::prelude::*;

verus! {

/// The characters of a string slice, as a vector.
pub fn to_chars(s: &str) -> (v: Vec<char>)
    ensures
        v@ == s@,
{
    let mut v: Vec<char> = Vec::new();
    for c in it: s.chars()
        invariant
            v@ == it.seq().take(it.index() as int),
    {
        v.push(c);
    }
    v
}

/// The string made of the given characters (`FromIterator<char>` for `String`).
#[verifier::external_body]
pub(crate) fn from_chars(v: &[char]) -> (s: String)
    ensures
        s@ == v@,
{
    v.iter().collect()
}

/// `n` occurs in `h` starting at index `i`.
pub open spec fn matches_at(h: Seq<char>, n: Seq<char>, i: int) -> bool {
    0 <= i && i + n.len() <= h.len() && h.subrange(i, i + n.len()) == n
}

/// First index `>= i` at which `n` occurs in `h`.
pub open spec fn find_from(h: Seq<char>, n: Seq<char>, i: int) -> Option<int>
    decreases h.len() + 1 - i,
{
    if i < 0 || i + n.len() > h.len() {
        None
    } else if matches_at(h, n, i) {
        Some(i)
    } else {
        find_from(h, n, i + 1)
    }
}

/// First occurrence of `n` in `h` (`str::find`).
pub open spec fn find(h: Seq<char>, n: Seq<char>) -> Option<int> {
    find_from(h, n, 0)
}

/// Last index `<= i` at which `n` occurs in `h`.
pub open spec fn rfind_below(h: Seq<char>, n: Seq<char>, i: int) -> Option<int>
    decreases i + 1,
{
    if i < 0 {
        None
    } else if matches_at(h, n, i) {
        Some(i)
    } else {
        rfind_below(h, n, i - 1)
    }
}

/// Last occurrence of `n` in `h` (`str::rfind`).
pub open spec fn rfind(h: Seq<char>, n: Seq<char>) -> Option<int> {
    rfind_below(h, n, h.len() - n.len())
}

pub open spec fn contains(h: Seq<char>, n: Seq<char>) -> bool {
    find(h, n) is Some
}

pub open spec fn starts_with(h: Seq<char>, p: Seq<char>) -> bool {
    p.len() <= h.len() && h.take(p.len() as int) == p
}

pub open spec fn ends_with(h: Seq<char>, p: Seq<char>) -> bool {
    p.len() <= h.len() && h.skip(h.len() - p.len()) == p
}

/// `find_from` finds the first match at or after `i`.
pub proof fn lemma_find_from(h: Seq<char>, n: Seq<char>, i: int)
    requires
        0 <= i,
    ensures
        find_from(h, n, i) matches Some(k) ==> i <= k && matches_at(h, n, k) && forall|j: int|
            i <= j < k ==> !matches_at(h, n, j),
        find_from(h, n, i) is None ==> forall|j: int| i <= j ==> !matches_at(h, n, j),
    decreases h.len() + 1 - i,
{
    if i + n.len() > h.len() {
    } else if matches_at(h, n, i) {
    } else {
        lemma_find_from(h, n, i + 1);
    }
}

/// `find` is the first match.
pub proof fn lemma_find(h: Seq<char>, n: Seq<char>)
    ensures
        find(h, n) matches Some(k) ==> matches_at(h, n, k) && forall|j: int|
            0 <= j < k ==> !matches_at(h, n, j),
        find(h, n) is None ==> forall|j: int| 0 <= j ==> !matches_at(h, n, j),
{
    lemma_find_from(h, n, 0);
}

/// `rfind_below` finds the last match at or before `i`.
pub proof fn lemma_rfind_below(h: Seq<char>, n: Seq<char>, i: int)
    ensures
        rfind_below(h, n, i) matches Some(k) ==> k <= i && matches_at(h, n, k) && forall|j: int|
            k < j <= i ==> !matches_at(h, n, j),
        rfind_below(h, n, i) is None ==> forall|j: int| j <= i ==> !matches_at(h, n, j),
    decreases i + 1,
{
    if i >= 0 && !matches_at(h, n, i) {
        lemma_rfind_below(h, n, i - 1);
    }
}

/// `rfind` is the last match.
pub proof fn lemma_rfind(h: Seq<char>, n: Seq<char>)
    ensures
        rfind(h, n) matches Some(k) ==> matches_at(h, n, k) && forall|j: int|
            k < j ==> !matches_at(h, n, j),
        rfind(h, n) is None ==> forall|j: int| !matches_at(h, n, j),
{
    lemma_rfind_below(h, n, h.len() - n.len());
}

/// A match in `h.skip(e)` is a match in `h`, shifted by `e`.
pub proof fn lemma_matches_at_skip(h: Seq<char>, n: Seq<char>, e: int, j: int)
    requires
        0 <= e <= h.len(),
        0 <= j,
    ensures
        matches_at(h.skip(e), n, j) == matches_at(h, n, j + e),
{
    if j + n.len() <= h.len() - e {
        assert(h.skip(e).subrange(j, j + n.len()) =~= h.subrange(j + e, j + e + n.len()));
    }
}

/// A match that lies within `a` is a match in `a + b` and conversely.
pub proof fn lemma_matches_at_append(a: Seq<char>, b: Seq<char>, n: Seq<char>, i: int)
    requires
        0 <= i,
        i + n.len() <= a.len(),
    ensures
        matches_at(a + b, n, i) == matches_at(a, n, i),
{
    assert((a + b).subrange(i, i + n.len()) =~= a.subrange(i, i + n.len()));
}

/// The first match is what `find` returns.
pub proof fn lemma_find_is_first(h: Seq<char>, n: Seq<char>, k: int)
    requires
        matches_at(h, n, k),
        forall|j: int| 0 <= j < k ==> !matches_at(h, n, j),
    ensures
        find(h, n) == Some(k),
{
    lemma_find(h, n);
}

/// Searching from `e` finds the first match in `h` when there is none before `e`.
pub proof fn lemma_find_skip(h: Seq<char>, n: Seq<char>, e: int)
    requires
        0 <= e <= h.len(),
        forall|q: int| 0 <= q < e ==> !matches_at(h, n, q),
    ensures
        find(h.skip(e), n) matches Some(j) ==> find(h, n) == Some(j + e),
        find(h.skip(e), n) is None ==> find(h, n) is None,
{
    lemma_find(h.skip(e), n);
    lemma_find(h, n);
    match find(h.skip(e), n) {
        Some(j) => {
            lemma_matches_at_skip(h, n, e, j);
            assert forall|q: int| 0 <= q < j + e implies !matches_at(h, n, q) by {
                if q >= e {
                    lemma_matches_at_skip(h, n, e, q - e);
                }
            }
            lemma_find_is_first(h, n, j + e);
        },
        None => {
            assert forall|q: int| 0 <= q implies !matches_at(h, n, q) by {
                if q >= e {
                    lemma_matches_at_skip(h, n, e, q - e);
                }
            }
        },
    }
}

/// A first match within `a` stays the first match of `a + b`; a first match of `a + b` where
/// `a` has none reaches past `a`.
pub proof fn lemma_find_append(a: Seq<char>, b: Seq<char>, n: Seq<char>)
    ensures
        find(a, n) matches Some(i) ==> find(a + b, n) == Some(i),
        (find(a, n) is None && find(a + b, n) is Some) ==> find(a + b, n)->0 + n.len() > a.len(),
{
    lemma_find(a, n);
    lemma_find(a + b, n);
    match find(a, n) {
        Some(i) => {
            lemma_matches_at_append(a, b, n, i);
            assert forall|j: int| 0 <= j < i implies !matches_at(a + b, n, j) by {
                lemma_matches_at_append(a, b, n, j);
            }
            lemma_find_is_first(a + b, n, i);
        },
        None => {
            match find(a + b, n) {
                Some(j) => {
                    if j + n.len() <= a.len() {
                        lemma_matches_at_append(a, b, n, j);
                    }
                },
                None => {},
            }
        },
    }
}

/// Whether `n` occurs in `h` at index `i` (checked).
pub fn matches_at_exec(h: &Vec<char>, n: &Vec<char>, i: usize) -> (r: bool)
    ensures
        r == matches_at(h@, n@, i as int),
{
    if i > h.len() || n.len() > h.len() - i {
        return false;
    }
    let mut k: usize = 0;
    while k < n.len()
        invariant
            i + n.len() <= h.len(),
            k <= n.len(),
            forall|j: int| 0 <= j < k ==> h@[i + j] == n@[j],
        decreases n.len() - k,
    {
        if h[i + k] != n[k] {
            assert(h@.subrange(i as int, i + n.len())[k as int] != n@[k as int]);
            return false;
        }
        k = k + 1;
    }
    assert(h@.subrange(i as int, i + n.len()) =~= n@);
    true
}

/// First occurrence of `n` in `h` at or after `from`.
pub fn find_from_exec(h: &Vec<char>, n: &Vec<char>, from: usize) -> (r: Option<usize>)
    ensures
        r matches Some(k) ==> find_from(h@, n@, from as int) == Some(k as int),
        r is None ==> find_from(h@, n@, from as int) is None,
{
    let mut i = from;
    if i > h.len() || n.len() > h.len() - i {
        return None;
    }
    if n.len() == 0 {
        assert(h@.subrange(i as int, i as int) =~= n@);
        return Some(i);
    }
    while i <= h.len() - n.len()
        invariant
            from <= i,
            1 <= n.len() <= h.len(),
            find_from(h@, n@, from as int) == find_from(h@, n@, i as int),
        decreases h.len() - i,
    {
        if matches_at_exec(h, n, i) {
            return Some(i);
        }
        i = i + 1;
    }
    None
}

/// First occurrence of `n` in `h` (`str::find`).
pub fn find_exec(h: &Vec<char>, n: &Vec<char>) -> (r: Option<usize>)
    ensures
        r matches Some(k) ==> find(h@, n@) == Some(k as int),
        r is None ==> find(h@, n@) is None,
{
    find_from_exec(h, n, 0)
}

/// Last occurrence of `n` in `h` (`str::rfind`).
pub fn rfind_exec(h: &Vec<char>, n: &Vec<char>) -> (r: Option<usize>)
    ensures
        r matches Some(k) ==> rfind(h@, n@) == Some(k as int),
        r is None ==> rfind(h@, n@) is None,
{
    if n.len() > h.len() {
        return None;
    }
    if n.len() == 0 {
        assert(h@.subrange(h@.len() as int, h@.len() as int) =~= n@);
        return Some(h.len());
    }
    let mut i: usize = h.len() - n.len() + 1;
    while i > 0
        invariant
            i <= h.len() - n.len() + 1,
            rfind(h@, n@) == rfind_below(h@, n@, i - 1),
        decreases i,
    {
        if matches_at_exec(h, n, i - 1) {
            return Some(i - 1);
        }
        i = i - 1;
    }
    None
}

/// Whether `h` starts with `p`.
pub fn starts_with_exec(h: &Vec<char>, p: &Vec<char>) -> (r: bool)
    ensures
        r == starts_with(h@, p@),
{
    let r = matches_at_exec(h, p, 0);
    proof {
        if p@.len() <= h@.len() {
            assert(h@.take(p@.len() as int) =~= h@.subrange(0, p@.len() as int));
        }
    }
    r
}

/// Whether `h` ends with `p`.
pub fn ends_with_exec(h: &Vec<char>, p: &Vec<char>) -> (r: bool)
    ensures
        r == ends_with(h@, p@),
{
    if p.len() > h.len() {
        return false;
    }
    let r = matches_at_exec(h, p, h.len() - p.len());
    proof {
        assert(h@.skip(h@.len() - p@.len()) =~= h@.subrange(h@.len() - p@.len(), h@.len() as int));
    }
    r
}

/// Whether `n` occurs in `h`.
pub fn contains_exec(h: &Vec<char>, n: &Vec<char>) -> (r: bool)
    ensures
        r == contains(h@, n@),
{
    find_exec(h, n).is_some()
}

/// The characters `v[lo..hi]`.
pub fn slice(v: &Vec<char>, lo: usize, hi: usize) -> (r: Vec<char>)
    requires
        lo <= hi <= v.len(),
    ensures
        r@ == v@.subrange(lo as int, hi as int),
{
    let mut r: Vec<char> = Vec::new();
    let mut i = lo;
    while i < hi
        invariant
            lo <= i <= hi <= v.len(),
            r@ == v@.subrange(lo as int, i as int),
        decreases hi - i,
    {
        r.push(v[i]);
        i = i + 1;
        assert(r@ =~= v@.subrange(lo as int, i as int));
    }
    r
}

/// Appends the characters of `b` to `a`.
pub fn append_chars(a: &mut Vec<char>, b: &Vec<char>)
    ensures
        final(a)@ == old(a)@ + b@,
{
    let ghost a0 = a@;
    let mut i: usize = 0;
    while i < b.len()
        invariant
            i <= b.len(),
            a@ == a0 + b@.take(i as int),
        decreases b.len() - i,
    {
        a.push(b[i]);
        i = i + 1;
        assert(a@ =~= a0 + b@.take(i as int));
    }
    assert(b@.take(b@.len() as int) =~= b@);
}

/// Appends the characters of a string slice to `a`.
pub fn append_str(a: &mut Vec<char>, s: &str)
    ensures
        final(a)@ == old(a)@ + s@,
{
    let b = to_chars(s);
    append_chars(a, &b);
}


/// Unicode `White_Space`, the property behind `char::is_whitespace`.
pub open spec fn is_ws(c: char) -> bool {
    let u = c as u32;
    (0x09 <= u <= 0x0d) || u == 0x20 || u == 0x85 || u == 0xa0 || u == 0x1680 || (0x2000 <= u
        <= 0x200a) || u == 0x2028 || u == 0x2029 || u == 0x202f || u == 0x205f || u == 0x3000
}

/// `char::is_whitespace`.
pub fn is_ws_exec(c: char) -> (r: bool)
    ensures
        r == is_ws(c),
{
    let u = c as u32;
    (0x09 <= u && u <= 0x0d) || u == 0x20 || u == 0x85 || u == 0xa0 || u == 0x1680 || (0x2000
        <= u && u <= 0x200a) || u == 0x2028 || u == 0x2029 || u == 0x202f || u == 0x205f || u
        == 0x3000
}

/// `s` without its leading whitespace (`str::trim_start`).
pub open spec fn trim_start(s: Seq<char>) -> Seq<char>
    decreases s.len(),
{
    if s.len() > 0 && is_ws(s[0]) {
        trim_start(s.drop_first())
    } else {
        s
    }
}

/// `s` without its trailing whitespace (`str::trim_end`).
pub open spec fn trim_end(s: Seq<char>) -> Seq<char>
    decreases s.len(),
{
    if s.len() > 0 && is_ws(s.last()) {
        trim_end(s.drop_last())
    } else {
        s
    }
}

/// `s` without leading and trailing whitespace (`str::trim`).
pub open spec fn trim(s: Seq<char>) -> Seq<char> {
    trim_end(trim_start(s))
}

proof fn lemma_trim_start_first(s: Seq<char>)
    ensures
        trim_start(s).len() == 0 || !is_ws(trim_start(s)[0]),
    decreases s.len(),
{
    if s.len() > 0 && is_ws(s[0]) {
        lemma_trim_start_first(s.drop_first());
    }
}

proof fn lemma_trim_end_prefix(t: Seq<char>)
    ensures
        trim_end(t).len() <= t.len(),
        trim_end(t) == t.take(trim_end(t).len() as int),
        trim_end(t).len() == 0 || !is_ws(trim_end(t).last()),
    decreases t.len(),
{
    if t.len() > 0 && is_ws(t.last()) {
        lemma_trim_end_prefix(t.drop_last());
        assert(t.drop_last().take(trim_end(t).len() as int) =~= t.take(trim_end(t).len() as int));
    } else {
        assert(t.take(t.len() as int) =~= t);
    }
}

/// Trimming twice is trimming once.
pub proof fn lemma_trim_idempotent(s: Seq<char>)
    ensures
        trim(trim(s)) == trim(s),
{
    let t = trim_start(s);
    let u = trim_end(t);
    lemma_trim_start_first(s);
    lemma_trim_end_prefix(t);
    if u.len() > 0 {
        assert(u[0] == t[0]);
    }
    assert(trim_start(u) == u);
    assert(trim_end(u) == u);
}

/// A trimmed text is empty, or starts and ends with a character that is not whitespace.
pub proof fn lemma_trim_ends(s: Seq<char>)
    ensures
        trim(s).len() == 0 || (!is_ws(trim(s)[0]) && !is_ws(trim(s).last())),
{
    let t = trim_start(s);
    lemma_trim_start_first(s);
    lemma_trim_end_prefix(t);
    if trim(s).len() > 0 {
        assert(trim(s)[0] == t[0]);
    }
}

pub proof fn lemma_trim_start_len(s: Seq<char>)
    ensures
        trim_start(s).len() <= s.len(),
    decreases s.len(),
{
    if s.len() > 0 && is_ws(s[0]) {
        lemma_trim_start_len(s.drop_first());
    }
}

/// Number of leading whitespace characters of `v[i..]` skipped by `trim_start`.
pub fn trim_start_from(v: &Vec<char>, i: usize) -> (k: usize)
    requires
        i <= v.len(),
    ensures
        i <= k <= v.len(),
        trim_start(v@.skip(i as int)) == v@.skip(k as int),
{
    let mut k = i;
    while k < v.len() && is_ws_exec(v[k])
        invariant
            i <= k <= v.len(),
            trim_start(v@.skip(i as int)) == trim_start(v@.skip(k as int)),
        decreases v.len() - k,
    {
        assert(v@.skip(k as int).drop_first() =~= v@.skip(k + 1));
        k = k + 1;
    }
    k
}

/// End index of `v[lo..hi]` once trailing whitespace is removed.
pub fn trim_end_to(v: &Vec<char>, lo: usize, hi: usize) -> (k: usize)
    requires
        lo <= hi <= v.len(),
    ensures
        lo <= k <= hi,
        trim_end(v@.subrange(lo as int, hi as int)) == v@.subrange(lo as int, k as int),
{
    let mut k = hi;
    while k > lo && is_ws_exec(v[k - 1])
        invariant
            lo <= k <= hi,
            hi <= v.len(),
            trim_end(v@.subrange(lo as int, hi as int)) == trim_end(
                v@.subrange(lo as int, k as int),
            ),
        decreases k,
    {
        assert(v@.subrange(lo as int, k as int).drop_last() =~= v@.subrange(
            lo as int,
            k - 1,
        ));
        k = k - 1;
    }
    k
}

/// `s` without leading whitespace.
pub fn trim_start_exec(v: &Vec<char>) -> (r: Vec<char>)
    ensures
        r@ == trim_start(v@),
{
    let k = trim_start_from(v, 0);
    assert(v@.skip(0) =~= v@);
    let r = slice(v, k, v.len());
    assert(r@ =~= v@.skip(k as int));
    r
}

/// `s` without trailing whitespace.
pub fn trim_end_exec(v: &Vec<char>) -> (r: Vec<char>)
    ensures
        r@ == trim_end(v@),
{
    let k = trim_end_to(v, 0, v.len());
    assert(v@.subrange(0, v@.len() as int) =~= v@);
    slice(v, 0, k)
}

/// `s` without leading and trailing whitespace.
pub fn trim_exec(v: &Vec<char>) -> (r: Vec<char>)
    ensures
        r@ == trim(v@),
{
    let t = trim_start_exec(v);
    trim_end_exec(&t)
}

/// Non-empty `p` occurs at `i` exactly when `s[i..]` starts with it.
pub proof fn lemma_starts_with_skip(s: Seq<char>, p: Seq<char>, i: int)
    requires
        0 <= i <= s.len(),
    ensures
        starts_with(s.skip(i), p) == matches_at(s, p, i),
{
    if p.len() <= s.len() - i {
        assert(s.skip(i).take(p.len() as int) =~= s.subrange(i, i + p.len()));
    }
}

/// Every non-overlapping occurrence of `p`, from the left, replaced by `r` (`str::replace`).
pub open spec fn replace_all(s: Seq<char>, p: Seq<char>, r: Seq<char>) -> Seq<char>
    decreases s.len(),
{
    if p.len() == 0 || s.len() == 0 {
        s
    } else if starts_with(s, p) {
        r + replace_all(s.skip(p.len() as int), p, r)
    } else {
        seq![s[0]] + replace_all(s.drop_first(), p, r)
    }
}

/// `str::replace` with a non-empty pattern.
pub fn replace_exec(s: &Vec<char>, p: &Vec<char>, r: &Vec<char>) -> (out: Vec<char>)
    requires
        p.len() > 0,
    ensures
        out@ == replace_all(s@, p@, r@),
{
    let mut out: Vec<char> = Vec::new();
    let mut i: usize = 0;
    assert(s@.skip(0) =~= s@);
    while i < s.len()
        invariant
            i <= s.len(),
            p.len() > 0,
            out@ + replace_all(s@.skip(i as int), p@, r@) == replace_all(s@, p@, r@),
        decreases s.len() - i,
    {
        let ghost t = s@.skip(i as int);
        proof {
            lemma_starts_with_skip(s@, p@, i as int);
        }
        if matches_at_exec(s, p, i) {
            assert(t.skip(p@.len() as int) =~= s@.skip(i + p@.len()));
            append_chars(&mut out, r);
            i = i + p.len();
        } else {
            assert(t.drop_first() =~= s@.skip(i + 1));
            out.push(s[i]);
            i = i + 1;
        }
    }
    assert(s@.skip(i as int) =~= Seq::<char>::empty());
    assert(out@ + Seq::<char>::empty() =~= out@);
    out
}

/// Length of the leading run of non-whitespace characters.
pub open spec fn word_end(s: Seq<char>) -> nat
    decreases s.len(),
{
    if s.len() == 0 || is_ws(s[0]) {
        0
    } else {
        1 + word_end(s.drop_first())
    }
}

/// The whitespace-separated words of `s` (`str::split_whitespace`).
pub open spec fn words(s: Seq<char>) -> Seq<Seq<char>>
    decreases s.len(), 1nat,
{
    if s.len() == 0 {
        seq![]
    } else if is_ws(s[0]) {
        words(s.drop_first())
    } else {
        words_after_word(s)
    }
}

/// The words of `s`, which starts with a word character.
pub open spec fn words_after_word(s: Seq<char>) -> Seq<Seq<char>>
    decreases s.len(), 0nat,
{
    if s.len() == 0 || is_ws(s[0]) {
        seq![]
    } else {
        let w = word_end(s);
        if w <= s.len() && w > 0 {
            seq![s.take(w as int)] + words(s.skip(w as int))
        } else {
            seq![]
        }
    }
}

pub proof fn lemma_word_end(s: Seq<char>)
    ensures
        word_end(s) <= s.len(),
        forall|j: int| 0 <= j < word_end(s) ==> !is_ws(#[trigger] s[j]),
        word_end(s) < s.len() ==> is_ws(s[word_end(s) as int]),
    decreases s.len(),
{
    if s.len() == 0 || is_ws(s[0]) {
    } else {
        lemma_word_end(s.drop_first());
        assert forall|j: int| 0 <= j < word_end(s) implies !is_ws(#[trigger] s[j]) by {
            if j > 0 {
                assert(s[j] == s.drop_first()[j - 1]);
            }
        }
    }
}

/// Words of `s` joined by single spaces.
pub open spec fn join(ws: Seq<Seq<char>>, sep: Seq<char>) -> Seq<char>
    decreases ws.len(),
{
    if ws.len() == 0 {
        seq![]
    } else if ws.len() == 1 {
        ws[0]
    } else {
        join(ws.drop_last(), sep) + sep + ws.last()
    }
}

/// `s.split_whitespace().collect::<Vec<_>>().join(" ")`.
pub open spec fn collapse_ws(s: Seq<char>) -> Seq<char> {
    join(words(s), seq![' '])
}

/// The words of `v` (`split_whitespace`).
pub fn words_exec(v: &Vec<char>) -> (ws: Vec<Vec<char>>)
    ensures
        ws@.len() == words(v@).len(),
        forall|k: int| 0 <= k < ws@.len() ==> #[trigger] ws@[k]@ == words(v@)[k],
{
    let mut ws: Vec<Vec<char>> = Vec::new();
    let ghost acc: Seq<Seq<char>> = seq![];
    let mut i: usize = 0;
    assert(v@.skip(0) =~= v@);
    while i < v.len()
        invariant
            i <= v.len(),
            ws@.len() == acc.len(),
            forall|k: int| 0 <= k < ws@.len() ==> #[trigger] ws@[k]@ == acc[k],
            acc + words(v@.skip(i as int)) == words(v@),
        decreases v.len() - i,
    {
        let ghost t = v@.skip(i as int);
        if is_ws_exec(v[i]) {
            assert(t.drop_first() =~= v@.skip(i + 1));
            i = i + 1;
        } else {
            let mut j = i;
            while j < v.len() && !is_ws_exec(v[j])
                invariant
                    i <= j <= v.len(),
                    forall|q: int| i <= q < j ==> !is_ws(#[trigger] v@[q]),
                decreases v.len() - j,
            {
                j = j + 1;
            }
            let w = slice(v, i, j);
            proof {
                lemma_word_end(t);
                // the word ends exactly at j
                let we = word_end(t);
                assert(we == j - i) by {
                    if we < j - i {
                        assert(t[we as int] == v@[i + we]);
                    } else if we > j - i {
                        assert(t[(j - i) as int] == v@[j as int]);
                    }
                }
                assert(t.take(we as int) =~= w@);
                assert(t.skip(we as int) =~= v@.skip(j as int));
                assert(words(t) == words_after_word(t));
                acc = acc.push(w@);
                assert(acc + words(v@.skip(j as int)) =~= (acc.drop_last() + words(t)));
            }
            ws.push(w);
            i = j;
        }
    }
    proof {
        assert(v@.skip(i as int) =~= Seq::<char>::empty());
        assert(acc + Seq::<Seq<char>>::empty() =~= acc);
        assert(acc =~= words(v@));
    }
    ws
}

/// Joins the words with `sep` between them.
pub fn join_exec(ws: &Vec<Vec<char>>, sep: &Vec<char>) -> (r: Vec<char>)
    ensures
        r@ == join(ws@.map_values(|w: Vec<char>| w@), sep@),
{
    let ghost vs = ws@.map_values(|w: Vec<char>| w@);
    let mut r: Vec<char> = Vec::new();
    let mut k: usize = 0;
    while k < ws.len()
        invariant
            k <= ws.len(),
            vs == ws@.map_values(|w: Vec<char>| w@),
            r@ == join(vs.take(k as int), sep@),
        decreases ws.len() - k,
    {
        proof {
            assert(vs.take(k + 1).drop_last() =~= vs.take(k as int));
        }
        if k > 0 {
            append_chars(&mut r, sep);
        }
        append_chars(&mut r, &ws[k]);
        proof {
            if k == 0 {
                assert(r@ =~= vs.take(1)[0]);
            }
        }
        k = k + 1;
    }
    assert(vs.take(ws.len() as int) =~= vs);
    r
}

/// Whitespace collapsed: words joined by single spaces.
pub fn collapse_ws_exec(v: &Vec<char>) -> (r: Vec<char>)
    ensures
        r@ == collapse_ws(v@),
{
    let ws = words_exec(v);
    let sep = vec![' '];
    let r = join_exec(&ws, &sep);
    assert(ws@.map_values(|w: Vec<char>| w@) =~= words(v@));
    assert(sep@ =~= seq![' ']);
    r
}

/// Whether two character sequences are equal.
pub fn chars_eq(a: &Vec<char>, b: &Vec<char>) -> (r: bool)
    ensures
        r == (a@ == b@),
{
    if a.len() != b.len() {
        return false;
    }
    let r = matches_at_exec(a, b, 0);
    proof {
        assert(a@.subrange(0, b@.len() as int) =~= a@);
    }
    r
}

/// `s` without every leading `c` (`str::trim_start_matches` with a character).
pub open spec fn trim_start_char(s: Seq<char>, c: char) -> Seq<char>
    decreases s.len(),
{
    if s.len() > 0 && s[0] == c {
        trim_start_char(s.drop_first(), c)
    } else {
        s
    }
}

/// `s` without every trailing `c` (`str::trim_end_matches` with a character).
pub open spec fn trim_end_char(s: Seq<char>, c: char) -> Seq<char>
    decreases s.len(),
{
    if s.len() > 0 && s.last() == c {
        trim_end_char(s.drop_last(), c)
    } else {
        s
    }
}

/// `str::trim_start_matches(c)`.
pub fn trim_start_char_exec(v: &Vec<char>, c: char) -> (r: Vec<char>)
    ensures
        r@ == trim_start_char(v@, c),
{
    let mut k: usize = 0;
    assert(v@.skip(0) =~= v@);
    while k < v.len() && v[k] == c
        invariant
            k <= v.len(),
            trim_start_char(v@, c) == trim_start_char(v@.skip(k as int), c),
        decreases v.len() - k,
    {
        assert(v@.skip(k as int).drop_first() =~= v@.skip(k + 1));
        k = k + 1;
    }
    let r = slice(v, k, v.len());
    assert(r@ =~= v@.skip(k as int));
    r
}

/// `str::trim_end_matches(c)`.
pub fn trim_end_char_exec(v: &Vec<char>, c: char) -> (r: Vec<char>)
    ensures
        r@ == trim_end_char(v@, c),
{
    let mut k: usize = v.len();
    assert(v@.take(v.len() as int) =~= v@);
    while k > 0 && v[k - 1] == c
        invariant
            k <= v.len(),
            trim_end_char(v@, c) == trim_end_char(v@.take(k as int), c),
        decreases k,
    {
        assert(v@.take(k as int).drop_last() =~= v@.take(k - 1));
        k = k - 1;
    }
    let r = slice(v, 0, k);
    assert(r@ =~= v@.take(k as int));
    r
}

/// The characters of `v` before and after its first `c` (`str::split_once` with a character).
pub open spec fn split_once_char(s: Seq<char>, c: char) -> Option<(Seq<char>, Seq<char>)> {
    match find(s, seq![c]) {
        None => None,
        Some(i) => Some((s.take(i), s.skip(i + 1))),
    }
}

/// `str::split_once(c)`.
pub fn split_once_char_exec(v: &Vec<char>, c: char) -> (r: Option<(Vec<char>, Vec<char>)>)
    ensures
        r matches Some(p) ==> split_once_char(v@, c) == Some((p.0@, p.1@)),
        r is None ==> split_once_char(v@, c) is None,
{
    let pat = vec![c];
    assert(pat@ =~= seq![c]);
    match find_exec(v, &pat) {
        None => None,
        Some(i) => {
            proof {
                lemma_find(v@, pat@);
                assert(matches_at(v@, pat@, i as int));
                assert(pat@.len() == 1);
                assert(i + 1 <= v@.len());
            }
            assert(i < v.len());
            let j: usize = i + 1;
            let a = slice(v, 0, i);
            let b = slice(v, j, v.len());
            assert(a@ =~= v@.take(i as int));
            assert(b@ =~= v@.skip(i + 1));
            Some((a, b))
        },
    }
}

/// The views of a list of character vectors.
pub open spec fn views(v: Seq<Vec<char>>) -> Seq<Seq<char>> {
    v.map_values(|w: Vec<char>| w@)
}

/// The strings made of each list of characters.
pub fn strings_of(v: &Vec<Vec<char>>) -> (r: Vec<String>)
    ensures
        r.len() == v.len(),
        forall|k: int| 0 <= k < r.len() ==> #[trigger] r@[k]@ == v@[k]@,
{
    let mut r: Vec<String> = Vec::new();
    let mut k: usize = 0;
    while k < v.len()
        invariant
            k <= v.len(),
            r.len() == k,
            forall|j: int| 0 <= j < k ==> #[trigger] r@[j]@ == v@[j]@,
        decreases v.len() - k,
    {
        let s = from_chars(v[k].as_slice());
        r.push(s);
        k = k + 1;
    }
    r
}


/// Number of bytes of `c` in UTF-8 (`char::len_utf8`).
pub open spec fn char_width(c: char) -> nat {
    let u = c as u32;
    if u < 0x80 {
        1
    } else if u < 0x800 {
        2
    } else if u < 0x10000 {
        3
    } else {
        4
    }
}

/// Number of bytes of `s` in UTF-8 (`str::len`).
pub open spec fn utf8_len(s: Seq<char>) -> nat
    decreases s.len(),
{
    if s.len() == 0 {
        0
    } else {
        char_width(s[0]) + utf8_len(s.drop_first())
    }
}

pub proof fn lemma_utf8_len_concat(a: Seq<char>, b: Seq<char>)
    ensures
        utf8_len(a + b) == utf8_len(a) + utf8_len(b),
    decreases a.len(),
{
    if a.len() > 0 {
        assert((a + b).drop_first() =~= a.drop_first() + b);
        lemma_utf8_len_concat(a.drop_first(), b);
    } else {
        assert(a + b =~= b);
    }
}

pub proof fn lemma_utf8_len_single(c: char)
    ensures
        utf8_len(seq![c]) == char_width(c),
{
    let one = seq![c];
    assert(one.drop_first() =~= Seq::<char>::empty());
    assert(utf8_len(Seq::<char>::empty()) == 0);
    assert(utf8_len(one) == char_width(one[0]) + utf8_len(one.drop_first()));
}

/// `utf8_len` is the length of vstd's UTF-8 encoding, which is what `str::len` reports.
pub proof fn lemma_utf8_len_encode(s: Seq<char>)
    ensures
        utf8_len(s) == vstd::utf8::encode_utf8(s).len(),
    decreases s.len(),
{
    if s.len() > 0 {
        lemma_utf8_len_encode(s.drop_first());
        let u = s[0] as u32;
        assert(vstd::utf8::is_scalar(u)) by {
            vstd::utf8::char_is_scalar(s[0]);
        }
    }
}

/// `min(utf8_len(v), cap)`.
pub fn utf8_len_capped(v: &Vec<char>, cap: u64) -> (r: u64)
    ensures
        r == if utf8_len(v@) < cap {
            utf8_len(v@)
        } else {
            cap as nat
        },
{
    let mut acc: u64 = 0;
    let mut i: usize = 0;
    while i < v.len()
        invariant
            i <= v.len(),
            acc == utf8_len(v@.take(i as int)),
            acc < cap || (acc == 0 && cap == 0),
        decreases v.len() - i,
    {
        if acc >= cap {
            proof {
                lemma_utf8_len_concat(v@.take(i as int), v@.skip(i as int));
                assert(v@.take(i as int) + v@.skip(i as int) =~= v@);
            }
            return cap;
        }
        let u = v[i] as u32;
        let w: u64 = if u < 0x80 {
            1
        } else if u < 0x800 {
            2
        } else if u < 0x10000 {
            3
        } else {
            4
        };
        proof {
            lemma_utf8_len_concat(v@.take(i as int), seq![v@[i as int]]);
            assert(v@.take(i + 1) =~= v@.take(i as int) + seq![v@[i as int]]);
            lemma_utf8_len_single(v@[i as int]);
        }
        if w >= cap - acc {
            proof {
                lemma_utf8_len_concat(v@.take(i + 1), v@.skip(i + 1));
                assert(v@.take(i + 1) + v@.skip(i + 1) =~= v@);
            }
            return cap;
        }
        acc = acc + w;
        i = i + 1;
    }
    assert(v@.take(i as int) =~= v@);
    acc
}


/// `min(utf8_len(v), cap)`, with a wide cap.
pub fn utf8_len_capped_wide(v: &Vec<char>, cap: u128) -> (r: u128)
    ensures
        r == if utf8_len(v@) < cap {
            utf8_len(v@)
        } else {
            cap as nat
        },
{
    let mut acc: u128 = 0;
    let mut i: usize = 0;
    while i < v.len()
        invariant
            i <= v.len(),
            acc == utf8_len(v@.take(i as int)),
            acc < cap || (acc == 0 && cap == 0),
        decreases v.len() - i,
    {
        if acc >= cap {
            proof {
                lemma_utf8_len_concat(v@.take(i as int), v@.skip(i as int));
                assert(v@.take(i as int) + v@.skip(i as int) =~= v@);
            }
            return cap;
        }
        let u = v[i] as u32;
        let w: u128 = if u < 0x80 {
            1
        } else if u < 0x800 {
            2
        } else if u < 0x10000 {
            3
        } else {
            4
        };
        proof {
            lemma_utf8_len_concat(v@.take(i as int), seq![v@[i as int]]);
            assert(v@.take(i + 1) =~= v@.take(i as int) + seq![v@[i as int]]);
            lemma_utf8_len_single(v@[i as int]);
        }
        if w >= cap - acc {
            proof {
                lemma_utf8_len_concat(v@.take(i + 1), v@.skip(i + 1));
                assert(v@.take(i + 1) + v@.skip(i + 1) =~= v@);
            }
            return cap;
        }
        acc = acc + w;
        i = i + 1;
    }
    assert(v@.take(i as int) =~= v@);
    acc
}

} // verus!
