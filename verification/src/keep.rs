//! Keyed tables of the persistent memory: rows of `(key, value)` where a key names at most one
//! row.  Writing a key either updates its row where it stands (settings) or moves it to the end
//! (the profile, kept in order of last change); removing a key drops its rows.
use vstd::prelude::*;
use crate::chars::{to_chars, from_chars, chars_eq};

verus! {

/// The mathematical form of a row of text.
pub open spec fn pair_view(p: (String, String)) -> (Seq<char>, Seq<char>) {
    (p.0@, p.1@)
}

/// The mathematical form of a table of text rows.
pub open spec fn pairs_view(s: Seq<(String, String)>) -> Seq<(Seq<char>, Seq<char>)> {
    s.map_values(|p: (String, String)| pair_view(p))
}

/// The position of the first row, from `i` on, with key `k`.
pub open spec fn key_at<V>(s: Seq<(Seq<char>, V)>, k: Seq<char>, i: int) -> Option<int>
    decreases s.len() - i,
{
    if i < 0 || i >= s.len() {
        None
    } else if s[i].0 == k {
        Some(i)
    } else {
        key_at(s, k, i + 1)
    }
}

/// The value of key `k`: that of its first row.
pub open spec fn lookup<V>(s: Seq<(Seq<char>, V)>, k: Seq<char>) -> Option<V> {
    match key_at(s, k, 0) {
        Some(i) => Some(s[i].1),
        None => None,
    }
}

/// The table without the rows of key `k`.
pub open spec fn without_key<V>(s: Seq<(Seq<char>, V)>, k: Seq<char>) -> Seq<(Seq<char>, V)>
    decreases s.len(),
{
    if s.len() == 0 {
        seq![]
    } else if s.last().0 == k {
        without_key(s.drop_last(), k)
    } else {
        without_key(s.drop_last(), k).push(s.last())
    }
}

/// Writing `v` under `k` where the key's row stands, or as a new last row.
pub open spec fn put<V>(s: Seq<(Seq<char>, V)>, k: Seq<char>, v: V) -> Seq<(Seq<char>, V)> {
    match key_at(s, k, 0) {
        Some(i) => s.update(i, (k, v)),
        None => s.push((k, v)),
    }
}

/// Writing `v` under `k` as the last row, the key's earlier rows dropped.
pub open spec fn put_last<V>(s: Seq<(Seq<char>, V)>, k: Seq<char>, v: V) -> Seq<(Seq<char>, V)> {
    without_key(s, k).push((k, v))
}

proof fn lemma_key_at_range<V>(s: Seq<(Seq<char>, V)>, k: Seq<char>, i: int)
    requires
        0 <= i,
    ensures
        key_at(s, k, i) matches Some(j) ==> i <= j < s.len() && s[j].0 == k && forall|t: int|
            i <= t < j ==> (#[trigger] s[t]).0 != k,
        key_at(s, k, i) is None ==> forall|t: int| i <= t < s.len() ==> (#[trigger] s[t]).0 != k,
    decreases s.len() - i,
{
    if i < s.len() && s[i].0 != k {
        lemma_key_at_range(s, k, i + 1);
    }
}

proof fn lemma_key_at_first<V>(s: Seq<(Seq<char>, V)>, k: Seq<char>, j: int)
    requires
        0 <= j < s.len(),
        s[j].0 == k,
        forall|t: int| 0 <= t < j ==> (#[trigger] s[t]).0 != k,
    ensures
        key_at(s, k, 0) == Some(j),
{
    lemma_key_at_range(s, k, 0);
    match key_at(s, k, 0) {
        Some(x) => {
            if x > j {
                assert(s[j].0 != k);
            }
        },
        None => {
            assert(s[j].0 != k);
        },
    }
}

proof fn lemma_key_at_push<V>(s: Seq<(Seq<char>, V)>, x: (Seq<char>, V), k: Seq<char>, i: int)
    requires
        0 <= i <= s.len(),
    ensures
        key_at(s.push(x), k, i) == (match key_at(s, k, i) {
            Some(j) => Some(j),
            None => if x.0 == k {
                Some(s.len() as int)
            } else {
                None
            },
        }),
    decreases s.len() - i,
{
    if i < s.len() {
        assert(s.push(x)[i] == s[i]);
        if s[i].0 != k {
            lemma_key_at_push(s, x, k, i + 1);
        }
    } else {
        assert(s.push(x)[i] == x);
        assert(key_at(s.push(x), k, i + 1) is None);
        assert(key_at(s, k, i) is None);
    }
}

proof fn lemma_without_key<V>(s: Seq<(Seq<char>, V)>, k: Seq<char>)
    ensures
        forall|t: int| 0 <= t < without_key(s, k).len() ==> (#[trigger] without_key(s, k)[t]).0 != k,
        forall|k2: Seq<char>| k2 != k ==> lookup(#[trigger] without_key(s, k), k2) == lookup(s, k2),
    decreases s.len(),
{
    if s.len() > 0 {
        let d = s.drop_last();
        lemma_without_key(d, k);
        assert(s =~= d.push(s.last()));
        let wd = without_key(d, k);
        assert forall|k2: Seq<char>| k2 != k implies lookup(#[trigger] without_key(s, k), k2) == lookup(s, k2) by {
            assert(lookup(wd, k2) == lookup(d, k2));
            lemma_key_at_push(d, s.last(), k2, 0);
            lemma_key_at_range(d, k2, 0);
            lemma_key_at_range(wd, k2, 0);
            if s.last().0 != k {
                lemma_key_at_push(wd, s.last(), k2, 0);
            }
        }
    }
}

/// Reading a key after writing it in place gives what was written; other keys read as before.
pub proof fn lemma_read_after_put<V>(s: Seq<(Seq<char>, V)>, k: Seq<char>, v: V, k2: Seq<char>)
    ensures
        lookup(put(s, k, v), k) == Some(v),
        k2 != k ==> lookup(put(s, k, v), k2) == lookup(s, k2),
{
    lemma_key_at_range(s, k, 0);
    lemma_key_at_range(s, k2, 0);
    let p = put(s, k, v);
    lemma_key_at_range(p, k2, 0);
    match key_at(s, k, 0) {
        Some(i) => {
            lemma_key_at_first(p, k, i);
            if k2 != k {
                if let Some(j) = key_at(s, k2, 0) {
                    lemma_key_at_first(p, k2, j);
                }
                if let Some(j) = key_at(p, k2, 0) {
                    lemma_key_at_first(s, k2, j);
                }
            }
        },
        None => {
            lemma_key_at_first(p, k, s.len() as int);
            if k2 != k {
                if let Some(j) = key_at(s, k2, 0) {
                    lemma_key_at_first(p, k2, j);
                }
                if let Some(j) = key_at(p, k2, 0) {
                    lemma_key_at_first(s, k2, j);
                }
            }
        },
    }
}

/// Reading a key after writing it as the last row gives what was written; after removing it,
/// nothing; other keys read as before either way.
pub proof fn lemma_read_after_put_last<V>(s: Seq<(Seq<char>, V)>, k: Seq<char>, v: V, k2: Seq<char>)
    ensures
        lookup(put_last(s, k, v), k) == Some(v),
        lookup(without_key(s, k), k) is None,
        k2 != k ==> lookup(put_last(s, k, v), k2) == lookup(s, k2),
        k2 != k ==> lookup(without_key(s, k), k2) == lookup(s, k2),
{
    let w = without_key(s, k);
    let p = put_last(s, k, v);
    lemma_without_key(s, k);
    lemma_key_at_range(w, k, 0);
    lemma_key_at_first(p, k, w.len() as int);
    if k2 != k {
        assert(lookup(w, k2) == lookup(s, k2));
        lemma_key_at_range(w, k2, 0);
        lemma_key_at_range(p, k2, 0);
        if let Some(j) = key_at(w, k2, 0) {
            lemma_key_at_first(p, k2, j);
        }
        if let Some(j) = key_at(p, k2, 0) {
            if j < w.len() {
                lemma_key_at_first(w, k2, j);
            }
        }
    }
}

pub(crate) fn copy_string(s: &String) -> (r: String)
    ensures
        r@ == s@,
{
    from_chars(to_chars(s.as_str()).as_slice())
}

fn copy_pair(p: &(String, String)) -> (r: (String, String))
    ensures
        pair_view(r) == pair_view(*p),
{
    (copy_string(&p.0), copy_string(&p.1))
}

/// The position of the first row with this key.
pub fn pair_pos(rows: &Vec<(String, String)>, key: &Vec<char>) -> (r: Option<usize>)
    ensures
        r matches Some(i) ==> i < rows.len() && key_at(pairs_view(rows@), key@, 0) == Some(i as int),
        r is None ==> key_at(pairs_view(rows@), key@, 0) is None,
{
    let ghost v = pairs_view(rows@);
    let mut i: usize = 0;
    while i < rows.len()
        invariant
            i <= rows.len(),
            v == pairs_view(rows@),
            key_at(v, key@, 0) == key_at(v, key@, i as int),
        decreases rows.len() - i,
    {
        assert(v[i as int] == pair_view(rows@[i as int]));
        if chars_eq(&to_chars(rows[i].0.as_str()), key) {
            return Some(i);
        }
        i = i + 1;
    }
    None
}

/// The value stored under a key.
pub fn pair_lookup(rows: &Vec<(String, String)>, key: &str) -> (r: Option<String>)
    ensures
        (match r {
            Some(s) => Some(s@),
            None => None,
        }) == lookup(pairs_view(rows@), key@),
{
    match pair_pos(rows, &to_chars(key)) {
        Some(i) => {
            assert(pairs_view(rows@)[i as int] == pair_view(rows@[i as int]));
            Some(copy_string(&rows[i].1))
        },
        None => None,
    }
}

/// Writes a value under a key, where its row stands (see [`put`]).
pub fn pair_put(rows: &mut Vec<(String, String)>, key: &str, value: &str)
    ensures
        pairs_view(final(rows)@) == put(pairs_view(old(rows)@), key@, value@),
{
    let ghost v = pairs_view(rows@);
    let row = (from_chars(to_chars(key).as_slice()), from_chars(to_chars(value).as_slice()));
    let kc = to_chars(key);
    assert(kc@ == key@);
    match pair_pos(rows, &kc) {
        Some(i) => {
            rows.set(i, row);
            assert(pairs_view(rows@) =~= v.update(i as int, (key@, value@)));
        },
        None => {
            rows.push(row);
            assert(pairs_view(rows@) =~= v.push((key@, value@)));
        },
    }
}

/// Removes the rows of a key (see [`without_key`]).
pub fn pair_remove(rows: &mut Vec<(String, String)>, key: &str)
    ensures
        pairs_view(final(rows)@) == without_key(pairs_view(old(rows)@), key@),
{
    let ghost v = pairs_view(rows@);
    let k = to_chars(key);
    let mut out: Vec<(String, String)> = Vec::new();
    let mut i: usize = 0;
    while i < rows.len()
        invariant
            i <= rows.len(),
            k@ == key@,
            v == pairs_view(rows@),
            pairs_view(out@) == without_key(v.take(i as int), key@),
        decreases rows.len() - i,
    {
        proof {
            assert(v.take(i + 1).drop_last() =~= v.take(i as int));
            assert(v.take(i + 1).last() == pair_view(rows@[i as int]));
        }
        if !chars_eq(&to_chars(rows[i].0.as_str()), &k) {
            let ghost before = pairs_view(out@);
            out.push(copy_pair(&rows[i]));
            assert(pairs_view(out@) =~= before.push(pair_view(rows@[i as int])));
        }
        i = i + 1;
    }
    assert(v.take(rows.len() as int) =~= v);
    *rows = out;
}

/// Writes a value under a key as the last row (see [`put_last`]).
pub fn pair_put_last(rows: &mut Vec<(String, String)>, key: &str, value: &str)
    ensures
        pairs_view(final(rows)@) == put_last(pairs_view(old(rows)@), key@, value@),
{
    pair_remove(rows, key);
    let ghost w = pairs_view(rows@);
    rows.push((from_chars(to_chars(key).as_slice()), from_chars(to_chars(value).as_slice())));
    assert(pairs_view(rows@) =~= w.push((key@, value@)));
}

} // verus!
