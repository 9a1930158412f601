//! The in-memory recall index: which episodes are the newest, what pruning a kind keeps, and
//! the turn counter that paces reflection.
//!
//! The index orders its entries by id, and a larger id is a newer memory.  Selection here is
//! done on `(id, position)` pairs, so the texts themselves are never copied until chosen.
use vstd::prelude::*;
use crate::chars::{to_chars, chars_eq, from_chars};
use crate::num::{parse_i64, parse_i64_exec};

verus! {

/// The position of the first pair with the largest key.
pub open spec fn first_max<A>(s: Seq<(i64, A)>) -> int
    decreases s.len(),
{
    if s.len() <= 1 {
        0
    } else {
        let j = first_max(s.drop_last());
        if s.last().0 > s[j].0 {
            s.len() - 1
        } else {
            j
        }
    }
}

/// `first_max` points into the sequence at a largest key.
pub proof fn lemma_first_max<A>(s: Seq<(i64, A)>)
    requires
        s.len() > 0,
    ensures
        0 <= first_max(s) < s.len(),
        forall|i: int| 0 <= i < s.len() ==> (#[trigger] s[i]).0 <= s[first_max(s)].0,
    decreases s.len(),
{
    if s.len() > 1 {
        let d = s.drop_last();
        lemma_first_max(d);
        let j = first_max(d);
        assert(d[j] == s[j]);
        assert forall|i: int| 0 <= i < s.len() implies (#[trigger] s[i]).0 <= s[first_max(s)].0 by {
            if i < s.len() - 1 {
                assert(d[i] == s[i]);
            }
        }
    }
}

/// The pairs by decreasing key; among equal keys the earlier comes first.
pub open spec fn newest_first<A>(s: Seq<(i64, A)>) -> Seq<(i64, A)>
    decreases s.len(),
{
    if s.len() == 0 {
        seq![]
    } else {
        proof {
            lemma_first_max(s);
        }
        seq![s[first_max(s)]] + newest_first(s.remove(first_max(s)))
    }
}

/// Ordering keeps every pair and adds none.
pub proof fn lemma_newest_first_same<A>(s: Seq<(i64, A)>)
    ensures
        newest_first(s).len() == s.len(),
        forall|x: (i64, A)| s.contains(x) <==> #[trigger] newest_first(s).contains(x),
    decreases s.len(),
{
    if s.len() > 0 {
        lemma_first_max(s);
        let m = first_max(s);
        let r = s.remove(m);
        s.remove_ensures(m);
        lemma_newest_first_same(r);
        let n = newest_first(s);
        assert(n == seq![s[m]] + newest_first(r));
        assert forall|x: (i64, A)| s.contains(x) <==> #[trigger] n.contains(x) by {
            if s.contains(x) {
                let i = choose|i: int| 0 <= i < s.len() && s[i] == x;
                if i != m {
                    let k = if i < m {
                        i
                    } else {
                        i - 1
                    };
                    assert(r[k] == x);
                    assert(newest_first(r).contains(x));
                    let j = choose|j: int| 0 <= j < newest_first(r).len() && newest_first(r)[j] == x;
                    assert(n[j + 1] == x);
                } else {
                    assert(n[0] == x);
                }
            }
            if n.contains(x) {
                let j = choose|j: int| 0 <= j < n.len() && n[j] == x;
                if j > 0 {
                    assert(newest_first(r)[j - 1] == x);
                    assert(newest_first(r).contains(x));
                    assert(r.contains(x));
                    let k = choose|k: int| 0 <= k < r.len() && r[k] == x;
                    if k < m {
                        assert(s[k] == x);
                    } else {
                        assert(s[k + 1] == x);
                    }
                } else {
                    assert(s[m] == x);
                }
            }
        }
    }
}

/// Ordering puts the keys in decreasing order.
pub proof fn lemma_newest_first_sorted<A>(s: Seq<(i64, A)>)
    ensures
        forall|i: int, j: int|
            0 <= i < j < newest_first(s).len() ==> #[trigger] newest_first(s)[i].0 >= #[trigger] newest_first(
                s,
            )[j].0,
    decreases s.len(),
{
    if s.len() > 0 {
        lemma_first_max(s);
        let m = first_max(s);
        let r = s.remove(m);
        s.remove_ensures(m);
        lemma_newest_first_sorted(r);
        lemma_newest_first_same(r);
        let n = newest_first(s);
        let nr = newest_first(r);
        assert(n == seq![s[m]] + nr);
        assert forall|i: int, j: int| 0 <= i < j < n.len() implies #[trigger] n[i].0 >= #[trigger] n[j].0 by {
            if i == 0 {
                assert(n[j] == nr[j - 1]);
                assert(nr.contains(n[j]));
                assert(r.contains(n[j]));
                let k = choose|k: int| 0 <= k < r.len() && r[k] == n[j];
                if k < m {
                    assert(s[k] == n[j]);
                } else {
                    assert(s[k + 1] == n[j]);
                }
            } else {
                assert(n[i] == nr[i - 1]);
                assert(n[j] == nr[j - 1]);
            }
        }
    }
}

/// Whatever the first `n` of the ordering leave out is no newer than what they keep.
pub proof fn lemma_newest_first_take<A>(s: Seq<(i64, A)>, n: int, a: (i64, A), b: (i64, A))
    requires
        0 <= n <= s.len(),
        newest_first(s).take(n).contains(a),
        s.contains(b),
        !newest_first(s).take(n).contains(b),
    ensures
        a.0 >= b.0,
{
    lemma_newest_first_same(s);
    lemma_newest_first_sorted(s);
    let o = newest_first(s);
    let i = choose|i: int| 0 <= i < n && o.take(n)[i] == a;
    assert(o.contains(b));
    let j = choose|j: int| 0 <= j < o.len() && o[j] == b;
    if j < n {
        assert(o.take(n)[j] == b);
    }
    assert(o[i] == a);
    assert(o[i].0 >= o[j].0);
}

/// The position of the first largest key (see [`first_max`]).
fn first_max_exec<T>(v: &Vec<(i64, T)>) -> (m: usize)
    requires
        v.len() > 0,
    ensures
        m == first_max(v@),
{
    let mut m: usize = 0;
    let mut i: usize = 1;
    assert(v@.take(1).len() == 1);
    while i < v.len()
        invariant
            1 <= i <= v.len(),
            m == first_max(v@.take(i as int)),
        decreases v.len() - i,
    {
        proof {
            lemma_first_max(v@.take(i as int));
            assert(v@.take(i + 1).drop_last() =~= v@.take(i as int));
        }
        if v[i].0 > v[m].0 {
            m = i;
        }
        i = i + 1;
    }
    assert(v@.take(v.len() as int) =~= v@);
    m
}

/// The first `k` pairs by decreasing key (see [`newest_first`]).
pub fn newest_first_take<T>(items: Vec<(i64, T)>, k: usize) -> (r: Vec<(i64, T)>)
    ensures
        r@ == newest_first(items@).take(if k < items.len() {
            k as int
        } else {
            items.len() as int
        }),
{
    let ghost all = items@;
    let mut rest = items;
    let mut r: Vec<(i64, T)> = Vec::new();
    proof {
        assert(r@ + newest_first(rest@) =~= newest_first(all));
    }
    while r.len() < k && rest.len() > 0
        invariant
            r@ + newest_first(rest@) == newest_first(all),
            r.len() + rest.len() == all.len(),
            r.len() <= k,
        decreases rest.len(),
    {
        let m = first_max_exec(&rest);
        proof {
            lemma_first_max(rest@);
        }
        let ghost before = rest@;
        let ghost r0 = r@;
        let x = rest.remove(m);
        proof {
            before.remove_ensures(m as int);
            assert(newest_first(before) == seq![before[m as int]] + newest_first(before.remove(m as int)));
        }
        r.push(x);
        proof {
            assert(r@ + newest_first(rest@) =~= r0 + newest_first(before));
        }
    }
    proof {
        lemma_newest_first_same(all);
        lemma_newest_first_same(rest@);
        assert(newest_first(all).take(r.len() as int) =~= r@);
    }
    r
}

/// One entry of the recall index, as the selection reads it: the memory's id, its kind, whether
/// it is still current, and its text.
pub struct IndexEntry {
    pub id: i64,
    pub kind: String,
    pub valid: bool,
    pub text: String,
}

/// `(id, position)` of every current entry of kind `kind`, in index order.
pub open spec fn current_of_kind(es: Seq<IndexEntry>, kind: Seq<char>) -> Seq<(i64, usize)>
    decreases es.len(),
{
    if es.len() == 0 {
        seq![]
    } else {
        let rest = current_of_kind(es.drop_last(), kind);
        let e = es.last();
        if e.valid && e.kind@ == kind {
            rest.push((e.id, (es.len() - 1) as usize))
        } else {
            rest
        }
    }
}

/// `(id, position)` of every entry of kind `kind`, current or not, in index order.
pub open spec fn all_of_kind(es: Seq<IndexEntry>, kind: Seq<char>) -> Seq<(i64, usize)>
    decreases es.len(),
{
    if es.len() == 0 {
        seq![]
    } else {
        let rest = all_of_kind(es.drop_last(), kind);
        let e = es.last();
        if e.kind@ == kind {
            rest.push((e.id, (es.len() - 1) as usize))
        } else {
            rest
        }
    }
}

/// How many of `len` items a signed limit admits: none for a limit at or below zero.
pub open spec fn admitted(limit: int, len: int) -> int {
    if limit <= 0 {
        0
    } else if limit < len {
        limit
    } else {
        len
    }
}

/// The newest `limit` current episodes, as `(id, position)` pairs, newest first.
pub open spec fn recent_episodes(es: Seq<IndexEntry>, limit: int) -> Seq<(i64, usize)> {
    let eps = current_of_kind(es, "episode"@);
    newest_first(eps).take(admitted(limit, eps.len() as int))
}

/// The texts of the newest `limit` current episodes, newest first.
pub open spec fn recent_texts(es: Seq<IndexEntry>, limit: int) -> Seq<Seq<char>> {
    recent_episodes(es, limit).map_values(|p: (i64, usize)| es[p.1 as int].text@)
}

proof fn lemma_positions_in_range(es: Seq<IndexEntry>, kind: Seq<char>)
    requires
        es.len() <= usize::MAX,
    ensures
        forall|i: int| 0 <= i < current_of_kind(es, kind).len() ==> (#[trigger] current_of_kind(es, kind)[i]).1 < es.len(),
        forall|i: int| 0 <= i < all_of_kind(es, kind).len() ==> (#[trigger] all_of_kind(es, kind)[i]).1 < es.len(),
    decreases es.len(),
{
    if es.len() > 0 {
        let d = es.drop_last();
        lemma_positions_in_range(d, kind);
        let c = current_of_kind(es, kind);
        let cd = current_of_kind(d, kind);
        assert forall|i: int| 0 <= i < c.len() implies (#[trigger] c[i]).1 < es.len() by {
            if i < cd.len() {
                assert(c[i] == cd[i]);
            }
        }
        let a = all_of_kind(es, kind);
        let ad = all_of_kind(d, kind);
        assert forall|i: int| 0 <= i < a.len() implies (#[trigger] a[i]).1 < es.len() by {
            if i < ad.len() {
                assert(a[i] == ad[i]);
            }
        }
    }
}

/// The `(id, position)` pairs of the entries that satisfy the kind test, in order.
fn slots_of_kind(entries: &Vec<IndexEntry>, kind: &str, current: bool) -> (r: Vec<(i64, usize)>)
    ensures
        r@ == (if current {
            current_of_kind(entries@, kind@)
        } else {
            all_of_kind(entries@, kind@)
        }),
{
    let k = to_chars(kind);
    let mut r: Vec<(i64, usize)> = Vec::new();
    let mut i: usize = 0;
    while i < entries.len()
        invariant
            i <= entries.len(),
            k@ == kind@,
            r@ == (if current {
                current_of_kind(entries@.take(i as int), kind@)
            } else {
                all_of_kind(entries@.take(i as int), kind@)
            }),
        decreases entries.len() - i,
    {
        proof {
            assert(entries@.take(i + 1).drop_last() =~= entries@.take(i as int));
        }
        let same = chars_eq(&to_chars(entries[i].kind.as_str()), &k);
        if same && (entries[i].valid || !current) {
            r.push((entries[i].id, i));
        }
        i = i + 1;
    }
    proof {
        assert(entries@.take(entries.len() as int) =~= entries@);
    }
    r
}

/// The index's `take`: how many of `len` items a signed limit admits.
fn admitted_exec(limit: i64, len: usize) -> (r: usize)
    ensures
        r as int == admitted(limit as int, len as int),
{
    if limit <= 0 {
        0
    } else if (limit as u64) < (len as u64) {
        limit as usize
    } else {
        len
    }
}

/// The texts of the newest `limit` current episodes, newest first (see [`recent_texts`]).
pub fn recent_episode_texts(entries: &Vec<IndexEntry>, limit: i64) -> (r: Vec<String>)
    ensures
        r@.map_values(|s: String| s@) == recent_texts(entries@, limit as int),
{
    let eps = slots_of_kind(entries, "episode", true);
    let n = admitted_exec(limit, eps.len());
    let chosen = newest_first_take(eps, n);
    let ghost eps_v = current_of_kind(entries@, "episode"@);
    proof {
        assert(entries@.len() == entries.len());
        lemma_positions_in_range(entries@, "episode"@);
        lemma_newest_first_same(eps_v);
        assert forall|j: int| 0 <= j < chosen.len() implies #[trigger] chosen@[j].1 < entries.len() by {
            assert(newest_first(eps_v).contains(chosen@[j])) by {
                assert(newest_first(eps_v)[j] == chosen@[j]);
            }
            assert(eps_v.contains(chosen@[j]));
        }
    }
    let mut r: Vec<String> = Vec::new();
    let mut j: usize = 0;
    while j < chosen.len()
        invariant
            j <= chosen.len(),
            chosen@ == recent_episodes(entries@, limit as int),
            forall|t: int| 0 <= t < chosen.len() ==> #[trigger] chosen@[t].1 < entries.len(),
            r@.map_values(|s: String| s@) == chosen@.take(j as int).map_values(
                |p: (i64, usize)| entries@[p.1 as int].text@,
            ),
        decreases chosen.len() - j,
    {
        let p = chosen[j].1;
        let t = from_chars(to_chars(entries[p].text.as_str()).as_slice());
        let ghost before = r@.map_values(|s: String| s@);
        r.push(t);
        proof {
            assert(chosen@.take(j + 1) =~= chosen@.take(j as int).push(chosen@[j as int]));
            assert(r@.map_values(|s: String| s@) =~= before.push(t@));
            assert(chosen@.take(j + 1).map_values(|p: (i64, usize)| entries@[p.1 as int].text@)
                =~= chosen@.take(j as int).map_values(|p: (i64, usize)| entries@[p.1 as int].text@).push(
                entries@[p as int].text@,
            ));
        }
        j = j + 1;
    }
    proof {
        assert(chosen@.take(chosen.len() as int) =~= chosen@);
    }
    r
}

/// The ids of kind `kind` that pruning to `keep` spares: the `keep` largest.
pub open spec fn kept_ids(es: Seq<IndexEntry>, kind: Seq<char>, keep: int) -> Seq<i64> {
    let all = all_of_kind(es, kind);
    newest_first(all).take(admitted(keep, all.len() as int)).map_values(|p: (i64, usize)| p.0)
}

/// Whether pruning kind `kind` to its `keep` newest spares entry `e`: entries of other kinds
/// always stay.
pub open spec fn spared(es: Seq<IndexEntry>, kind: Seq<char>, keep: int, e: IndexEntry) -> bool {
    e.kind@ != kind || kept_ids(es, kind, keep).contains(e.id)
}

/// For each entry of the index, whether pruning kind `kind` to its `keep` most recent entries
/// spares it (see [`spared`]); the caller removes the others, from the store and the index.
pub fn prune_flags(entries: &Vec<IndexEntry>, kind: &str, keep: i64) -> (r: Vec<bool>)
    ensures
        r.len() == entries.len(),
        forall|i: int| 0 <= i < entries.len() ==> r@[i] == spared(entries@, kind@, keep as int, #[trigger] entries@[i]),
{
    let all = slots_of_kind(entries, kind, false);
    let n = admitted_exec(keep, all.len());
    let chosen = newest_first_take(all, n);
    let ghost ids = kept_ids(entries@, kind@, keep as int);
    assert(chosen@.map_values(|p: (i64, usize)| p.0) == ids);
    let k = to_chars(kind);
    let mut r: Vec<bool> = Vec::new();
    let mut i: usize = 0;
    while i < entries.len()
        invariant
            i <= entries.len(),
            k@ == kind@,
            r.len() == i,
            chosen@.map_values(|p: (i64, usize)| p.0) == ids,
            ids == kept_ids(entries@, kind@, keep as int),
            forall|t: int| 0 <= t < i ==> r@[t] == spared(entries@, kind@, keep as int, #[trigger] entries@[t]),
        decreases entries.len() - i,
    {
        let other = !chars_eq(&to_chars(entries[i].kind.as_str()), &k);
        let mut found = false;
        let mut j: usize = 0;
        while j < chosen.len()
            invariant
                j <= chosen.len(),
                i < entries.len(),
                chosen@.map_values(|p: (i64, usize)| p.0) == ids,
                found == ids.take(j as int).contains(entries@[i as int].id),
            decreases chosen.len() - j,
        {
            proof {
                assert(ids[j as int] == chosen@[j as int].0);
                let idv = entries@[i as int].id;
                if ids[j as int] == idv {
                    assert(ids.take(j + 1)[j as int] == idv);
                } else {
                    if ids.take(j + 1).contains(idv) {
                        let t = choose|t: int| 0 <= t < j + 1 && #[trigger] ids.take(j + 1)[t] == idv;
                        assert(ids.take(j as int)[t] == idv);
                    }
                    if ids.take(j as int).contains(idv) {
                        let t = choose|t: int| 0 <= t < j && #[trigger] ids.take(j as int)[t] == idv;
                        assert(ids.take(j + 1)[t] == idv);
                    }
                }
            }
            if chosen[j].0 == entries[i].id {
                found = true;
            }
            j = j + 1;
        }
        proof {
            assert(ids.take(chosen.len() as int) =~= ids);
        }
        r.push(other || found);
        i = i + 1;
    }
    r
}

/// Pruning never touches the entries of another kind.
pub proof fn lemma_prune_spares_other_kinds(es: Seq<IndexEntry>, kind: Seq<char>, keep: int, e: IndexEntry)
    requires
        e.kind@ != kind,
    ensures
        spared(es, kind, keep, e),
{
}

proof fn lemma_all_of_kind_lists(es: Seq<IndexEntry>, kind: Seq<char>, i: int)
    requires
        0 <= i < es.len(),
        es[i].kind@ == kind,
    ensures
        all_of_kind(es, kind).contains((es[i].id, i as usize)),
    decreases es.len(),
{
    if i < es.len() - 1 {
        lemma_all_of_kind_lists(es.drop_last(), kind, i);
        let rest = all_of_kind(es.drop_last(), kind);
        let k = choose|k: int| 0 <= k < rest.len() && rest[k] == (es[i].id, i as usize);
        if es.last().kind@ == kind {
            assert(all_of_kind(es, kind)[k] == (es[i].id, i as usize));
        }
    } else {
        let rest = all_of_kind(es.drop_last(), kind);
        assert(all_of_kind(es, kind)[rest.len() as int] == (es[i].id, i as usize));
    }
}

/// Pruning keeps the newest: of two entries of the pruned kind, when one is spared and the
/// other is not, the spared one has the larger (or equal) id.
pub proof fn lemma_prune_keeps_newest(es: Seq<IndexEntry>, kind: Seq<char>, keep: int, i: int, j: int)
    requires
        0 <= i < es.len(),
        0 <= j < es.len(),
        es[i].kind@ == kind,
        es[j].kind@ == kind,
        spared(es, kind, keep, es[i]),
        !spared(es, kind, keep, es[j]),
    ensures
        es[i].id >= es[j].id,
{
    let all = all_of_kind(es, kind);
    let n = admitted(keep, all.len() as int);
    let chosen = newest_first(all).take(n);
    let ids = kept_ids(es, kind, keep);
    lemma_newest_first_same(all);
    assert(ids.contains(es[i].id));
    let a = choose|a: int| 0 <= a < ids.len() && ids[a] == es[i].id;
    assert(chosen.contains(chosen[a]));
    lemma_all_of_kind_lists(es, kind, j);
    let b = (es[j].id, j as usize);
    if chosen.contains(b) {
        let c = choose|c: int| 0 <= c < chosen.len() && chosen[c] == b;
        assert(ids[c] == es[j].id);
    }
    lemma_newest_first_take(all, n, chosen[a], b);
}

/// The newest episodes are chosen: a current episode that is not among the chosen is no newer
/// than any that is.
pub proof fn lemma_recent_are_newest(es: Seq<IndexEntry>, limit: int, a: (i64, usize), b: (i64, usize))
    requires
        recent_episodes(es, limit).contains(a),
        current_of_kind(es, "episode"@).contains(b),
        !recent_episodes(es, limit).contains(b),
    ensures
        a.0 >= b.0,
{
    let eps = current_of_kind(es, "episode"@);
    lemma_newest_first_take(eps, admitted(limit, eps.len() as int), a, b);
}

/// The chosen episodes come newest first.
pub proof fn lemma_recent_in_order(es: Seq<IndexEntry>, limit: int, i: int, j: int)
    requires
        0 <= i < j < recent_episodes(es, limit).len(),
    ensures
        recent_episodes(es, limit)[i].0 >= recent_episodes(es, limit)[j].0,
{
    let eps = current_of_kind(es, "episode"@);
    lemma_newest_first_sorted(eps);
    lemma_newest_first_same(eps);
    assert(recent_episodes(es, limit)[i] == newest_first(eps)[i]);
    assert(recent_episodes(es, limit)[j] == newest_first(eps)[j]);
}

/// The turn counter after one more turn: the saved count (zero when none is saved or it does
/// not read as a number), plus one.
pub open spec fn next_turn(saved: Option<Seq<char>>) -> int {
    let cur = match saved {
        Some(s) => match parse_i64(s) {
            Some(v) => v,
            None => 0,
        },
        None => 0,
    };
    cur + 1
}

/// Advances the turn counter (see [`next_turn`]).
pub fn bump_turn(saved: Option<&str>) -> (r: i64)
    requires
        match saved {
            Some(s) => parse_i64(s@) != Some(i64::MAX as int),
            None => true,
        },
    ensures
        r as int == next_turn(
            match saved {
                Some(s) => Some(s@),
                None => None,
            },
        ),
{
    let cur: i64 = match saved {
        Some(s) => match parse_i64_exec(&to_chars(s)) {
            Some(v) => v,
            None => 0,
        },
        None => 0,
    };
    cur + 1
}

} // verus!
