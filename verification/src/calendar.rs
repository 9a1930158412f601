//! The agenda: events, and reading a time of day or a weekday out of Italian text.
use vstd::prelude::*;
use crate::chars::{contains, contains_exec, find, find_exec, lemma_find, matches_at, slice, to_chars, trim, trim_exec};
use crate::num::{parse_unsigned, parse_u32_exec, is_digit};
use crate::chars::from_chars;
use crate::lower::{lowercase, str_to_lowercase};

verus! {

/// An agenda event, decrypted.
#[derive(Clone, Debug)]
pub struct Event {
    pub id: i64,
    pub title: String,
    pub when_str: String,
    pub notes: String,
}

pub open spec fn is_time_sep(c: char) -> bool {
    c == ' ' || c == ',' || c == ';' || c == '\t'
}

/// Index of the first separator of `s` at or after `i`.
pub open spec fn first_sep(s: Seq<char>, i: int) -> Option<int>
    decreases s.len() - i,
{
    if i < 0 || i >= s.len() {
        None
    } else if is_time_sep(s[i]) {
        Some(i)
    } else {
        first_sep(s, i + 1)
    }
}

/// The pieces of `s` between separators (space, comma, semicolon, tab), empty ones included.
pub open spec fn time_tokens(s: Seq<char>) -> Seq<Seq<char>>
    decreases s.len(),
{
    match first_sep(s, 0) {
        None => seq![s],
        Some(i) => if 0 <= i < s.len() {
            seq![s.take(i)] + time_tokens(s.skip(i + 1))
        } else {
            seq![s]
        },
    }
}

/// Index of the first `:` or `.` of `s` at or after `i`.
pub open spec fn first_colon_or_dot(s: Seq<char>, i: int) -> Option<int>
    decreases s.len() - i,
{
    if i < 0 || i >= s.len() {
        None
    } else if s[i] == ':' || s[i] == '.' {
        Some(i)
    } else {
        first_colon_or_dot(s, i + 1)
    }
}

/// The time `hh:mm` or `hh.mm` a token holds, when hours are below 24 and minutes below 60.
pub open spec fn token_time(tok: Seq<char>) -> Option<(int, int)> {
    let t = trim(tok);
    match first_colon_or_dot(t, 0) {
        None => None,
        Some(i) => match (parse_unsigned(t.take(i), u32::MAX as int), parse_unsigned(
            t.skip(i + 1),
            u32::MAX as int,
        )) {
            (Some(h), Some(m)) => if h < 24 && m < 60 {
                Some((h, m))
            } else {
                None
            },
            _ => None,
        },
    }
}

/// The first token holding a time.
pub open spec fn first_token_time(toks: Seq<Seq<char>>) -> Option<(int, int)>
    decreases toks.len(),
{
    if toks.len() == 0 {
        None
    } else {
        match token_time(toks[0]) {
            Some(t) => Some(t),
            None => first_token_time(toks.drop_first()),
        }
    }
}

/// The leading ASCII digits of `s`.
pub open spec fn leading_digits(s: Seq<char>) -> Seq<char>
    decreases s.len(),
{
    if s.len() > 0 && is_digit(s[0]) {
        seq![s[0]] + leading_digits(s.drop_first())
    } else {
        seq![]
    }
}

/// A time of day in text: the first token like `16:00` or `16.30`; failing that, the hour
/// after `alle ` (`alle 16` is 16:00).
pub open spec fn time_in(s: Seq<char>) -> Option<(int, int)> {
    match first_token_time(time_tokens(s)) {
        Some(t) => Some(t),
        None => match find(s, "alle "@) {
            None => None,
            Some(i) => match parse_unsigned(leading_digits(s.skip(i + "alle "@.len())), u32::MAX as int) {
                Some(h) => if h < 24 {
                    Some((h, 0))
                } else {
                    None
                },
                None => None,
            },
        },
    }
}

fn first_sep_exec(v: &Vec<char>, from: usize) -> (r: Option<usize>)
    requires
        from <= v.len(),
    ensures
        r matches Some(i) ==> from <= i < v.len() && first_sep(v@.skip(from as int), 0) == Some(
            i - from,
        ),
        r is None ==> first_sep(v@.skip(from as int), 0) is None,
{
    let ghost r0 = v@.skip(from as int);
    let mut j = from;
    while j < v.len()
        invariant
            from <= j <= v.len(),
            r0 == v@.skip(from as int),
            first_sep(r0, 0) == first_sep(r0, j - from),
        decreases v.len() - j,
    {
        assert(r0[j - from] == v@[j as int]);
        let c = v[j];
        if c == ' ' || c == ',' || c == ';' || c == '\t' {
            return Some(j);
        }
        j = j + 1;
    }
    None
}

fn token_time_exec(tok: &Vec<char>) -> (r: Option<(u32, u32)>)
    ensures
        r matches Some((h, m)) ==> token_time(tok@) == Some((h as int, m as int)),
        r is None ==> token_time(tok@) is None,
{
    let t = trim_exec(tok);
    let mut i: usize = 0;
    while i < t.len() && t[i] != ':' && t[i] != '.'
        invariant
            i <= t.len(),
            first_colon_or_dot(t@, 0) == first_colon_or_dot(t@, i as int),
        decreases t.len() - i,
    {
        i = i + 1;
    }
    if i == t.len() {
        return None;
    }
    let hh = slice(&t, 0, i);
    let mm = slice(&t, i + 1, t.len());
    assert(hh@ =~= t@.take(i as int));
    assert(mm@ =~= t@.skip(i + 1));
    match (parse_u32_exec(&hh), parse_u32_exec(&mm)) {
        (Some(h), Some(m)) => if h < 24 && m < 60 {
            Some((h, m))
        } else {
            None
        },
        _ => None,
    }
}

/// Extracts a time of day `(h, m)` from text like "16:00", "16.30" or "alle 16" (see
/// [`time_in`]).
pub fn extract_time(s: &str) -> (r: Option<(u32, u32)>)
    ensures
        r matches Some((h, m)) ==> time_in(s@) == Some((h as int, m as int)),
        r is None ==> time_in(s@) is None,
{
    let v = to_chars(s);
    let mut st: usize = 0;
    assert(v@.skip(0) =~= v@);
    let mut found: Option<(u32, u32)> = None;
    loop
        invariant
            st <= v.len(),
            found is None,
            first_token_time(time_tokens(v@)) == first_token_time(time_tokens(v@.skip(st as int))),
            v@ == s@,
        ensures
            first_token_time(time_tokens(v@)) is None,
            v@ == s@,
        decreases v.len() - st,
    {
        let ghost rest = v@.skip(st as int);
        let next = first_sep_exec(&v, st);
        let end = match next {
            Some(i) => i,
            None => v.len(),
        };
        let tok = slice(&v, st, end);
        proof {
            assert(rest.take(end - st) =~= tok@);
            match next {
                Some(i) => {
                    assert(rest.skip(i - st + 1) =~= v@.skip(i + 1));
                    assert(time_tokens(rest) == seq![tok@] + time_tokens(v@.skip(i + 1)));
                    assert((seq![tok@] + time_tokens(v@.skip(i + 1))).drop_first() =~= time_tokens(
                        v@.skip(i + 1),
                    ));
                },
                None => {
                    assert(rest.take(rest.len() as int) =~= rest);
                    assert(time_tokens(rest) == seq![rest]);
                    assert(seq![tok@].drop_first() =~= Seq::<Seq<char>>::empty());
                },
            }
        }
        match token_time_exec(&tok) {
            Some(t) => return Some(t),
            None => {},
        }
        match next {
            None => {
                assert(first_token_time(Seq::<Seq<char>>::empty()) is None);
                assert(first_token_time(seq![tok@]) is None);
                break;
            },
            Some(i) => {
                st = i + 1;
            },
        }
    }
    let alle = to_chars("alle ");
    match find_exec(&v, &alle) {
        None => None,
        Some(i) => {
            proof {
                lemma_find(v@, alle@);
                assert(matches_at(v@, alle@, i as int));
            }
            assert(i + alle.len() <= v.len());
            let mut j = i + alle.len();
            let ghost base = v@.skip(i + alle@.len());
            assert(base =~= v@.skip(j as int));
            let mut num: Vec<char> = Vec::new();
            while j < v.len() && '0' <= v[j] && v[j] <= '9'
                invariant
                    i + alle.len() <= j <= v.len(),
                    base == v@.skip(i + alle@.len()),
                    leading_digits(base) == num@ + leading_digits(v@.skip(j as int)),
                decreases v.len() - j,
            {
                assert(v@.skip(j as int)[0] == v@[j as int]);
                assert(v@.skip(j as int).drop_first() =~= v@.skip(j + 1));
                num.push(v[j]);
                assert(num@ + leading_digits(v@.skip(j + 1)) =~= (num@.drop_last() + (seq![v@[j as int]] + leading_digits(v@.skip(j + 1)))));
                j = j + 1;
            }
            proof {
                if j < v.len() {
                    assert(v@.skip(j as int)[0] == v@[j as int]);
                }
                assert(num@ + Seq::<char>::empty() =~= num@);
            }
            match parse_u32_exec(&num) {
                Some(h) => if h < 24 {
                    Some((h, 0))
                } else {
                    None
                },
                None => None,
            }
        },
    }
}

/// Italian weekday names (with and without accent), Monday = 0.
pub open spec fn weekday_names() -> Seq<(Seq<char>, int)> {
    seq![
        ("lunedì"@, 0), ("lunedi"@, 0), ("martedì"@, 1), ("martedi"@, 1), ("mercoledì"@, 2),
        ("mercoledi"@, 2), ("giovedì"@, 3), ("giovedi"@, 3), ("venerdì"@, 4), ("venerdi"@, 4),
        ("sabato"@, 5), ("domenica"@, 6),
    ]
}

/// The weekday of the first name of the list that occurs in `s`.
pub open spec fn weekday_from(s: Seq<char>, names: Seq<(Seq<char>, int)>) -> Option<int>
    decreases names.len(),
{
    if names.len() == 0 {
        None
    } else if contains(s, names[0].0) {
        Some(names[0].1)
    } else {
        weekday_from(s, names.drop_first())
    }
}

/// The weekday named in text, Monday = 0 (see [`weekday_names`]).
pub fn parse_weekday(s: &str) -> (r: Option<u32>)
    ensures
        r matches Some(n) ==> weekday_from(s@, weekday_names()) == Some(n as int),
        r is None ==> weekday_from(s@, weekday_names()) is None,
{
    let v = to_chars(s);
    let names: Vec<(Vec<char>, u32)> = vec![
        (to_chars("lunedì"), 0), (to_chars("lunedi"), 0), (to_chars("martedì"), 1),
        (to_chars("martedi"), 1), (to_chars("mercoledì"), 2), (to_chars("mercoledi"), 2),
        (to_chars("giovedì"), 3), (to_chars("giovedi"), 3), (to_chars("venerdì"), 4),
        (to_chars("venerdi"), 4), (to_chars("sabato"), 5), (to_chars("domenica"), 6),
    ];
    let ghost nv = names@.map_values(|p: (Vec<char>, u32)| (p.0@, p.1 as int));
    assert(nv =~= weekday_names());
    let mut k: usize = 0;
    assert(nv.skip(0) =~= nv);
    while k < names.len()
        invariant
            k <= names.len(),
            nv == names@.map_values(|p: (Vec<char>, u32)| (p.0@, p.1 as int)),
            nv == weekday_names(),
            weekday_from(s@, nv) == weekday_from(s@, nv.skip(k as int)),
            v@ == s@,
        decreases names.len() - k,
    {
        assert(nv.skip(k as int)[0] == (names@[k as int].0@, names@[k as int].1 as int));
        assert(nv.skip(k as int).drop_first() =~= nv.skip(k + 1));
        if contains_exec(&v, &names[k].0) {
            return Some(names[k].1);
        }
        k = k + 1;
    }
    None
}

/// The mathematical form of an [`Event`].
pub open spec fn event_view(e: Event) -> (i64, Seq<char>, Seq<char>, Seq<char>) {
    (e.id, e.title@, e.when_str@, e.notes@)
}

/// The events whose title or notes contain the lowercase query, in order.
pub open spec fn events_matching(
    es: Seq<(i64, Seq<char>, Seq<char>, Seq<char>)>,
    q: Seq<char>,
) -> Seq<(i64, Seq<char>, Seq<char>, Seq<char>)>
    decreases es.len(),
{
    if es.len() == 0 {
        seq![]
    } else {
        let rest = events_matching(es.drop_last(), q);
        if contains(lowercase(es.last().1), q) || contains(lowercase(es.last().3), q) {
            rest.push(es.last())
        } else {
            rest
        }
    }
}

/// An agenda search: the first `limit` events whose title or notes contain the query, ignoring
/// case (the limit is taken as `usize`, as a cast does).
pub open spec fn event_search(
    es: Seq<(i64, Seq<char>, Seq<char>, Seq<char>)>,
    query: Seq<char>,
    limit: i64,
) -> Seq<(i64, Seq<char>, Seq<char>, Seq<char>)> {
    let m = events_matching(es, lowercase(query));
    let n = limit as usize;
    if m.len() <= n {
        m
    } else {
        m.take(n as int)
    }
}

proof fn lemma_events_matching_prefix(es: Seq<(i64, Seq<char>, Seq<char>, Seq<char>)>, n: int, q: Seq<char>)
    requires
        0 <= n <= es.len(),
    ensures
        events_matching(es.take(n), q).len() <= events_matching(es, q).len(),
        forall|j: int|
            0 <= j < events_matching(es.take(n), q).len() ==> #[trigger] events_matching(es.take(n), q)[j]
                == events_matching(es, q)[j],
    decreases es.len() - n,
{
    if n == es.len() {
        assert(es.take(n) =~= es);
    } else {
        lemma_events_matching_prefix(es, n + 1, q);
        assert(es.take(n + 1).drop_last() =~= es.take(n));
        let a = events_matching(es.take(n), q);
        let b = events_matching(es.take(n + 1), q);
        assert(b == a || b == a.push(es.take(n + 1).last()));
        assert forall|j: int| 0 <= j < a.len() implies #[trigger] a[j] == events_matching(es, q)[j] by {
            assert(a[j] == b[j]);
        }
    }
}

fn copy_event(e: &Event) -> (r: Event)
    ensures
        event_view(r) == event_view(*e),
{
    Event {
        id: e.id,
        title: from_chars(to_chars(e.title.as_str()).as_slice()),
        when_str: from_chars(to_chars(e.when_str.as_str()).as_slice()),
        notes: from_chars(to_chars(e.notes.as_str()).as_slice()),
    }
}

/// Searches the agenda's events, soonest first as listed (see [`event_search`]).
pub fn search_events(all: &Vec<Event>, query: &str, limit: i64) -> (r: Vec<Event>)
    ensures
        r@.map_values(|e: Event| event_view(e)) == event_search(
            all@.map_values(|e: Event| event_view(e)),
            query@,
            limit,
        ),
{
    let ghost ev = all@.map_values(|e: Event| event_view(e));
    let n = limit as usize;
    let q = to_chars(str_to_lowercase(query).as_str());
    let mut r: Vec<Event> = Vec::new();
    let mut k: usize = 0;
    while k < all.len() && r.len() < n
        invariant
            k <= all.len(),
            r.len() <= n,
            n == limit as usize,
            ev == all@.map_values(|e: Event| event_view(e)),
            q@ == lowercase(query@),
            r@.map_values(|e: Event| event_view(e)) == events_matching(ev.take(k as int), q@),
        decreases all.len() - k,
    {
        proof {
            assert(ev.take(k + 1).drop_last() =~= ev.take(k as int));
            assert(ev.take(k + 1).last() == event_view(all@[k as int]));
        }
        if contains_exec(&to_chars(str_to_lowercase(all[k].title.as_str()).as_str()), &q) || contains_exec(
            &to_chars(str_to_lowercase(all[k].notes.as_str()).as_str()),
            &q,
        ) {
            let ghost before = r@.map_values(|e: Event| event_view(e));
            r.push(copy_event(&all[k]));
            assert(r@.map_values(|e: Event| event_view(e)) =~= before.push(event_view(all@[k as int])));
        }
        k = k + 1;
    }
    proof {
        let m = events_matching(ev, q@);
        lemma_events_matching_prefix(ev, k as int, q@);
        if k == all.len() {
            assert(ev.take(k as int) =~= ev);
        }
        let got = r@.map_values(|e: Event| event_view(e));
        if m.len() > n {
            assert(got =~= m.take(n as int));
        } else {
            assert(got =~= m);
        }
    }
    r
}

/// The matching events are the events filtered by any predicate that agrees with the test of
/// [`events_matching`].
proof fn lemma_events_matching_is_filter(
    es: Seq<(i64, Seq<char>, Seq<char>, Seq<char>)>,
    q: Seq<char>,
    p: spec_fn((i64, Seq<char>, Seq<char>, Seq<char>)) -> bool,
)
    requires
        forall|e: (i64, Seq<char>, Seq<char>, Seq<char>)| #[trigger] p(e) == (contains(lowercase(e.1), q)
            || contains(lowercase(e.3), q)),
    ensures
        events_matching(es, q) == es.filter(p),
    decreases es.len(),
{
    reveal(Seq::filter);
    if es.len() > 0 {
        lemma_events_matching_is_filter(es.drop_last(), q, p);
    }
}

/// An agenda search finds every event whose lowercase title or notes contain the lowercase
/// query, as long as fewer than `limit` such events come before it (all of them, when fewer
/// than `limit` events match at all).
pub proof fn lemma_event_search_finds_every_match(
    es: Seq<(i64, Seq<char>, Seq<char>, Seq<char>)>,
    query: Seq<char>,
    limit: i64,
    i: int,
)
    requires
        0 <= i < es.len(),
        contains(lowercase(es[i].1), lowercase(query)) || contains(lowercase(es[i].3), lowercase(query)),
        es.take(i).filter(
            |e: (i64, Seq<char>, Seq<char>, Seq<char>)|
                contains(lowercase(e.1), lowercase(query)) || contains(lowercase(e.3), lowercase(query)),
        ).len() < limit as usize,
    ensures
        event_search(es, query, limit).contains(es[i]),
{
    let q = lowercase(query);
    let p = |e: (i64, Seq<char>, Seq<char>, Seq<char>)|
        contains(lowercase(e.1), lowercase(query)) || contains(lowercase(e.3), lowercase(query));
    lemma_events_matching_is_filter(es.take(i), q, p);
    let a = events_matching(es.take(i), q);
    assert(es.take(i + 1).drop_last() =~= es.take(i));
    assert(es.take(i + 1).last() == es[i]);
    let b = events_matching(es.take(i + 1), q);
    assert(b == a.push(es[i]));
    lemma_events_matching_prefix(es, i + 1, q);
    let c = a.len() as int;
    assert(b[c] == es[i]);
    let m = events_matching(es, q);
    assert(m[c] == es[i]);
    let r = event_search(es, query, limit);
    assert(r[c] == es[i]);
}

/// An agenda search returns only events of the agenda whose lowercase title or notes contain
/// the lowercase query, in the agenda's order, and never more than `limit` of them.
pub proof fn lemma_event_search_returns_only_matches(
    es: Seq<(i64, Seq<char>, Seq<char>, Seq<char>)>,
    query: Seq<char>,
    limit: i64,
    k: int,
)
    requires
        0 <= k < event_search(es, query, limit).len(),
    ensures
        event_search(es, query, limit).len() <= limit as usize,
        es.contains(event_search(es, query, limit)[k]),
        contains(lowercase(event_search(es, query, limit)[k].1), lowercase(query))
            || contains(lowercase(event_search(es, query, limit)[k].3), lowercase(query)),
{
    let q = lowercase(query);
    let p = |e: (i64, Seq<char>, Seq<char>, Seq<char>)| contains(lowercase(e.1), q) || contains(lowercase(e.3), q);
    lemma_events_matching_is_filter(es, q, p);
    let m = events_matching(es, q);
    let e = event_search(es, query, limit)[k];
    assert(m[k] == e);
    es.lemma_filter_contains_rev(p, e);
    es.lemma_filter_pred(p, k);
}

/// An agenda search returns the events whose lowercase title or notes contain the lowercase
/// query, in the agenda's order: the first `limit` of them, or all when there are fewer.
pub proof fn lemma_event_search_is_first_matches(
    es: Seq<(i64, Seq<char>, Seq<char>, Seq<char>)>,
    query: Seq<char>,
    limit: i64,
)
    ensures
        ({
            let hits = es.filter(
                |e: (i64, Seq<char>, Seq<char>, Seq<char>)|
                    contains(lowercase(e.1), lowercase(query)) || contains(lowercase(e.3), lowercase(query)),
            );
            let r = event_search(es, query, limit);
            &&& r.len() == if hits.len() <= limit as usize { hits.len() as int } else { limit as usize as int }
            &&& forall|k: int| 0 <= k < r.len() ==> #[trigger] r[k] == hits[k]
        }),
{
    let p = |e: (i64, Seq<char>, Seq<char>, Seq<char>)|
        contains(lowercase(e.1), lowercase(query)) || contains(lowercase(e.3), lowercase(query));
    lemma_events_matching_is_filter(es, lowercase(query), p);
}

} // verus!
