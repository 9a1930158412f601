//! What the persistent memory contributes to prompts and settings screens: the profile block of
//! the system prompt, the location shown in the settings, and the keys of per-tool permissions.
//! The rows themselves are read from and written to the database by the application.
use vstd::prelude::*;
use crate::chars::{
    to_chars, from_chars, append_str, starts_with, starts_with_exec, slice, contains, contains_exec,
    chars_eq,
};
use crate::lower::{lowercase, str_to_lowercase};
use crate::json::{json_parse, string_field, parse_json, get_string};

verus! {

/// Lines `- item` ending in a newline, one per item.
pub open spec fn bullets(items: Seq<Seq<char>>) -> Seq<char>
    decreases items.len(),
{
    if items.len() == 0 {
        seq![]
    } else {
        bullets(items.drop_last()) + "- "@ + items.last() + "\n"@
    }
}

/// Lines `- key: value` ending in a newline, one per profile entry.
pub open spec fn entry_lines(entries: Seq<(Seq<char>, Seq<char>)>) -> Seq<char>
    decreases entries.len(),
{
    if entries.len() == 0 {
        seq![]
    } else {
        entry_lines(entries.drop_last()) + "- "@ + entries.last().0 + ": "@ + entries.last().1
            + "\n"@
    }
}

/// The "what I know about you" block of the system prompt: nothing when there is neither a
/// profile nor a learned fact; otherwise a heading, the profile entries and the facts, each part
/// only when it has something.
pub open spec fn profile_text(
    entries: Seq<(Seq<char>, Seq<char>)>,
    facts: Seq<Seq<char>>,
) -> Seq<char> {
    if entries.len() == 0 && facts.len() == 0 {
        seq![]
    } else {
        "\n\nMemoria persistente sull'utente (conoscila e usala con naturalezza, non elencarla):\n"@
            + (if entries.len() == 0 {
            seq![]
        } else {
            "Profilo:\n"@ + entry_lines(entries)
        }) + (if facts.len() == 0 {
            seq![]
        } else {
            "Altri dettagli appresi:\n"@ + bullets(facts)
        })
    }
}

/// Appends `- item\n` for each item.
pub fn push_bullets(p: &mut Vec<char>, items: &Vec<String>)
    ensures
        final(p)@ == old(p)@ + bullets(items@.map_values(|s: String| s@)),
{
    let ghost p0 = p@;
    let ghost iv = items@.map_values(|s: String| s@);
    let mut k: usize = 0;
    while k < items.len()
        invariant
            k <= items.len(),
            iv == items@.map_values(|s: String| s@),
            p@ == p0 + bullets(iv.take(k as int)),
        decreases items.len() - k,
    {
        proof {
            assert(iv.take(k + 1).drop_last() =~= iv.take(k as int));
            assert(iv.take(k + 1).last() == items@[k as int]@);
        }
        append_str(p, "- ");
        append_str(p, items[k].as_str());
        append_str(p, "\n");
        k = k + 1;
        assert(p@ =~= p0 + bullets(iv.take(k as int)));
    }
    assert(iv.take(items.len() as int) =~= iv);
}

/// The profile block of the system prompt from the stored profile entries and facts (see
/// [`profile_text`]).
pub fn profile_block(entries: &Vec<(String, String)>, facts: &Vec<String>) -> (r: String)
    ensures
        r@ == profile_text(
            entries@.map_values(|e: (String, String)| (e.0@, e.1@)),
            facts@.map_values(|s: String| s@),
        ),
{
    let ghost ev = entries@.map_values(|e: (String, String)| (e.0@, e.1@));
    let ghost fv = facts@.map_values(|s: String| s@);
    if entries.len() == 0 && facts.len() == 0 {
        return String::new();
    }
    let mut p = to_chars(
        "\n\nMemoria persistente sull'utente (conoscila e usala con naturalezza, non elencarla):\n",
    );
    let ghost head = p@;
    if entries.len() > 0 {
        append_str(&mut p, "Profilo:\n");
        let ghost p0 = p@;
        let mut k: usize = 0;
        while k < entries.len()
            invariant
                k <= entries.len(),
                ev == entries@.map_values(|e: (String, String)| (e.0@, e.1@)),
                p@ == p0 + entry_lines(ev.take(k as int)),
            decreases entries.len() - k,
        {
            proof {
                assert(ev.take(k + 1).drop_last() =~= ev.take(k as int));
                assert(ev.take(k + 1).last() == (entries@[k as int].0@, entries@[k as int].1@));
            }
            append_str(&mut p, "- ");
            append_str(&mut p, entries[k].0.as_str());
            append_str(&mut p, ": ");
            append_str(&mut p, entries[k].1.as_str());
            append_str(&mut p, "\n");
            k = k + 1;
            assert(p@ =~= p0 + entry_lines(ev.take(k as int)));
        }
        assert(ev.take(entries.len() as int) =~= ev);
    }
    let ghost mid = p@;
    if facts.len() > 0 {
        append_str(&mut p, "Altri dettagli appresi:\n");
        push_bullets(&mut p, facts);
    }
    let r = from_chars(p.as_slice());
    assert(r@ =~= profile_text(ev, fv));
    r
}

/// The location the settings screen shows, from the stored location record (JSON): its string
/// `label` and its `source`, which is `manual` when missing; nothing when the record is not
/// JSON or has no label.
pub open spec fn location_shown(record: Seq<char>) -> Option<(Seq<char>, Seq<char>)> {
    match json_parse(record) {
        Some(j) => match string_field(j, "label"@) {
            Some(label) => Some(
                (
                    label,
                    match string_field(j, "source"@) {
                        Some(s) => s,
                        None => "manual"@,
                    },
                ),
            ),
            None => None,
        },
        None => None,
    }
}

/// Reads the location record for the settings screen (see [`location_shown`]).
pub fn location_display(record: &str) -> (r: Option<(String, String)>)
    ensures
        r matches Some((l, s)) ==> location_shown(record@) == Some((l@, s@)),
        r is None ==> location_shown(record@) is None,
{
    let j = match parse_json(record) {
        Some(j) => j,
        None => return None,
    };
    let label = match get_string(&j, "label") {
        Some(l) => l,
        None => return None,
    };
    let source = match get_string(&j, "source") {
        Some(s) => s,
        None => from_chars(to_chars("manual").as_slice()),
    };
    Some((label, source))
}

/// The settings key under which a tool's permission is stored: `perm:` and the tool's name.
pub fn permission_key(tool: &str) -> (r: String)
    ensures
        r@ == "perm:"@ + tool@,
{
    let mut v = to_chars("perm:");
    append_str(&mut v, tool);
    from_chars(v.as_slice())
}

/// `s` without every leading repetition of the non-empty prefix `p` (`trim_start_matches`).
pub open spec fn strip_prefixes(s: Seq<char>, p: Seq<char>) -> Seq<char>
    decreases s.len(),
{
    if p.len() > 0 && starts_with(s, p) {
        strip_prefixes(s.skip(p.len() as int), p)
    } else {
        s
    }
}

/// The tool a permission key names: the key without its leading `perm:` prefixes.
pub fn permission_tool(key: &str) -> (r: String)
    ensures
        r@ == strip_prefixes(key@, "perm:"@),
{
    let v = to_chars(key);
    let p = to_chars("perm:");
    proof {
        reveal_strlit("perm:");
    }
    let mut i: usize = 0;
    assert(v@.skip(0) =~= v@);
    while p.len() <= v.len() - i && starts_with_exec(&slice(&v, i, v.len()), &p)
        invariant
            i <= v.len(),
            p@ == "perm:"@,
            p.len() == 5,
            strip_prefixes(v@.skip(i as int), p@) == strip_prefixes(v@, p@),
        decreases v.len() - i,
    {
        proof {
            assert(v@.skip(i as int).skip(5) =~= v@.skip(i + 5));
        }
        i = i + p.len();
    }
    proof {
        if !(p.len() <= v.len() - i) {
            assert(!starts_with(v@.skip(i as int), p@));
        }
    }
    let r = slice(&v, i, v.len());
    assert(r@ =~= v@.skip(i as int));
    from_chars(r.as_slice())
}

/// The mathematical form of a note: id, topic, body.
pub open spec fn note_view(n: (i64, String, String)) -> (i64, Seq<char>, Seq<char>) {
    (n.0, n.1@, n.2@)
}

/// The notes, newest first as stored, whose topic contains the lowercase topic asked for (in
/// any case); all of them when no topic is asked for.
pub open spec fn notes_on(ns: Seq<(i64, Seq<char>, Seq<char>)>, needle: Option<Seq<char>>) -> Seq<(i64, Seq<char>, Seq<char>)>
    decreases ns.len(),
{
    if ns.len() == 0 {
        seq![]
    } else {
        let rest = notes_on(ns.drop_last(), needle);
        let keep = match needle {
            Some(t) => contains(lowercase(ns.last().1), t),
            None => true,
        };
        if keep {
            rest.push(ns.last())
        } else {
            rest
        }
    }
}

fn copy_note(n: &(i64, String, String)) -> (r: (i64, String, String))
    ensures
        note_view(r) == note_view(*n),
{
    (n.0, from_chars(to_chars(n.1.as_str()).as_slice()), from_chars(to_chars(n.2.as_str()).as_slice()))
}

/// The notes of a topic (see [`notes_on`]); `topic` is matched ignoring case.
pub fn filter_notes(notes: &Vec<(i64, String, String)>, topic: Option<&str>) -> (r: Vec<(i64, String, String)>)
    ensures
        r@.map_values(|n: (i64, String, String)| note_view(n)) == notes_on(
            notes@.map_values(|n: (i64, String, String)| note_view(n)),
            match topic {
                Some(t) => Some(lowercase(t@)),
                None => None,
            },
        ),
{
    let ghost nv = notes@.map_values(|n: (i64, String, String)| note_view(n));
    let ghost needle = match topic {
        Some(t) => Some(lowercase(t@)),
        None => None::<Seq<char>>,
    };
    let lower: Option<Vec<char>> = match topic {
        Some(t) => Some(to_chars(str_to_lowercase(t).as_str())),
        None => None,
    };
    let mut r: Vec<(i64, String, String)> = Vec::new();
    let mut k: usize = 0;
    while k < notes.len()
        invariant
            k <= notes.len(),
            nv == notes@.map_values(|n: (i64, String, String)| note_view(n)),
            lower matches Some(l) ==> needle == Some(l@),
            lower is None ==> needle is None,
            r@.map_values(|n: (i64, String, String)| note_view(n)) == notes_on(nv.take(k as int), needle),
        decreases notes.len() - k,
    {
        proof {
            assert(nv.take(k + 1).drop_last() =~= nv.take(k as int));
            assert(nv.take(k + 1).last() == note_view(notes@[k as int]));
        }
        let keep = match &lower {
            Some(l) => contains_exec(&to_chars(str_to_lowercase(notes[k].1.as_str()).as_str()), l),
            None => true,
        };
        if keep {
            let ghost before = r@.map_values(|n: (i64, String, String)| note_view(n));
            r.push(copy_note(&notes[k]));
            assert(r@.map_values(|n: (i64, String, String)| note_view(n)) =~= before.push(note_view(notes@[k as int])));
        }
        k = k + 1;
    }
    assert(nv.take(notes.len() as int) =~= nv);
    r
}

/// The notes whose topic or body contains the lowercase query.
pub open spec fn notes_matching(ns: Seq<(i64, Seq<char>, Seq<char>)>, q: Seq<char>) -> Seq<(i64, Seq<char>, Seq<char>)>
    decreases ns.len(),
{
    if ns.len() == 0 {
        seq![]
    } else {
        let rest = notes_matching(ns.drop_last(), q);
        if contains(lowercase(ns.last().1), q) || contains(lowercase(ns.last().2), q) {
            rest.push(ns.last())
        } else {
            rest
        }
    }
}

/// A note search: the first `limit` notes whose topic or body contains the query, ignoring
/// case.
pub open spec fn note_search(ns: Seq<(i64, Seq<char>, Seq<char>)>, query: Seq<char>, limit: nat) -> Seq<(i64, Seq<char>, Seq<char>)> {
    let m = notes_matching(ns, lowercase(query));
    if m.len() <= limit {
        m
    } else {
        m.take(limit as int)
    }
}

proof fn lemma_notes_matching_prefix(ns: Seq<(i64, Seq<char>, Seq<char>)>, n: int, q: Seq<char>)
    requires
        0 <= n <= ns.len(),
    ensures
        notes_matching(ns.take(n), q).len() <= notes_matching(ns, q).len(),
        forall|j: int|
            0 <= j < notes_matching(ns.take(n), q).len() ==> #[trigger] notes_matching(ns.take(n), q)[j]
                == notes_matching(ns, q)[j],
    decreases ns.len() - n,
{
    if n == ns.len() {
        assert(ns.take(n) =~= ns);
    } else {
        lemma_notes_matching_prefix(ns, n + 1, q);
        assert(ns.take(n + 1).drop_last() =~= ns.take(n));
        let a = notes_matching(ns.take(n), q);
        let b = notes_matching(ns.take(n + 1), q);
        assert(b == a || b == a.push(ns.take(n + 1).last()));
        assert forall|j: int| 0 <= j < a.len() implies #[trigger] a[j] == notes_matching(ns, q)[j] by {
            assert(a[j] == b[j]);
        }
    }
}

/// Searches the notes (see [`note_search`]).
pub fn search_notes(notes: &Vec<(i64, String, String)>, query: &str, limit: usize) -> (r: Vec<(i64, String, String)>)
    ensures
        r@.map_values(|n: (i64, String, String)| note_view(n)) == note_search(
            notes@.map_values(|n: (i64, String, String)| note_view(n)),
            query@,
            limit as nat,
        ),
{
    let ghost nv = notes@.map_values(|n: (i64, String, String)| note_view(n));
    let q = to_chars(str_to_lowercase(query).as_str());
    let mut r: Vec<(i64, String, String)> = Vec::new();
    let mut k: usize = 0;
    while k < notes.len() && r.len() < limit
        invariant
            k <= notes.len(),
            r.len() <= limit,
            nv == notes@.map_values(|n: (i64, String, String)| note_view(n)),
            q@ == lowercase(query@),
            r@.map_values(|n: (i64, String, String)| note_view(n)) == notes_matching(nv.take(k as int), q@),
        decreases notes.len() - k,
    {
        proof {
            assert(nv.take(k + 1).drop_last() =~= nv.take(k as int));
            assert(nv.take(k + 1).last() == note_view(notes@[k as int]));
        }
        if contains_exec(&to_chars(str_to_lowercase(notes[k].1.as_str()).as_str()), &q) || contains_exec(
            &to_chars(str_to_lowercase(notes[k].2.as_str()).as_str()),
            &q,
        ) {
            let ghost before = r@.map_values(|n: (i64, String, String)| note_view(n));
            r.push(copy_note(&notes[k]));
            assert(r@.map_values(|n: (i64, String, String)| note_view(n)) =~= before.push(note_view(notes@[k as int])));
        }
        k = k + 1;
    }
    proof {
        let m = notes_matching(nv, q@);
        lemma_notes_matching_prefix(nv, k as int, q@);
        if k == notes.len() {
            assert(nv.take(k as int) =~= nv);
        }
        let got = r@.map_values(|n: (i64, String, String)| note_view(n));
        if m.len() > limit {
            assert(got =~= m.take(limit as int));
        } else {
            assert(got =~= m);
        }
    }
    r
}

/// A fact is new when no stored fact has exactly its text.
pub fn is_new_fact(facts: &Vec<String>, text: &str) -> (r: bool)
    ensures
        r == !facts@.map_values(|f: String| f@).contains(text@),
{
    let ghost fv = facts@.map_values(|f: String| f@);
    let t = to_chars(text);
    let mut k: usize = 0;
    while k < facts.len()
        invariant
            k <= facts.len(),
            t@ == text@,
            fv == facts@.map_values(|f: String| f@),
            forall|j: int| 0 <= j < k ==> fv[j] != text@,
        decreases facts.len() - k,
    {
        if chars_eq(&to_chars(facts[k].as_str()), &t) {
            assert(fv[k as int] == text@);
            return false;
        }
        k = k + 1;
    }
    true
}

} // verus!
