//! The persistent memory as a value: the user's profile, the facts learned about them, the
//! episodic log, the semantic index (without its embeddings), notes, saved conversations and
//! settings.  Every change the application makes to its database is decided here; the
//! application loads the rows it needs, applies the change and writes the result back.
use vstd::prelude::*;
use crate::chars::{to_chars, from_chars, chars_eq, trim, trim_exec, starts_with, starts_with_exec};
use crate::keep::{
    pairs_view, pair_view, key_at, lookup, put, put_last, without_key, pair_lookup, pair_put, pair_put_last,
    pair_remove, copy_string, lemma_read_after_put, lemma_read_after_put_last,
};
use crate::memory::{
    permission_key, permission_tool, strip_prefixes, note_view, notes_on, note_search, filter_notes, search_notes,
};
use crate::lower::lowercase;
use crate::recall::{IndexEntry, recent_texts, spared, prune_flags, next_turn, bump_turn};
use crate::num::parse_i64;
use crate::remote::decimal;
use crate::download::decimal_u64;
use crate::memory::profile_text;

verus! {

/// A saved conversation: its id, title, serialised tree, and when it was last saved.
pub struct Conversation {
    pub id: String,
    pub title: String,
    pub data: String,
    pub updated: i64,
}

/// The mathematical form of a conversation: its id, then title, data and save time.
pub open spec fn chat_view(c: Conversation) -> (Seq<char>, (Seq<char>, Seq<char>, i64)) {
    (c.id@, (c.title@, c.data@, c.updated))
}

pub open spec fn chats_view(s: Seq<Conversation>) -> Seq<(Seq<char>, (Seq<char>, Seq<char>, i64))> {
    s.map_values(|c: Conversation| chat_view(c))
}

/// The mathematical form of a fact: its id and text.
pub open spec fn fact_view(f: (i64, String)) -> (i64, Seq<char>) {
    (f.0, f.1@)
}

pub open spec fn facts_view(s: Seq<(i64, String)>) -> Seq<(i64, Seq<char>)> {
    s.map_values(|f: (i64, String)| fact_view(f))
}

pub open spec fn notes_view(s: Seq<(i64, String, String)>) -> Seq<(i64, Seq<char>, Seq<char>)> {
    s.map_values(|n: (i64, String, String)| note_view(n))
}

/// What the memory holds.  Facts and notes are in the order they were added, the profile in
/// order of last change, conversations in order of last save; the index is in the store's order.
pub struct Kept {
    pub profile: Seq<(Seq<char>, Seq<char>)>,
    pub facts: Seq<(i64, Seq<char>)>,
    pub episodes: Seq<(Seq<char>, Seq<char>)>,
    pub index: Seq<IndexEntry>,
    pub notes: Seq<(i64, Seq<char>, Seq<char>)>,
    pub chats: Seq<(Seq<char>, (Seq<char>, Seq<char>, i64))>,
    pub settings: Seq<(Seq<char>, Seq<char>)>,
}

/// The profile after setting `key` to `value`: the value is trimmed, and an empty one removes
/// the key; otherwise the key moves to the end with its new value.
pub open spec fn profile_set(p: Seq<(Seq<char>, Seq<char>)>, key: Seq<char>, value: Seq<char>) -> Seq<(Seq<char>, Seq<char>)> {
    if trim(value).len() == 0 {
        without_key(p, key)
    } else {
        put_last(p, key, trim(value))
    }
}

/// The settings key of a tool's permission.
pub open spec fn perm_key(tool: Seq<char>) -> Seq<char> {
    "perm:"@ + tool
}

/// The permissions among the settings, in their order: each as the tool and its state.
pub open spec fn permissions(s: Seq<(Seq<char>, Seq<char>)>) -> Seq<(Seq<char>, Seq<char>)>
    decreases s.len(),
{
    if s.len() == 0 {
        seq![]
    } else {
        let rest = permissions(s.drop_last());
        if starts_with(s.last().0, "perm:"@) {
            rest.push((strip_prefixes(s.last().0, "perm:"@), s.last().1))
        } else {
            rest
        }
    }
}

/// The texts of the facts, in order.
pub open spec fn fact_texts(fs: Seq<(i64, Seq<char>)>) -> Seq<Seq<char>> {
    fs.map_values(|f: (i64, Seq<char>)| f.1)
}

/// The largest id (0 when there is none): a new row gets the next one.
pub open spec fn top_id<A>(s: Seq<(i64, A)>) -> int
    decreases s.len(),
{
    if s.len() == 0 {
        0
    } else {
        let m = top_id(s.drop_last());
        if s.last().0 > m {
            s.last().0 as int
        } else {
            m
        }
    }
}

/// The facts after learning `t`: unchanged when it is already known, else `t` is added last
/// under the next id.
pub open spec fn fact_added(fs: Seq<(i64, Seq<char>)>, t: Seq<char>) -> Seq<(i64, Seq<char>)> {
    if fact_texts(fs).contains(t) {
        fs
    } else {
        fs.push(((top_id(fs) + 1) as i64, t))
    }
}

/// The position of the first fact, from `i` on, whose text is `t`.
pub open spec fn text_at(fs: Seq<(i64, Seq<char>)>, t: Seq<char>, i: int) -> Option<int>
    decreases fs.len() - i,
{
    if i < 0 || i >= fs.len() {
        None
    } else if fs[i].1 == t {
        Some(i)
    } else {
        text_at(fs, t, i + 1)
    }
}

/// The facts after deleting `t`: its first occurrence goes, nothing else.
pub open spec fn fact_dropped(fs: Seq<(i64, Seq<char>)>, t: Seq<char>) -> Seq<(i64, Seq<char>)> {
    match text_at(fs, t, 0) {
        Some(i) => fs.remove(i),
        None => fs,
    }
}

/// Whether an index entry is the semantic copy of the fact `t`.
pub open spec fn is_copy_of(e: IndexEntry, t: Seq<char>) -> bool {
    e.kind@ == "fact"@ && e.text@ == t
}

/// Whether an index entry is a document chunk.
pub open spec fn is_doc(e: IndexEntry) -> bool {
    e.kind@ == "doc"@
}

/// Whether an entry stays: with `Some(t)`, unless it is a copy of the fact `t`; with `None`,
/// only if it is a document chunk.
pub open spec fn stays(e: IndexEntry, copies_of: Option<Seq<char>>) -> bool {
    match copies_of {
        Some(t) => !is_copy_of(e, t),
        None => is_doc(e),
    }
}

/// The entries that stay (see [`stays`]), in order.
pub open spec fn retained(es: Seq<IndexEntry>, copies_of: Option<Seq<char>>) -> Seq<IndexEntry>
    decreases es.len(),
{
    if es.len() == 0 {
        seq![]
    } else if stays(es.last(), copies_of) {
        retained(es.drop_last(), copies_of).push(es.last())
    } else {
        retained(es.drop_last(), copies_of)
    }
}

/// The position of the first entry, from `i` on, with this id.
pub open spec fn entry_at(es: Seq<IndexEntry>, id: i64, i: int) -> Option<int>
    decreases es.len() - i,
{
    if i < 0 || i >= es.len() {
        None
    } else if es[i].id == id {
        Some(i)
    } else {
        entry_at(es, id, i + 1)
    }
}

/// The index after the memory `id` is superseded: its first entry is no longer current.
pub open spec fn superseded(es: Seq<IndexEntry>, id: i64) -> Seq<IndexEntry> {
    match entry_at(es, id, 0) {
        Some(i) => es.update(i, IndexEntry { id: es[i].id, kind: es[i].kind, valid: false, text: es[i].text }),
        None => es,
    }
}

/// How many entries are current.
pub open spec fn current_count(es: Seq<IndexEntry>) -> nat
    decreases es.len(),
{
    if es.len() == 0 {
        0
    } else if es.last().valid {
        current_count(es.drop_last()) + 1
    } else {
        current_count(es.drop_last())
    }
}

fn retain_entries(entries: Vec<IndexEntry>, copies_of: Option<Vec<char>>) -> (r: Vec<IndexEntry>)
    ensures
        r@ == retained(entries@, match copies_of {
            Some(t) => Some(t@),
            None => None,
        }),
{
    let ghost orig = entries@;
    let ghost mode = match &copies_of {
        Some(t) => Some(t@),
        None => None::<Seq<char>>,
    };
    let fact = to_chars("fact");
    let doc = to_chars("doc");
    let mut rest = entries;
    assert(orig.len() == rest.len());
    let mut out: Vec<IndexEntry> = Vec::new();
    let mut n: usize = 0;
    assert(orig.skip(0) =~= orig);
    while rest.len() > 0
        invariant
            n + rest.len() == orig.len(),
            orig.len() <= usize::MAX,
            rest@ == orig.skip(n as int),
            out@ == retained(orig.take(n as int), mode),
            fact@ == "fact"@,
            doc@ == "doc"@,
            mode == (match &copies_of {
                Some(t) => Some(t@),
                None => None::<Seq<char>>,
            }),
        decreases rest.len(),
    {
        let e = rest.remove(0);
        proof {
            assert(orig.take(n + 1).drop_last() =~= orig.take(n as int));
            assert(orig.take(n + 1).last() == e);
            assert(rest@ =~= orig.skip(n + 1));
        }
        let keep = match &copies_of {
            Some(t) => !(chars_eq(&to_chars(e.kind.as_str()), &fact) && chars_eq(&to_chars(e.text.as_str()), t)),
            None => chars_eq(&to_chars(e.kind.as_str()), &doc),
        };
        if keep {
            out.push(e);
        }
        n = n + 1;
    }
    assert(orig.take(orig.len() as int) =~= orig);
    out
}

fn fact_pos(facts: &Vec<(i64, String)>, t: &Vec<char>) -> (r: Option<usize>)
    ensures
        r matches Some(k) ==> k < facts.len() && text_at(facts_view(facts@), t@, 0) == Some(k as int),
        r is None ==> text_at(facts_view(facts@), t@, 0) is None,
{
    let ghost fv = facts_view(facts@);
    let mut i: usize = 0;
    while i < facts.len()
        invariant
            i <= facts.len(),
            fv == facts_view(facts@),
            text_at(fv, t@, 0) == text_at(fv, t@, i as int),
        decreases facts.len() - i,
    {
        assert(fv[i as int] == fact_view(facts@[i as int]));
        if chars_eq(&to_chars(facts[i].1.as_str()), t) {
            return Some(i);
        }
        i = i + 1;
    }
    None
}

fn entry_pos(es: &Vec<IndexEntry>, id: i64) -> (r: Option<usize>)
    ensures
        r matches Some(k) ==> k < es.len() && entry_at(es@, id, 0) == Some(k as int),
        r is None ==> entry_at(es@, id, 0) is None,
{
    let mut i: usize = 0;
    while i < es.len()
        invariant
            i <= es.len(),
            entry_at(es@, id, 0) == entry_at(es@, id, i as int),
        decreases es.len() - i,
    {
        if es[i].id == id {
            return Some(i);
        }
        i = i + 1;
    }
    None
}

/// The largest note id (0 when there is none): a new note gets the next one.
pub open spec fn note_top(ns: Seq<(i64, Seq<char>, Seq<char>)>) -> int
    decreases ns.len(),
{
    if ns.len() == 0 {
        0
    } else {
        let m = note_top(ns.drop_last());
        if ns.last().0 > m {
            ns.last().0 as int
        } else {
            m
        }
    }
}

/// The notes without those of this id.
pub open spec fn notes_without(ns: Seq<(i64, Seq<char>, Seq<char>)>, id: i64) -> Seq<(i64, Seq<char>, Seq<char>)>
    decreases ns.len(),
{
    if ns.len() == 0 {
        seq![]
    } else if ns.last().0 == id {
        notes_without(ns.drop_last(), id)
    } else {
        notes_without(ns.drop_last(), id).push(ns.last())
    }
}

/// The conversations as listed: most recently saved first, each as id, title and save time.
pub open spec fn chat_list(cs: Seq<(Seq<char>, (Seq<char>, Seq<char>, i64))>) -> Seq<(Seq<char>, Seq<char>, i64)> {
    cs.reverse().map_values(|c: (Seq<char>, (Seq<char>, Seq<char>, i64))| (c.0, c.1.0, c.1.2))
}

/// The mathematical form of a conversation listing.
pub open spec fn listed_view(s: Seq<(String, String, i64)>) -> Seq<(Seq<char>, Seq<char>, i64)> {
    s.map_values(|c: (String, String, i64)| (c.0@, c.1@, c.2))
}

/// The saved tree of conversation `id`.
pub open spec fn chat_data(cs: Seq<(Seq<char>, (Seq<char>, Seq<char>, i64))>, id: Seq<char>) -> Option<Seq<char>> {
    match lookup(cs, id) {
        Some(v) => Some(v.1),
        None => None,
    }
}

fn copy_note_row(n: &(i64, String, String)) -> (r: (i64, String, String))
    ensures
        note_view(r) == note_view(*n),
{
    (n.0, copy_string(&n.1), copy_string(&n.2))
}

/// The notes newest first: the stored order reversed.
fn newest_notes(notes: &Vec<(i64, String, String)>) -> (r: Vec<(i64, String, String)>)
    ensures
        notes_view(r@) == notes_view(notes@).reverse(),
{
    let ghost nv = notes_view(notes@);
    let mut r: Vec<(i64, String, String)> = Vec::new();
    let mut i: usize = 0;
    while i < notes.len()
        invariant
            i <= notes.len(),
            nv == notes_view(notes@),
            notes_view(r@).len() == i,
            forall|j: int| 0 <= j < i ==> #[trigger] notes_view(r@)[j] == nv[nv.len() - 1 - j],
        decreases notes.len() - i,
    {
        let ghost before = notes_view(r@);
        r.push(copy_note_row(&notes[notes.len() - 1 - i]));
        proof {
            assert(notes_view(r@) =~= before.push(nv[nv.len() - 1 - i]));
        }
        i = i + 1;
    }
    assert(notes_view(r@) =~= nv.reverse());
    r
}

fn copy_chat(c: &Conversation) -> (r: Conversation)
    ensures
        chat_view(r) == chat_view(*c),
{
    Conversation { id: copy_string(&c.id), title: copy_string(&c.title), data: copy_string(&c.data), updated: c.updated }
}

fn chat_pos(chats: &Vec<Conversation>, id: &Vec<char>) -> (r: Option<usize>)
    ensures
        r matches Some(k) ==> k < chats.len() && key_at(chats_view(chats@), id@, 0) == Some(k as int),
        r is None ==> key_at(chats_view(chats@), id@, 0) is None,
{
    let ghost cv = chats_view(chats@);
    let mut i: usize = 0;
    while i < chats.len()
        invariant
            i <= chats.len(),
            cv == chats_view(chats@),
            key_at(cv, id@, 0) == key_at(cv, id@, i as int),
        decreases chats.len() - i,
    {
        assert(cv[i as int] == chat_view(chats@[i as int]));
        if chars_eq(&to_chars(chats[i].id.as_str()), id) {
            return Some(i);
        }
        i = i + 1;
    }
    None
}

fn chats_without(chats: &Vec<Conversation>, id: &Vec<char>) -> (r: Vec<Conversation>)
    ensures
        chats_view(r@) == without_key(chats_view(chats@), id@),
{
    let ghost cv = chats_view(chats@);
    let mut out: Vec<Conversation> = Vec::new();
    let mut i: usize = 0;
    while i < chats.len()
        invariant
            i <= chats.len(),
            cv == chats_view(chats@),
            chats_view(out@) == without_key(cv.take(i as int), id@),
        decreases chats.len() - i,
    {
        proof {
            assert(cv.take(i + 1).drop_last() =~= cv.take(i as int));
            assert(cv.take(i + 1).last() == chat_view(chats@[i as int]));
        }
        if !chars_eq(&to_chars(chats[i].id.as_str()), id) {
            let ghost before = chats_view(out@);
            out.push(copy_chat(&chats[i]));
            assert(chats_view(out@) =~= before.push(chat_view(chats@[i as int])));
        }
        i = i + 1;
    }
    assert(cv.take(chats.len() as int) =~= cv);
    out
}

/// The index after pruning kind `kind` to its `keep` newest entries: the entries of `es` that
/// pruning spares (see [`spared`]), in order; `all` is the index the choice is made on.
pub open spec fn spared_of(all: Seq<IndexEntry>, es: Seq<IndexEntry>, kind: Seq<char>, keep: int) -> Seq<IndexEntry>
    decreases es.len(),
{
    if es.len() == 0 {
        seq![]
    } else if spared(all, kind, keep, es.last()) {
        spared_of(all, es.drop_last(), kind, keep).push(es.last())
    } else {
        spared_of(all, es.drop_last(), kind, keep)
    }
}

/// The index pruned to the `keep` newest entries of `kind`.
pub open spec fn pruned(es: Seq<IndexEntry>, kind: Seq<char>, keep: int) -> Seq<IndexEntry> {
    spared_of(es, es, kind, keep)
}

/// A number written in decimal, with a minus sign when negative.
pub open spec fn signed_decimal(n: int) -> Seq<char> {
    if n < 0 {
        "-"@ + decimal((-n) as nat)
    } else {
        decimal(n as nat)
    }
}

/// The turn counter as saved in the settings.
pub open spec fn saved_turn(settings: Seq<(Seq<char>, Seq<char>)>) -> Option<Seq<char>> {
    lookup(settings, "turn_count"@)
}

/// Whether one more turn can be counted: the saved count is not already the largest.
pub open spec fn turn_has_room(settings: Seq<(Seq<char>, Seq<char>)>) -> bool {
    match saved_turn(settings) {
        Some(s) => parse_i64(s) != Some(i64::MAX as int),
        None => true,
    }
}

fn signed_decimal_exec(n: i64) -> (r: String)
    ensures
        r@ == signed_decimal(n as int),
{
    if n < 0 {
        let m: u64 = ((-(n + 1)) as u64) + 1;
        let mut v = to_chars("-");
        let d = decimal_u64(m);
        let ghost before = v@;
        let mut i: usize = 0;
        while i < d.len()
            invariant
                i <= d.len(),
                v@ == before + d@.take(i as int),
            decreases d.len() - i,
        {
            v.push(d[i]);
            assert(d@.take(i + 1) =~= d@.take(i as int).push(d@[i as int]));
            i = i + 1;
        }
        proof {
            reveal_strlit("-");
            assert(d@.take(d.len() as int) =~= d@);
        }
        from_chars(v.as_slice())
    } else {
        from_chars(decimal_u64(n as u64).as_slice())
    }
}

/// The text of a fact the user adds by hand: trimmed; `None` when it is blank (nothing is
/// learned then).
pub fn fact_text(text: &str) -> (r: Option<String>)
    ensures
        r is None <==> trim(text@).len() == 0,
        r matches Some(t) ==> t@ == trim(text@),
{
    let t = trim_exec(&to_chars(text));
    if t.len() == 0 {
        None
    } else {
        Some(from_chars(t.as_slice()))
    }
}

/// The persistent memory.
pub struct MemoryStore {
    profile: Vec<(String, String)>,
    facts: Vec<(i64, String)>,
    episodes: Vec<(String, String)>,
    index: Vec<IndexEntry>,
    notes: Vec<(i64, String, String)>,
    chats: Vec<Conversation>,
    settings: Vec<(String, String)>,
}

impl View for MemoryStore {
    type V = Kept;

    closed spec fn view(&self) -> Kept {
        Kept {
            profile: pairs_view(self.profile@),
            facts: facts_view(self.facts@),
            episodes: pairs_view(self.episodes@),
            index: self.index@,
            notes: notes_view(self.notes@),
            chats: chats_view(self.chats@),
            settings: pairs_view(self.settings@),
        }
    }
}

impl MemoryStore {
    /// An empty memory.
    pub fn new() -> (m: Self)
        ensures
            m@.profile.len() == 0,
            m@.facts.len() == 0,
            m@.episodes.len() == 0,
            m@.index.len() == 0,
            m@.notes.len() == 0,
            m@.chats.len() == 0,
            m@.settings.len() == 0,
    {
        MemoryStore {
            profile: Vec::new(),
            facts: Vec::new(),
            episodes: Vec::new(),
            index: Vec::new(),
            notes: Vec::new(),
            chats: Vec::new(),
            settings: Vec::new(),
        }
    }

    /// A memory holding these rows, as loaded from the database.
    pub fn from_parts(
        profile: Vec<(String, String)>,
        facts: Vec<(i64, String)>,
        episodes: Vec<(String, String)>,
        index: Vec<IndexEntry>,
        notes: Vec<(i64, String, String)>,
        chats: Vec<Conversation>,
        settings: Vec<(String, String)>,
    ) -> (m: Self)
        ensures
            m@ == (Kept {
                profile: pairs_view(profile@),
                facts: facts_view(facts@),
                episodes: pairs_view(episodes@),
                index: index@,
                notes: notes_view(notes@),
                chats: chats_view(chats@),
                settings: pairs_view(settings@),
            }),
    {
        MemoryStore { profile, facts, episodes, index, notes, chats, settings }
    }

    // --- the profile ---

    /// The profile's fields, in order of last change.
    pub fn profile_entries(&self) -> (r: &Vec<(String, String)>)
        ensures
            pairs_view(r@) == self@.profile,
    {
        &self.profile
    }

    /// Sets a profile field (see [`profile_set`]).
    pub fn set_profile(&mut self, key: &str, value: &str)
        ensures
            final(self)@ == (Kept { profile: profile_set(old(self)@.profile, key@, value@), ..old(self)@ }),
    {
        let v = trim_exec(&to_chars(value));
        if v.len() == 0 {
            pair_remove(&mut self.profile, key);
        } else {
            let t = from_chars(v.as_slice());
            pair_put_last(&mut self.profile, key, t.as_str());
        }
    }

    // --- facts ---

    /// The facts as stored: id and text.
    pub fn fact_rows(&self) -> (r: &Vec<(i64, String)>)
        ensures
            facts_view(r@) == self@.facts,
    {
        &self.facts
    }

    /// The facts' texts, in the order they were learned.
    pub fn facts(&self) -> (r: Vec<String>)
        ensures
            r@.map_values(|s: String| s@) == fact_texts(self@.facts),
    {
        let ghost fv = facts_view(self.facts@);
        let mut r: Vec<String> = Vec::new();
        let mut i: usize = 0;
        while i < self.facts.len()
            invariant
                i <= self.facts.len(),
                fv == facts_view(self.facts@),
                r@.map_values(|s: String| s@) == fact_texts(fv.take(i as int)),
            decreases self.facts.len() - i,
        {
            let ghost before = r@.map_values(|s: String| s@);
            r.push(copy_string(&self.facts[i].1));
            proof {
                assert(fv[i as int] == fact_view(self.facts@[i as int]));
                assert(r@.map_values(|s: String| s@) =~= before.push(fv[i as int].1));
                assert(fact_texts(fv.take(i + 1)) =~= fact_texts(fv.take(i as int)).push(fv[i as int].1));
            }
            i = i + 1;
        }
        assert(fv.take(self.facts.len() as int) =~= fv);
        r
    }

    /// The largest fact id (0 when there is none); learning a fact needs it below `i64::MAX`.
    pub fn fact_top_id(&self) -> (r: i64)
        ensures
            r as int == top_id(self@.facts),
    {
        let ghost fv = facts_view(self.facts@);
        let mut m: i64 = 0;
        let mut i: usize = 0;
        while i < self.facts.len()
            invariant
                i <= self.facts.len(),
                fv == facts_view(self.facts@),
                m as int == top_id(fv.take(i as int)),
            decreases self.facts.len() - i,
        {
            proof {
                assert(fv.take(i + 1).drop_last() =~= fv.take(i as int));
                assert(fv.take(i + 1).last() == fact_view(self.facts@[i as int]));
            }
            if self.facts[i].0 > m {
                m = self.facts[i].0;
            }
            i = i + 1;
        }
        assert(fv.take(self.facts.len() as int) =~= fv);
        m
    }

    /// Learns a fact; `true` when it was new (see [`fact_added`]).
    pub fn add_fact(&mut self, text: &str) -> (r: bool)
        requires
            top_id(old(self)@.facts) < i64::MAX,
        ensures
            r == !fact_texts(old(self)@.facts).contains(text@),
            final(self)@ == (Kept { facts: fact_added(old(self)@.facts, text@), ..old(self)@ }),
    {
        let texts = self.facts();
        assert(texts@.map_values(|s: String| s@) =~= fact_texts(facts_view(self.facts@)));
        if !crate::memory::is_new_fact(&texts, text) {
            return false;
        }
        let id = self.fact_top_id() + 1;
        let ghost before = facts_view(self.facts@);
        self.facts.push((id, from_chars(to_chars(text).as_slice())));
        assert(facts_view(self.facts@) =~= before.push((id, text@)));
        true
    }

    /// Forgets a fact and its semantic copies: the first fact with this text goes (see
    /// [`fact_dropped`]), and every index entry that copies it.
    pub fn delete_fact(&mut self, text: &str)
        ensures
            final(self)@ == (Kept {
                facts: fact_dropped(old(self)@.facts, text@),
                index: retained(old(self)@.index, Some(text@)),
                ..old(self)@
            }),
    {
        let ghost fv = facts_view(self.facts@);
        let t = to_chars(text);
        if let Some(k) = fact_pos(&self.facts, &t) {
            self.facts.remove(k);
            assert(facts_view(self.facts@) =~= fv.remove(k as int));
        }
        let mut tmp: Vec<IndexEntry> = Vec::new();
        std::mem::swap(&mut tmp, &mut self.index);
        self.index = retain_entries(tmp, Some(t));
    }

    /// Forgets everything learned automatically: facts, episodes, and every index entry but the
    /// document chunks.  The profile, notes, conversations and settings stay.
    pub fn forget_all(&mut self)
        ensures
            final(self)@ == (Kept {
                facts: seq![],
                episodes: seq![],
                index: retained(old(self)@.index, None),
                ..old(self)@
            }),
    {
        self.facts = Vec::new();
        self.episodes = Vec::new();
        assert(facts_view(self.facts@) =~= seq![]);
        assert(pairs_view(self.episodes@) =~= seq![]);
        let mut tmp: Vec<IndexEntry> = Vec::new();
        std::mem::swap(&mut tmp, &mut self.index);
        self.index = retain_entries(tmp, None);
    }

    // --- the semantic index ---

    /// The index entries, in the store's order.
    pub fn index(&self) -> (r: &Vec<IndexEntry>)
        ensures
            r@ == self@.index,
    {
        &self.index
    }

    /// Marks a memory as no longer current (see [`superseded`]); it is kept for history.
    pub fn supersede(&mut self, id: i64)
        ensures
            final(self)@ == (Kept { index: superseded(old(self)@.index, id), ..old(self)@ }),
    {
        let ghost es = self.index@;
        if let Some(i) = entry_pos(&self.index, id) {
            let mut e = self.index.remove(i);
            e.valid = false;
            self.index.insert(i, e);
            assert(self.index@ =~= superseded(es, id));
        }
    }

    /// How many memories are current.
    pub fn memory_count(&self) -> (r: usize)
        ensures
            r == current_count(self@.index),
    {
        let ghost es = self.index@;
        let mut c: usize = 0;
        let mut i: usize = 0;
        while i < self.index.len()
            invariant
                i <= self.index.len(),
                es == self.index@,
                c == current_count(es.take(i as int)),
                c <= i,
            decreases self.index.len() - i,
        {
            proof {
                assert(es.take(i + 1).drop_last() =~= es.take(i as int));
            }
            if self.index[i].valid {
                c = c + 1;
            }
            i = i + 1;
        }
        assert(es.take(self.index.len() as int) =~= es);
        c
    }

    /// The newest episodes' texts, newest first (see [`recent_texts`]).
    pub fn recent_episode_texts(&self, limit: i64) -> (r: Vec<String>)
        ensures
            r@.map_values(|s: String| s@) == recent_texts(self@.index, limit as int),
    {
        crate::recall::recent_episode_texts(&self.index, limit)
    }

    fn prune_kind(&mut self, kind: &str, keep: i64)
        ensures
            final(self)@ == (Kept { index: pruned(old(self)@.index, kind@, keep as int), ..old(self)@ }),
    {
        let flags = prune_flags(&self.index, kind, keep);
        let ghost all = self.index@;
        let mut rest: Vec<IndexEntry> = Vec::new();
        std::mem::swap(&mut rest, &mut self.index);
        assert(rest@ == all);
        let mut out: Vec<IndexEntry> = Vec::new();
        let mut n: usize = 0;
        assert(all.skip(0) =~= all);
        while rest.len() > 0
            invariant
                n + rest.len() == all.len(),
                flags.len() == all.len(),
                forall|i: int| 0 <= i < all.len() ==> flags@[i] == spared(all, kind@, keep as int, #[trigger] all[i]),
                rest@ == all.skip(n as int),
                out@ == spared_of(all, all.take(n as int), kind@, keep as int),
            decreases rest.len(),
        {
            let e = rest.remove(0);
            proof {
                assert(all.take(n + 1).drop_last() =~= all.take(n as int));
                assert(all.take(n + 1).last() == e);
                assert(rest@ =~= all.skip(n + 1));
            }
            if flags[n] {
                out.push(e);
            }
            n = n + 1;
        }
        assert(all.take(all.len() as int) =~= all);
        self.index = out;
    }

    /// Keeps only the `keep` most recent episodes in the index (see [`pruned`]).
    pub fn prune_episodes(&mut self, keep: i64)
        ensures
            final(self)@ == (Kept { index: pruned(old(self)@.index, "episode"@, keep as int), ..old(self)@ }),
    {
        self.prune_kind("episode", keep);
    }

    /// Keeps only the `keep` most recent reflections in the index (see [`pruned`]).
    pub fn prune_reflections(&mut self, keep: i64)
        ensures
            final(self)@ == (Kept { index: pruned(old(self)@.index, "reflection"@, keep as int), ..old(self)@ }),
    {
        self.prune_kind("reflection", keep);
    }

    /// Counts one more turn: the saved counter (see [`next_turn`]) is advanced, saved, and
    /// returned.
    pub fn bump_turn(&mut self) -> (r: i64)
        requires
            turn_has_room(old(self)@.settings),
        ensures
            r as int == next_turn(saved_turn(old(self)@.settings)),
            final(self)@ == (Kept { settings: put(old(self)@.settings, "turn_count"@, signed_decimal(r as int)), ..old(self)@ }),
    {
        let saved = self.setting("turn_count");
        let next = match &saved {
            Some(s) => bump_turn(Some(s.as_str())),
            None => bump_turn(None),
        };
        let shown = signed_decimal_exec(next);
        self.put_setting("turn_count", shown.as_str());
        next
    }

    /// The "what I know about you" block of the system prompt (see [`profile_text`]).
    pub fn profile_block(&self) -> (r: String)
        ensures
            r@ == profile_text(self@.profile, fact_texts(self@.facts)),
    {
        let facts = self.facts();
        let r = crate::memory::profile_block(&self.profile, &facts);
        proof {
            assert(self.profile@.map_values(|e: (String, String)| (e.0@, e.1@)) =~= pairs_view(self.profile@));
        }
        r
    }

    // --- notes ---

    /// The notes as stored, oldest first.
    pub fn note_rows(&self) -> (r: &Vec<(i64, String, String)>)
        ensures
            notes_view(r@) == self@.notes,
    {
        &self.notes
    }

    /// The largest note id (0 when there is none); adding a note needs it below `i64::MAX`.
    pub fn note_top_id(&self) -> (r: i64)
        ensures
            r as int == note_top(self@.notes),
    {
        let ghost nv = notes_view(self.notes@);
        let mut m: i64 = 0;
        let mut i: usize = 0;
        while i < self.notes.len()
            invariant
                i <= self.notes.len(),
                nv == notes_view(self.notes@),
                m as int == note_top(nv.take(i as int)),
            decreases self.notes.len() - i,
        {
            proof {
                assert(nv.take(i + 1).drop_last() =~= nv.take(i as int));
                assert(nv.take(i + 1).last() == note_view(self.notes@[i as int]));
            }
            if self.notes[i].0 > m {
                m = self.notes[i].0;
            }
            i = i + 1;
        }
        assert(nv.take(self.notes.len() as int) =~= nv);
        m
    }

    /// Adds a note under the next id, which it returns.
    pub fn add_note(&mut self, topic: &str, text: &str) -> (id: i64)
        requires
            note_top(old(self)@.notes) < i64::MAX,
        ensures
            id as int == note_top(old(self)@.notes) + 1,
            final(self)@ == (Kept { notes: old(self)@.notes.push((id, topic@, text@)), ..old(self)@ }),
    {
        let id = self.note_top_id() + 1;
        let ghost before = notes_view(self.notes@);
        self.notes.push((id, from_chars(to_chars(topic).as_slice()), from_chars(to_chars(text).as_slice())));
        assert(notes_view(self.notes@) =~= before.push((id, topic@, text@)));
        id
    }

    /// The notes, newest first, of one topic when asked (matched ignoring case; see
    /// [`notes_on`]).
    pub fn list_notes(&self, topic: Option<&str>) -> (r: Vec<(i64, String, String)>)
        ensures
            notes_view(r@) == notes_on(
                self@.notes.reverse(),
                match topic {
                    Some(t) => Some(lowercase(t@)),
                    None => None,
                },
            ),
    {
        let all = newest_notes(&self.notes);
        filter_notes(&all, topic)
    }

    /// Up to `limit` notes, newest first, whose topic or body contains the query, ignoring case
    /// (see [`note_search`]).
    pub fn search_notes(&self, query: &str, limit: usize) -> (r: Vec<(i64, String, String)>)
        ensures
            notes_view(r@) == note_search(self@.notes.reverse(), query@, limit as nat),
    {
        let all = newest_notes(&self.notes);
        search_notes(&all, query, limit)
    }

    /// Deletes the note of this id.
    pub fn delete_note(&mut self, id: i64)
        ensures
            final(self)@ == (Kept { notes: notes_without(old(self)@.notes, id), ..old(self)@ }),
    {
        let ghost nv = notes_view(self.notes@);
        let mut out: Vec<(i64, String, String)> = Vec::new();
        let mut i: usize = 0;
        while i < self.notes.len()
            invariant
                i <= self.notes.len(),
                nv == notes_view(self.notes@),
                notes_view(out@) == notes_without(nv.take(i as int), id),
            decreases self.notes.len() - i,
        {
            proof {
                assert(nv.take(i + 1).drop_last() =~= nv.take(i as int));
                assert(nv.take(i + 1).last() == note_view(self.notes@[i as int]));
            }
            if self.notes[i].0 != id {
                let ghost before = notes_view(out@);
                out.push(copy_note_row(&self.notes[i]));
                assert(notes_view(out@) =~= before.push(note_view(self.notes@[i as int])));
            }
            i = i + 1;
        }
        assert(nv.take(self.notes.len() as int) =~= nv);
        self.notes = out;
    }

    // --- conversations ---

    /// The conversations as stored, in order of last save.
    pub fn conversations(&self) -> (r: &Vec<Conversation>)
        ensures
            chats_view(r@) == self@.chats,
    {
        &self.chats
    }

    /// Saves a conversation at time `now`: it replaces any earlier save of the same id and
    /// becomes the most recent.
    pub fn save_conversation(&mut self, id: &str, title: &str, data: &str, now: i64)
        ensures
            final(self)@ == (Kept { chats: put_last(old(self)@.chats, id@, (title@, data@, now)), ..old(self)@ }),
    {
        let k = to_chars(id);
        let mut rest = chats_without(&self.chats, &k);
        let ghost w = chats_view(rest@);
        rest.push(Conversation {
            id: from_chars(k.as_slice()),
            title: from_chars(to_chars(title).as_slice()),
            data: from_chars(to_chars(data).as_slice()),
            updated: now,
        });
        assert(chats_view(rest@) =~= w.push((id@, (title@, data@, now))));
        self.chats = rest;
    }

    /// The conversations, most recently saved first: id, title, save time.
    pub fn list_conversations(&self) -> (r: Vec<(String, String, i64)>)
        ensures
            listed_view(r@) == chat_list(self@.chats),
    {
        let ghost cv = chats_view(self.chats@);
        let ghost want = chat_list(cv);
        let mut r: Vec<(String, String, i64)> = Vec::new();
        let mut i: usize = 0;
        let n = self.chats.len();
        while i < n
            invariant
                i <= n,
                n == self.chats.len(),
                cv == chats_view(self.chats@),
                want == chat_list(cv),
                r@.len() == i,
                forall|j: int| 0 <= j < i ==> #[trigger] listed_view(r@)[j] == want[j],
            decreases n - i,
        {
            let c = &self.chats[n - 1 - i];
            let ghost before = listed_view(r@);
            r.push((copy_string(&c.id), copy_string(&c.title), c.updated));
            proof {
                assert(cv[n - 1 - i] == chat_view(self.chats@[n - 1 - i]));
                assert(cv.reverse()[i as int] == cv[n - 1 - i]);
                let after = listed_view(r@);
                assert forall|j: int| 0 <= j < i + 1 implies #[trigger] after[j] == want[j] by {
                    if j < i {
                        assert(after[j] == before[j]);
                    }
                }
            }
            i = i + 1;
        }
        assert(listed_view(r@) =~= want);
        r
    }

    /// The saved tree of a conversation (see [`chat_data`]).
    pub fn load_conversation(&self, id: &str) -> (r: Option<String>)
        ensures
            (match r {
                Some(s) => Some(s@),
                None => None,
            }) == chat_data(self@.chats, id@),
    {
        match chat_pos(&self.chats, &to_chars(id)) {
            Some(k) => {
                assert(chats_view(self.chats@)[k as int] == chat_view(self.chats@[k as int]));
                Some(copy_string(&self.chats[k].data))
            },
            None => None,
        }
    }

    /// Deletes a conversation.
    pub fn delete_conversation(&mut self, id: &str)
        ensures
            final(self)@ == (Kept { chats: without_key(old(self)@.chats, id@), ..old(self)@ }),
    {
        self.chats = chats_without(&self.chats, &to_chars(id));
    }

    // --- settings and permissions ---

    /// The settings rows, in their order.
    pub fn settings(&self) -> (r: &Vec<(String, String)>)
        ensures
            pairs_view(r@) == self@.settings,
    {
        &self.settings
    }

    /// The value of a setting.
    pub fn setting(&self, key: &str) -> (r: Option<String>)
        ensures
            (match r {
                Some(s) => Some(s@),
                None => None,
            }) == lookup(self@.settings, key@),
    {
        pair_lookup(&self.settings, key)
    }

    /// Writes a setting where its row stands, or as a new row.
    pub fn put_setting(&mut self, key: &str, value: &str)
        ensures
            final(self)@ == (Kept { settings: put(old(self)@.settings, key@, value@), ..old(self)@ }),
    {
        pair_put(&mut self.settings, key, value);
    }

    /// A tool's permission, when one was set.
    pub fn get_permission(&self, tool: &str) -> (r: Option<String>)
        ensures
            (match r {
                Some(s) => Some(s@),
                None => None,
            }) == lookup(self@.settings, perm_key(tool@)),
    {
        let k = permission_key(tool);
        self.setting(k.as_str())
    }

    /// Sets a tool's permission.
    pub fn set_permission(&mut self, tool: &str, state: &str)
        ensures
            final(self)@ == (Kept { settings: put(old(self)@.settings, perm_key(tool@), state@), ..old(self)@ }),
    {
        let k = permission_key(tool);
        self.put_setting(k.as_str(), state);
    }

    /// Every permission set, as the tool and its state (see [`permissions`]).
    pub fn list_permissions(&self) -> (r: Vec<(String, String)>)
        ensures
            pairs_view(r@) == permissions(self@.settings),
    {
        let ghost sv = pairs_view(self.settings@);
        let p = to_chars("perm:");
        proof {
            reveal_strlit("perm:");
        }
        let mut r: Vec<(String, String)> = Vec::new();
        let mut i: usize = 0;
        while i < self.settings.len()
            invariant
                i <= self.settings.len(),
                p@ == "perm:"@,
                sv == pairs_view(self.settings@),
                pairs_view(r@) == permissions(sv.take(i as int)),
            decreases self.settings.len() - i,
        {
            proof {
                assert(sv.take(i + 1).drop_last() =~= sv.take(i as int));
                assert(sv.take(i + 1).last() == pair_view(self.settings@[i as int]));
            }
            let key = &self.settings[i].0;
            if starts_with_exec(&to_chars(key.as_str()), &p) {
                let ghost before = pairs_view(r@);
                r.push((permission_tool(key.as_str()), copy_string(&self.settings[i].1)));
                assert(pairs_view(r@) =~= before.push(
                    (strip_prefixes(sv[i as int].0, "perm:"@), sv[i as int].1),
                ));
            }
            i = i + 1;
        }
        assert(sv.take(self.settings.len() as int) =~= sv);
        r
    }

    // --- the episodic log ---

    /// The episodes, in the order they happened: role and content.
    pub fn episodes(&self) -> (r: &Vec<(String, String)>)
        ensures
            pairs_view(r@) == self@.episodes,
    {
        &self.episodes
    }

    /// Logs an exchange.
    pub fn add_episode(&mut self, role: &str, content: &str)
        ensures
            final(self)@ == (Kept { episodes: old(self)@.episodes.push((role@, content@)), ..old(self)@ }),
    {
        let ghost before = pairs_view(self.episodes@);
        self.episodes.push((from_chars(to_chars(role).as_slice()), from_chars(to_chars(content).as_slice())));
        assert(pairs_view(self.episodes@) =~= before.push((role@, content@)));
    }
}

/// No text occurs twice among the facts.
pub open spec fn distinct_texts(fs: Seq<(i64, Seq<char>)>) -> bool {
    forall|i: int, j: int| 0 <= i < j < fs.len() ==> #[trigger] fs[i].1 != #[trigger] fs[j].1
}

/// A fact once learned is known, learning it again changes nothing, and learning never makes
/// two facts alike.
pub proof fn lemma_fact_learned_once(fs: Seq<(i64, Seq<char>)>, t: Seq<char>)
    ensures
        fact_texts(fact_added(fs, t)).contains(t),
        fact_added(fact_added(fs, t), t) == fact_added(fs, t),
        distinct_texts(fs) ==> distinct_texts(fact_added(fs, t)),
{
    let a = fact_added(fs, t);
    if !fact_texts(fs).contains(t) {
        assert(fact_texts(a)[fs.len() as int] == t);
        assert forall|i: int, j: int| distinct_texts(fs) && 0 <= i < j < a.len() implies #[trigger] a[i].1 != #[trigger] a[j].1 by {
            if j == fs.len() {
                assert(fact_texts(fs)[i] == fs[i].1);
            }
        }
    }
}

proof fn lemma_text_at(fs: Seq<(i64, Seq<char>)>, t: Seq<char>, i: int)
    requires
        0 <= i,
    ensures
        text_at(fs, t, i) matches Some(j) ==> i <= j < fs.len() && fs[j].1 == t,
        text_at(fs, t, i) is None ==> forall|k: int| i <= k < fs.len() ==> (#[trigger] fs[k]).1 != t,
    decreases fs.len() - i,
{
    if i < fs.len() && fs[i].1 != t {
        lemma_text_at(fs, t, i + 1);
    }
}

/// Deleting a fact removes that fact and no other: among distinct facts, its text is gone and
/// every other text is still known; deleting an unknown fact changes nothing.
pub proof fn lemma_delete_fact_only_that(fs: Seq<(i64, Seq<char>)>, t: Seq<char>, u: Seq<char>)
    requires
        distinct_texts(fs),
    ensures
        !fact_texts(fact_dropped(fs, t)).contains(t),
        u != t ==> (fact_texts(fact_dropped(fs, t)).contains(u) == fact_texts(fs).contains(u)),
        !fact_texts(fs).contains(t) ==> fact_dropped(fs, t) == fs,
{
    lemma_text_at(fs, t, 0);
    let d = fact_dropped(fs, t);
    match text_at(fs, t, 0) {
        Some(k) => {
            assert(d == fs.remove(k));
            assert(fact_texts(fs)[k] == t);
            if fact_texts(d).contains(t) {
                let x = choose|x: int| 0 <= x < d.len() && fact_texts(d)[x] == t;
                if x < k {
                    assert(d[x] == fs[x]);
                } else {
                    assert(d[x] == fs[x + 1]);
                }
            }
            if u != t {
                if fact_texts(fs).contains(u) {
                    let x = choose|x: int| 0 <= x < fs.len() && fact_texts(fs)[x] == u;
                    if x < k {
                        assert(fact_texts(d)[x] == u);
                    } else {
                        assert(x != k);
                        assert(fact_texts(d)[x - 1] == u);
                    }
                }
                if fact_texts(d).contains(u) {
                    let x = choose|x: int| 0 <= x < d.len() && fact_texts(d)[x] == u;
                    if x < k {
                        assert(fact_texts(fs)[x] == u);
                    } else {
                        assert(fact_texts(fs)[x + 1] == u);
                    }
                }
            }
        },
        None => {
            if fact_texts(fs).contains(t) {
                let x = choose|x: int| 0 <= x < fs.len() && fact_texts(fs)[x] == t;
                assert(fs[x].1 == t);
            }
        },
    }
}

proof fn lemma_retained(es: Seq<IndexEntry>, m: Option<Seq<char>>)
    ensures
        forall|k: int| 0 <= k < retained(es, m).len() ==> stays(#[trigger] retained(es, m)[k], m) && es.contains(
            retained(es, m)[k],
        ),
        forall|k: int| 0 <= k < es.len() && stays(#[trigger] es[k], m) ==> retained(es, m).contains(es[k]),
    decreases es.len(),
{
    if es.len() > 0 {
        let d = es.drop_last();
        lemma_retained(d, m);
        let r = retained(es, m);
        let rd = retained(d, m);
        assert forall|k: int| 0 <= k < r.len() implies stays(#[trigger] r[k], m) && es.contains(r[k]) by {
            if k < rd.len() {
                assert(r[k] == rd[k]);
                let x = choose|x: int| 0 <= x < d.len() && d[x] == rd[k];
                assert(es[x] == d[x]);
            } else {
                assert(r[k] == es[es.len() - 1]);
            }
        }
        assert forall|k: int| 0 <= k < es.len() && stays(#[trigger] es[k], m) implies r.contains(es[k]) by {
            if k < d.len() {
                assert(d[k] == es[k]);
                let x = choose|x: int| 0 <= x < rd.len() && rd[x] == d[k];
                assert(r[x] == rd[x]);
            } else {
                assert(r[r.len() - 1] == es[k]);
            }
        }
    }
}

/// After a fact is deleted, no semantic copy of it is left, and every other memory stays.
pub proof fn lemma_delete_fact_clears_copies(es: Seq<IndexEntry>, t: Seq<char>)
    ensures
        forall|k: int| 0 <= k < retained(es, Some(t)).len() ==> !is_copy_of(#[trigger] retained(es, Some(t))[k], t),
        forall|k: int| 0 <= k < es.len() && !is_copy_of(#[trigger] es[k], t) ==> retained(es, Some(t)).contains(es[k]),
{
    lemma_retained(es, Some(t));
    assert forall|k: int| 0 <= k < es.len() && !is_copy_of(#[trigger] es[k], t) implies retained(es, Some(t)).contains(es[k]) by {
        assert(stays(es[k], Some(t)));
    }
    assert forall|k: int| 0 <= k < retained(es, Some(t)).len() implies !is_copy_of(#[trigger] retained(es, Some(t))[k], t) by {
        assert(stays(retained(es, Some(t))[k], Some(t)));
    }
}

/// Forgetting everything keeps exactly the document chunks of the index.
pub proof fn lemma_forget_all_keeps_docs(es: Seq<IndexEntry>)
    ensures
        forall|k: int| 0 <= k < retained(es, None).len() ==> is_doc(#[trigger] retained(es, None)[k]),
        forall|k: int| 0 <= k < es.len() && is_doc(#[trigger] es[k]) ==> retained(es, None).contains(es[k]),
{
    lemma_retained(es, None);
    assert forall|k: int| 0 <= k < es.len() && is_doc(#[trigger] es[k]) implies retained(es, None).contains(es[k]) by {
        assert(stays(es[k], None));
    }
    assert forall|k: int| 0 <= k < retained(es, None).len() implies is_doc(#[trigger] retained(es, None)[k]) by {
        assert(stays(retained(es, None)[k], None));
    }
}

proof fn lemma_count_update(es: Seq<IndexEntry>, i: int, x: IndexEntry)
    requires
        0 <= i < es.len(),
    ensures
        current_count(es.update(i, x)) + (if es[i].valid { 1int } else { 0 }) == current_count(es) + (if x.valid { 1int } else { 0 }),
    decreases es.len(),
{
    let u = es.update(i, x);
    if i == es.len() - 1 {
        assert(u.drop_last() =~= es.drop_last());
    } else {
        lemma_count_update(es.drop_last(), i, x);
        assert(u.drop_last() =~= es.drop_last().update(i, x));
    }
}

/// Superseding a memory leaves it no longer current: a current one lowers the count of current
/// memories by one; an unknown id changes nothing.
pub proof fn lemma_supersede_lowers_count(es: Seq<IndexEntry>, id: i64)
    ensures
        entry_at(es, id, 0) matches Some(i) ==> !superseded(es, id)[i].valid && superseded(es, id)[i].id == id,
        entry_at(es, id, 0) matches Some(i) ==> current_count(superseded(es, id)) + (if es[i].valid { 1int } else { 0 }) == current_count(es),
        entry_at(es, id, 0) is None ==> superseded(es, id) == es,
{
    lemma_entry_at(es, id, 0);
    if let Some(i) = entry_at(es, id, 0) {
        lemma_count_update(es, i, IndexEntry { id: es[i].id, kind: es[i].kind, valid: false, text: es[i].text });
    }
}

proof fn lemma_entry_at(es: Seq<IndexEntry>, id: i64, i: int)
    requires
        0 <= i,
    ensures
        entry_at(es, id, i) matches Some(j) ==> i <= j < es.len() && es[j].id == id,
    decreases es.len() - i,
{
    if i < es.len() && es[i].id != id {
        lemma_entry_at(es, id, i + 1);
    }
}

proof fn lemma_notes_on_all(ns: Seq<(i64, Seq<char>, Seq<char>)>)
    ensures
        notes_on(ns, None) == ns,
    decreases ns.len(),
{
    if ns.len() > 0 {
        lemma_notes_on_all(ns.drop_last());
        assert(ns.drop_last().push(ns.last()) =~= ns);
    }
}

/// A note just added is listed first.
pub proof fn lemma_new_note_listed_first(ns: Seq<(i64, Seq<char>, Seq<char>)>, id: i64, topic: Seq<char>, text: Seq<char>)
    ensures
        notes_on(ns.push((id, topic, text)).reverse(), None).len() == ns.len() + 1,
        notes_on(ns.push((id, topic, text)).reverse(), None)[0] == (id, topic, text),
{
    lemma_notes_on_all(ns.push((id, topic, text)).reverse());
}

/// A conversation loads as last saved; once deleted, it no longer loads.  Saving or deleting
/// one conversation leaves every other as it was.
pub proof fn lemma_conversation_read_after_write(
    cs: Seq<(Seq<char>, (Seq<char>, Seq<char>, i64))>,
    id: Seq<char>,
    title: Seq<char>,
    data: Seq<char>,
    now: i64,
    other: Seq<char>,
)
    ensures
        chat_data(put_last(cs, id, (title, data, now)), id) == Some(data),
        chat_data(without_key(cs, id), id) is None,
        other != id ==> chat_data(put_last(cs, id, (title, data, now)), other) == chat_data(cs, other),
        other != id ==> chat_data(without_key(cs, id), other) == chat_data(cs, other),
{
    lemma_read_after_put_last(cs, id, (title, data, now), other);
}

/// Reading a permission after setting it gives the state set; other tools keep theirs.
pub proof fn lemma_permission_read_after_write(s: Seq<(Seq<char>, Seq<char>)>, tool: Seq<char>, state: Seq<char>, other: Seq<char>)
    ensures
        lookup(put(s, perm_key(tool), state), perm_key(tool)) == Some(state),
        other != tool ==> lookup(put(s, perm_key(tool), state), perm_key(other)) == lookup(s, perm_key(other)),
{
    lemma_read_after_put(s, perm_key(tool), state, perm_key(other));
    reveal_strlit("perm:");
    if other != tool {
        assert(perm_key(other).skip(5) =~= other);
        assert(perm_key(tool).skip(5) =~= tool);
    }
}

/// A profile field reads back as the value set, trimmed; set to blank, it is gone.  Other fields
/// are untouched.
pub proof fn lemma_profile_read_after_write(p: Seq<(Seq<char>, Seq<char>)>, key: Seq<char>, value: Seq<char>, other: Seq<char>)
    ensures
        trim(value).len() > 0 ==> lookup(profile_set(p, key, value), key) == Some(trim(value)),
        trim(value).len() == 0 ==> lookup(profile_set(p, key, value), key) is None,
        other != key ==> lookup(profile_set(p, key, value), other) == lookup(p, other),
{
    lemma_read_after_put_last(p, key, trim(value), other);
}

} // verus!
