//! Contacts: the deduplication key of a phone number, name normalisation for matching, and the
//! annotation of the system address book against what has been imported.
use vstd::prelude::*;
use crate::chars::{
    is_ws, is_ws_exec, to_chars, from_chars, trim, trim_exec, chars_eq, slice, contains,
    contains_exec, starts_with, starts_with_exec,
};
use crate::lower::{lowercase, str_to_lowercase};

verus! {

/// A contact of the assistant's own address book.
#[derive(Clone, Debug)]
pub struct Contact {
    pub id: i64,
    pub name: String,
    pub number: String,
    /// Edited here by the user: a sync no longer overwrites it.
    pub customized: bool,
}

/// A contact of the system address book, annotated for the selection screen.
#[derive(Clone, Debug)]
pub struct SysContact {
    pub name: String,
    pub number: String,
    /// Already in the assistant's store.
    pub imported: bool,
    /// Edited in the app: not re-imported.
    pub customized: bool,
}

pub open spec fn is_ascii_digit(c: char) -> bool {
    '0' <= c <= '9'
}

/// The ASCII digits of `s`, in order.
pub open spec fn digits_of(s: Seq<char>) -> Seq<char>
    decreases s.len(),
{
    if s.len() == 0 {
        seq![]
    } else if is_ascii_digit(s.last()) {
        digits_of(s.drop_last()).push(s.last())
    } else {
        digits_of(s.drop_last())
    }
}

/// The deduplication key of a number: its last ten digits (the others are formatting or a
/// country prefix), or all of its digits when it has at most ten.
pub open spec fn number_key_of(number: Seq<char>) -> Seq<char> {
    let d = digits_of(number);
    if d.len() > 10 {
        d.skip(d.len() - 10)
    } else {
        d
    }
}

fn digits_exec(v: &Vec<char>) -> (r: Vec<char>)
    ensures
        r@ == digits_of(v@),
{
    let mut r: Vec<char> = Vec::new();
    let mut i: usize = 0;
    while i < v.len()
        invariant
            i <= v.len(),
            r@ == digits_of(v@.take(i as int)),
        decreases v.len() - i,
    {
        assert(v@.take(i + 1).drop_last() =~= v@.take(i as int));
        assert(v@.take(i + 1).last() == v@[i as int]);
        if '0' <= v[i] && v[i] <= '9' {
            r.push(v[i]);
        }
        i = i + 1;
    }
    assert(v@.take(v.len() as int) =~= v@);
    r
}

/// The deduplication key of a phone number (see [`number_key_of`]).
pub fn number_key(number: &str) -> (r: String)
    ensures
        r@ == number_key_of(number@),
{
    let v = to_chars(number);
    let d = digits_exec(&v);
    if d.len() > 10 {
        let t = slice(&d, d.len() - 10, d.len());
        assert(t@ =~= d@.skip(d@.len() - 10));
        from_chars(t.as_slice())
    } else {
        from_chars(d.as_slice())
    }
}

/// An accented vowel flattened to its plain letter.
pub open spec fn flatten_accent(c: char) -> char {
    if c == 'à' || c == 'á' || c == 'â' {
        'a'
    } else if c == 'è' || c == 'é' || c == 'ê' {
        'e'
    } else if c == 'ì' || c == 'í' || c == 'î' {
        'i'
    } else if c == 'ò' || c == 'ó' || c == 'ô' {
        'o'
    } else if c == 'ù' || c == 'ú' || c == 'û' {
        'u'
    } else {
        c
    }
}

/// `s` with accents flattened and each run of whitespace turned into one space; `prev_space`
/// tells whether a space was just written.
pub open spec fn squeeze(s: Seq<char>, prev_space: bool) -> Seq<char>
    decreases s.len(),
{
    if s.len() == 0 {
        seq![]
    } else {
        let c = flatten_accent(s[0]);
        if is_ws(c) {
            if prev_space {
                squeeze(s.drop_first(), true)
            } else {
                seq![' '] + squeeze(s.drop_first(), true)
            }
        } else {
            seq![c] + squeeze(s.drop_first(), false)
        }
    }
}

/// A name normalised for matching: trimmed, lowercased, accents flattened, whitespace runs
/// collapsed to one space, trimmed again.
pub open spec fn normalized(s: Seq<char>) -> Seq<char> {
    trim(squeeze(lowercase(trim(s)), false))
}

fn flatten_accent_exec(c: char) -> (r: char)
    ensures
        r == flatten_accent(c),
{
    if c == 'à' || c == 'á' || c == 'â' {
        'a'
    } else if c == 'è' || c == 'é' || c == 'ê' {
        'e'
    } else if c == 'ì' || c == 'í' || c == 'î' {
        'i'
    } else if c == 'ò' || c == 'ó' || c == 'ô' {
        'o'
    } else if c == 'ù' || c == 'ú' || c == 'û' {
        'u'
    } else {
        c
    }
}

/// Normalises a name for matching (see [`normalized`]): "Marco  Rossi" and "marco rossi" agree.
pub fn norm(s: &str) -> (r: String)
    ensures
        r@ == normalized(s@),
{
    let v = to_chars(s);
    let t = trim_exec(&v);
    let ts = from_chars(t.as_slice());
    let lower_s = str_to_lowercase(ts.as_str());
    let lower = to_chars(lower_s.as_str());
    let mut out: Vec<char> = Vec::new();
    let mut prev_space = false;
    let mut i: usize = 0;
    assert(lower@.skip(0) =~= lower@);
    while i < lower.len()
        invariant
            i <= lower.len(),
            out@ + squeeze(lower@.skip(i as int), prev_space) == squeeze(lower@, false),
        decreases lower.len() - i,
    {
        let c = flatten_accent_exec(lower[i]);
        assert(lower@.skip(i as int)[0] == lower@[i as int]);
        assert(lower@.skip(i as int).drop_first() =~= lower@.skip(i + 1));
        let ghost o0 = out@;
        let ghost p0 = prev_space;
        if is_ws_exec(c) {
            if !prev_space {
                out.push(' ');
                prev_space = true;
            }
        } else {
            out.push(c);
            prev_space = false;
        }
        proof {
            let rest = squeeze(lower@.skip(i + 1), prev_space);
            if is_ws(c) && p0 {
                assert(out@ == o0);
            } else if is_ws(c) {
                assert(o0 + (seq![' '] + rest) =~= out@ + rest);
            } else {
                assert(o0 + (seq![c] + rest) =~= out@ + rest);
            }
        }
        i = i + 1;
    }
    assert(lower@.skip(i as int) =~= Seq::<char>::empty());
    assert(out@ + Seq::<char>::empty() =~= out@);
    let r = trim_exec(&out);
    from_chars(r.as_slice())
}

/// What the store knows of an origin key: `None` when never imported, otherwise whether the
/// user customised it (the first entry for the key counts).
pub open spec fn origin_state(state: Seq<(Seq<char>, bool)>, key: Seq<char>) -> Option<bool>
    decreases state.len(),
{
    if state.len() == 0 {
        None
    } else if state[0].0 == key {
        Some(state[0].1)
    } else {
        origin_state(state.drop_first(), key)
    }
}

/// The system contacts kept for the selection screen: those whose number has digits, each
/// marked imported (and customised) as the store's state says for its key.
pub open spec fn annotated(
    items: Seq<(Seq<char>, Seq<char>)>,
    state: Seq<(Seq<char>, bool)>,
) -> Seq<(Seq<char>, Seq<char>, bool, bool)>
    decreases items.len(),
{
    if items.len() == 0 {
        seq![]
    } else {
        let prev = annotated(items.drop_last(), state);
        let (name, number) = items.last();
        let key = number_key_of(number);
        if key.len() == 0 {
            prev
        } else {
            match origin_state(state, key) {
                Some(cust) => prev.push((name, number, true, cust)),
                None => prev.push((name, number, false, false)),
            }
        }
    }
}

pub open spec fn sys_contact_view(c: SysContact) -> (Seq<char>, Seq<char>, bool, bool) {
    (c.name@, c.number@, c.imported, c.customized)
}

fn origin_state_exec(state: &[(String, bool)], key: &Vec<char>) -> (r: Option<bool>)
    ensures
        r == origin_state(state@.map_values(|p: (String, bool)| (p.0@, p.1)), key@),
{
    let ghost sv = state@.map_values(|p: (String, bool)| (p.0@, p.1));
    let mut k: usize = 0;
    assert(sv.skip(0) =~= sv);
    while k < state.len()
        invariant
            k <= state.len(),
            sv == state@.map_values(|p: (String, bool)| (p.0@, p.1)),
            origin_state(sv, key@) == origin_state(sv.skip(k as int), key@),
        decreases state.len() - k,
    {
        assert(sv.skip(k as int)[0] == (state@[k as int].0@, state@[k as int].1));
        assert(sv.skip(k as int).drop_first() =~= sv.skip(k + 1));
        let kc = to_chars(state[k].0.as_str());
        if chars_eq(&kc, key) {
            return Some(state[k].1);
        }
        k = k + 1;
    }
    None
}

/// Annotates the system address book against the store's state per origin key (see
/// [`annotated`]).
pub fn annotate_sys_contacts(items: Vec<(String, String)>, state: &[(String, bool)]) -> (r: Vec<
    SysContact,
>)
    ensures
        r.len() == annotated(
            items@.map_values(|p: (String, String)| (p.0@, p.1@)),
            state@.map_values(|p: (String, bool)| (p.0@, p.1)),
        ).len(),
        forall|k: int|
            0 <= k < r.len() ==> #[trigger] sys_contact_view(r@[k]) == annotated(
                items@.map_values(|p: (String, String)| (p.0@, p.1@)),
                state@.map_values(|p: (String, bool)| (p.0@, p.1)),
            )[k],
{
    let ghost iv = items@.map_values(|p: (String, String)| (p.0@, p.1@));
    let ghost sv = state@.map_values(|p: (String, bool)| (p.0@, p.1));
    let mut r: Vec<SysContact> = Vec::new();
    let mut k: usize = 0;
    while k < items.len()
        invariant
            k <= items.len(),
            iv == items@.map_values(|p: (String, String)| (p.0@, p.1@)),
            sv == state@.map_values(|p: (String, bool)| (p.0@, p.1)),
            r.len() == annotated(iv.take(k as int), sv).len(),
            forall|j: int| 0 <= j < r.len() ==> #[trigger] sys_contact_view(r@[j]) == annotated(
                iv.take(k as int),
                sv,
            )[j],
        decreases items.len() - k,
    {
        proof {
            assert(iv.take(k + 1).drop_last() =~= iv.take(k as int));
            assert(iv.take(k + 1).last() == (items@[k as int].0@, items@[k as int].1@));
        }
        let key = number_key(items[k].1.as_str());
        let kc = to_chars(key.as_str());
        if kc.len() > 0 {
            let (imported, customized) = match origin_state_exec(state, &kc) {
                Some(c) => (true, c),
                None => (false, false),
            };
            let c = SysContact {
                name: from_chars(to_chars(items[k].0.as_str()).as_slice()),
                number: from_chars(to_chars(items[k].1.as_str()).as_slice()),
                imported,
                customized,
            };
            let ghost r0 = r@;
            r.push(c);
            proof {
                assert forall|j: int| 0 <= j < r.len() implies #[trigger] sys_contact_view(r@[j])
                    == annotated(iv.take(k + 1), sv)[j] by {
                    if j < r.len() - 1 {
                        assert(r@[j] == r0[j]);
                    }
                }
            }
        }
        k = k + 1;
    }
    assert(iv.take(items.len() as int) =~= iv);
    r
}

/// What importing one system contact does, given the stored contact with the same origin key
/// (its id, and whether the user customised it).
pub enum ImportAction {
    /// The number has no digits: not a phone number, skipped.
    NoDigits,
    /// Customised in the app: left untouched.
    KeepCustomized,
    /// Already imported: its name is refreshed from the system (not a new contact).
    Rename { id: i64 },
    /// New: inserted under this key (counted as new unless the key is taken).
    Insert { key: String },
}

/// Decides the import of one system contact (see [`ImportAction`]).
pub fn import_action(number: &str, existing: Option<(i64, bool)>) -> (r: ImportAction)
    ensures
        number_key_of(number@).len() == 0 ==> r is NoDigits,
        number_key_of(number@).len() > 0 ==> match existing {
            Some((_, true)) => r is KeepCustomized,
            Some((id, false)) => r == (ImportAction::Rename { id }),
            None => r matches ImportAction::Insert { key } && key@ == number_key_of(number@),
        },
{
    let key = number_key(number);
    if to_chars(key.as_str()).len() == 0 {
        return ImportAction::NoDigits;
    }
    match existing {
        Some((_, true)) => ImportAction::KeepCustomized,
        Some((id, false)) => ImportAction::Rename { id },
        None => ImportAction::Insert { key },
    }
}

/// The refusal when an edited number is already another contact's.
pub const NUMBER_TAKEN: &'static str = "un altro contatto ha già questo numero";

/// The refusal when the edited contact does not exist.
pub const CONTACT_NOT_FOUND: &'static str = "contatto non trovato";

/// The key of an edited number, or the refusal when it has no digits.
pub fn update_key(number: &str) -> (r: Result<String, String>)
    ensures
        r matches Ok(k) ==> k@ == number_key_of(number@) && k@.len() > 0,
        r matches Err(e) ==> e@ == "il numero non contiene cifre"@ && number_key_of(number@).len() == 0,
        r is Err <==> number_key_of(number@).len() == 0,
{
    let key = number_key(number);
    if to_chars(key.as_str()).len() == 0 {
        return Err(from_chars(to_chars("il numero non contiene cifre").as_slice()));
    }
    Ok(key)
}

/// The contacts whose normalised name contains the query, and starts with it or not, in order.
pub open spec fn name_hits(cs: Seq<Contact>, q: Seq<char>, prefix: bool) -> Seq<Contact>
    decreases cs.len(),
{
    if cs.len() == 0 {
        seq![]
    } else {
        let rest = name_hits(cs.drop_last(), q, prefix);
        let n = normalized(cs.last().name@);
        if contains(n, q) && starts_with(n, q) == prefix {
            rest.push(cs.last())
        } else {
            rest
        }
    }
}

/// A search by name: accent- and case-insensitive substring matches of the normalised query
/// (none for a blank query), those whose name starts with it first, each group in order.
pub open spec fn name_search(cs: Seq<Contact>, name: Seq<char>) -> Seq<Contact> {
    let q = normalized(name);
    if q.len() == 0 {
        seq![]
    } else {
        name_hits(cs, q, true) + name_hits(cs, q, false)
    }
}

/// The same contact, field by field.
pub open spec fn same_contact(a: Contact, b: Contact) -> bool {
    a.id == b.id && a.name@ == b.name@ && a.number@ == b.number@ && a.customized == b.customized
}

fn copy_contact(c: &Contact) -> (r: Contact)
    ensures
        same_contact(r, *c),
{
    Contact {
        id: c.id,
        name: from_chars(to_chars(c.name.as_str()).as_slice()),
        number: from_chars(to_chars(c.number.as_str()).as_slice()),
        customized: c.customized,
    }
}

fn push_hits(out: &mut Vec<Contact>, cs: &Vec<Contact>, q: &Vec<char>, prefix: bool)
    ensures
        final(out).len() == old(out).len() + name_hits(cs@, q@, prefix).len(),
        forall|j: int| 0 <= j < old(out).len() ==> same_contact(#[trigger] final(out)@[j], old(out)@[j]),
        forall|j: int|
            0 <= j < name_hits(cs@, q@, prefix).len() ==> same_contact(
                #[trigger] final(out)@[old(out).len() + j],
                name_hits(cs@, q@, prefix)[j],
            ),
{
    let ghost o0 = out@;
    let mut k: usize = 0;
    while k < cs.len()
        invariant
            k <= cs.len(),
            out.len() == o0.len() + name_hits(cs@.take(k as int), q@, prefix).len(),
            forall|j: int| 0 <= j < o0.len() ==> same_contact(#[trigger] out@[j], o0[j]),
            forall|j: int|
                0 <= j < name_hits(cs@.take(k as int), q@, prefix).len() ==> same_contact(
                    #[trigger] out@[o0.len() + j],
                    name_hits(cs@.take(k as int), q@, prefix)[j],
                ),
        decreases cs.len() - k,
    {
        proof {
            assert(cs@.take(k + 1).drop_last() =~= cs@.take(k as int));
            assert(cs@.take(k + 1).last() == cs@[k as int]);
        }
        let n = to_chars(norm(cs[k].name.as_str()).as_str());
        if contains_exec(&n, q) && starts_with_exec(&n, q) == prefix {
            let ghost before = out@;
            out.push(copy_contact(&cs[k]));
            proof {
                assert forall|j: int| 0 <= j < o0.len() implies same_contact(#[trigger] out@[j], o0[j]) by {
                    assert(out@[j] == before[j]);
                }
                assert forall|j: int|
                    0 <= j < name_hits(cs@.take(k + 1), q@, prefix).len() implies same_contact(
                    #[trigger] out@[o0.len() + j],
                    name_hits(cs@.take(k + 1), q@, prefix)[j],
                ) by {
                    if j < name_hits(cs@.take(k as int), q@, prefix).len() {
                        assert(out@[o0.len() + j] == before[o0.len() + j]);
                    }
                }
            }
        }
        k = k + 1;
    }
    assert(cs@.take(cs.len() as int) =~= cs@);
}

/// Searches the contacts by name (see [`name_search`]): several results mean homonyms, for the
/// caller to choose among.
pub fn search_contacts(all: &Vec<Contact>, name: &str) -> (r: Vec<Contact>)
    ensures
        r.len() == name_search(all@, name@).len(),
        forall|j: int| 0 <= j < r.len() ==> same_contact(#[trigger] r@[j], name_search(all@, name@)[j]),
{
    let q = to_chars(norm(name).as_str());
    let mut out: Vec<Contact> = Vec::new();
    if q.len() == 0 {
        return out;
    }
    push_hits(&mut out, all, &q, true);
    let ghost mid = out@;
    push_hits(&mut out, all, &q, false);
    proof {
        let a = name_hits(all@, q@, true);
        let b = name_hits(all@, q@, false);
        assert(mid.len() == a.len());
        assert forall|j: int| 0 <= j < out.len() implies same_contact(#[trigger] out@[j], name_search(all@, name@)[j]) by {
            if j < a.len() {
                assert((a + b)[j] == a[j]);
                assert(same_contact(mid[0 + j], a[j]));
                assert(same_contact(out@[j], mid[j]));
            } else {
                assert((a + b)[j] == b[j - a.len()]);
                assert(same_contact(out@[mid.len() + (j - a.len())], b[j - a.len()]));
            }
        }
    }
    out
}

/// The answer of the system address-book reader when the user refused the permission.
pub open spec fn denied_reply() -> Seq<char> {
    "DENIED"@
}

/// The selection screen's list from the system address-book reader's reply (a JSON list of
/// `[name, number]`): refused when the permission was denied, an error when the reply is not
/// such a list, otherwise the annotated contacts (see [`annotated`]).
pub fn system_contacts(reply: &str, state: &[(String, bool)]) -> (r: Result<Vec<SysContact>, String>)
    ensures
        reply@ == denied_reply() ==> (r matches Err(e) && e@
            == "Permesso rubrica negato: puoi concederlo dalle impostazioni Android."@),
        reply@ != denied_reply() && crate::json::json_string_pairs(reply@) is None ==> (r matches Err(
            e,
        ) && "rubrica di sistema illeggibile: "@.is_prefix_of(e@)),
        reply@ != denied_reply() ==> (crate::json::json_string_pairs(reply@) matches Some(items) ==> (r matches Ok(v)
            && v.len() == annotated(items, state@.map_values(|p: (String, bool)| (p.0@, p.1))).len()
            && forall|k: int|
            0 <= k < v.len() ==> #[trigger] sys_contact_view(v@[k]) == annotated(
                items,
                state@.map_values(|p: (String, bool)| (p.0@, p.1)),
            )[k])),
{
    if chars_eq(&to_chars(reply), &to_chars("DENIED")) {
        return Err(
            from_chars(
                to_chars("Permesso rubrica negato: puoi concederlo dalle impostazioni Android.").as_slice(),
            ),
        );
    }
    match crate::json::parse_string_pairs(reply) {
        Err(e) => {
            let mut m = to_chars("rubrica di sistema illeggibile: ");
            let ghost head = m@;
            crate::chars::append_str(&mut m, e.as_str());
            assert(m@.take(head.len() as int) =~= head);
            Err(from_chars(m.as_slice()))
        },
        Ok(items) => Ok(annotate_sys_contacts(items, state)),
    }
}

} // verus!
