//! Records the app shows: e-mails and text messages, and the name a message is shown under.
use vstd::prelude::*;
use crate::contacts::{number_key, number_key_of};
use crate::chars::{to_chars, from_chars, chars_eq, append_str};
use crate::json::{json_sms_rows, parse_sms_rows};

verus! {

/// An e-mail in a list: who, what, when, and whether it was read.
#[derive(Clone, Debug)]
pub struct EmailSummary {
    pub id: i64,
    pub sender: String,
    pub subject: String,
    pub date: String,
    pub seen: bool,
}

/// A whole e-mail, decrypted.
#[derive(Clone, Debug)]
pub struct EmailFull {
    pub id: i64,
    pub sender: String,
    pub subject: String,
    pub date: String,
    pub body: String,
}

/// A text message for the drawer: the contact's name when the number is in the address book.
#[derive(Clone, Debug)]
pub struct SmsView {
    pub who: String,
    pub body: String,
    pub ts: i64,
    pub kind: String,
}

/// The name of the first address-book entry with the given number key.
pub open spec fn name_for_key(names: Seq<(Seq<char>, Seq<char>)>, key: Seq<char>) -> Option<Seq<char>>
    decreases names.len(),
{
    if names.len() == 0 {
        None
    } else if names[0].0 == key {
        Some(names[0].1)
    } else {
        name_for_key(names.drop_first(), key)
    }
}

/// Who a message is shown as: the address-book name for its number's key, else the number.
pub open spec fn shown_sender(names: Seq<(Seq<char>, Seq<char>)>, number: Seq<char>) -> Seq<char> {
    match name_for_key(names, number_key_of(number)) {
        Some(n) => n,
        None => number,
    }
}

/// Builds the drawer view of a message (see [`shown_sender`]); `names` maps number keys to
/// contact names.
pub fn sms_view(names: &[(String, String)], number: &str, body: String, ts: i64, kind: String) -> (r:
    SmsView)
    ensures
        r.who@ == shown_sender(names@.map_values(|p: (String, String)| (p.0@, p.1@)), number@),
        r.body == body,
        r.ts == ts,
        r.kind == kind,
{
    let ghost nv = names@.map_values(|p: (String, String)| (p.0@, p.1@));
    let key = number_key(number);
    let kc = to_chars(key.as_str());
    let mut k: usize = 0;
    assert(nv.skip(0) =~= nv);
    while k < names.len()
        invariant
            k <= names.len(),
            nv == names@.map_values(|p: (String, String)| (p.0@, p.1@)),
            kc@ == number_key_of(number@),
            name_for_key(nv, kc@) == name_for_key(nv.skip(k as int), kc@),
        decreases names.len() - k,
    {
        assert(nv.skip(k as int)[0] == (names@[k as int].0@, names@[k as int].1@));
        assert(nv.skip(k as int).drop_first() =~= nv.skip(k + 1));
        let nk = to_chars(names[k].0.as_str());
        if chars_eq(&nk, &kc) {
            let who = from_chars(to_chars(names[k].1.as_str()).as_slice());
            return SmsView { who, body, ts, kind };
        }
        k = k + 1;
    }
    let who = from_chars(to_chars(number).as_slice());
    SmsView { who, body, ts, kind }
}

/// How many messages the drawer lists for a requested count: 200 when none is asked for, and
/// always between 1 and 500.
pub open spec fn drawer_limit(limit: Option<usize>) -> int {
    match limit {
        Some(n) => if n < 1 {
            1
        } else if n > 500 {
            500
        } else {
            n as int
        },
        None => 200,
    }
}

/// The drawer's message count (see [`drawer_limit`]).
pub fn sms_limit(limit: Option<usize>) -> (r: usize)
    ensures
        r as int == drawer_limit(limit),
{
    match limit {
        Some(n) => if n < 1 {
            1
        } else if n > 500 {
            500
        } else {
            n
        },
        None => 200,
    }
}

/// The system messages from the SMS reader's reply (a JSON list of `[number, body, time, kind]`):
/// refused when the permission was denied, an error when the reply is not such a list.
pub fn sms_reply_rows(reply: &str) -> (r: Result<Vec<(String, String, i64, String)>, String>)
    ensures
        reply@ == "DENIED"@ ==> (r matches Err(e) && e@
            == "Permesso SMS negato: puoi concederlo dalle impostazioni Android."@),
        reply@ != "DENIED"@ && json_sms_rows(reply@) is None ==> (r matches Err(e)
            && "SMS di sistema illeggibili: "@.is_prefix_of(e@)),
        reply@ != "DENIED"@ ==> (json_sms_rows(reply@) matches Some(rows) ==> (r matches Ok(v)
            && v@.map_values(|p: (String, String, i64, String)| (p.0@, p.1@, p.2, p.3@)) == rows)),
{
    if chars_eq(&to_chars(reply), &to_chars("DENIED")) {
        return Err(
            from_chars(to_chars("Permesso SMS negato: puoi concederlo dalle impostazioni Android.").as_slice()),
        );
    }
    match parse_sms_rows(reply) {
        Err(e) => {
            let mut m = to_chars("SMS di sistema illeggibili: ");
            let ghost head = m@;
            append_str(&mut m, e.as_str());
            assert(m@.take(head.len() as int) =~= head);
            Err(from_chars(m.as_slice()))
        },
        Ok(rows) => Ok(rows),
    }
}

} // verus!
