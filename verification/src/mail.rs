//! The rules of the e-mail account: the servers the configuration names, the range of messages
//! fetched, how the sent-mail folder is recognised, the stored password, which configuration
//! rows are written, and the search over the decrypted messages.  The IMAP and SMTP sessions,
//! the TLS and the database are the application's part.
use vstd::prelude::*;
use crate::chars::{
    to_chars, from_chars, append_chars, trim, trim_exec, is_ws, is_ws_exec, split_once_char,
    split_once_char_exec, contains, contains_exec, chars_eq,
};
use crate::num::{parse_unsigned, parse_u16_exec};
use crate::peer::{eq_ignore_ascii_case, eq_ignore_ascii_case_exec};
use crate::remote::{decimal, decimal_exec};
use crate::records::EmailFull;
use crate::lower::{lowercase, str_to_lowercase};

verus! {

/// A mail server of the account: host, port and the user's address.
pub struct MailServer {
    pub host: String,
    pub port: u16,
    pub user: String,
}

/// A configuration value, trimmed, when it is present and not blank.
pub open spec fn setting(v: Option<Seq<char>>) -> Option<Seq<char>> {
    match v {
        Some(s) => if trim(s).len() == 0 {
            None
        } else {
            Some(trim(s))
        },
        None => None,
    }
}

/// A port setting: the trimmed value read as a port number, else the default.
pub open spec fn port_setting(v: Option<Seq<char>>, default: u16) -> u16 {
    match v {
        Some(s) => match parse_unsigned(trim(s), u16::MAX as int) {
            Some(n) => n as u16,
            None => default,
        },
        None => default,
    }
}

/// The host part of an address that may carry a port (`host:port`), trimmed.
pub open spec fn host_part(h: Seq<char>) -> Seq<char> {
    match split_once_char(h, ':') {
        Some((a, _)) => trim(a),
        None => trim(h),
    }
}

/// The IMAP server of the account: the host (without any `:port`), the port (993 by default)
/// and the user's address; the host and the address are required.
pub open spec fn imap_of(host: Option<Seq<char>>, port: Option<Seq<char>>, email: Option<Seq<char>>) -> Result<
    (Seq<char>, u16, Seq<char>),
    Seq<char>,
> {
    match setting(host) {
        None => Err("Host IMAP mancante"@),
        Some(h) => match setting(email) {
            None => Err("Email mancante"@),
            Some(u) => Ok((host_part(h), port_setting(port, 993), u)),
        },
    }
}

/// The SMTP server of the account: the host, the port (465 by default) and the user's
/// address; the host and the address are required.
pub open spec fn smtp_of(host: Option<Seq<char>>, port: Option<Seq<char>>, email: Option<Seq<char>>) -> Result<
    (Seq<char>, u16, Seq<char>),
    Seq<char>,
> {
    match setting(host) {
        None => Err("Host SMTP mancante"@),
        Some(h) => match setting(email) {
            None => Err("Email mancante"@),
            Some(u) => Ok((h, port_setting(port, 465), u)),
        },
    }
}

fn setting_exec(v: &Option<String>) -> (r: Option<Vec<char>>)
    ensures
        r matches Some(s) ==> setting(match v {
            Some(x) => Some(x@),
            None => None,
        }) == Some(s@),
        r is None ==> setting(match v {
            Some(x) => Some(x@),
            None => None,
        }) is None,
{
    match v {
        Some(s) => {
            let t = trim_exec(&to_chars(s.as_str()));
            if t.len() == 0 {
                None
            } else {
                Some(t)
            }
        },
        None => None,
    }
}

fn port_exec(v: &Option<String>, default: u16) -> (r: u16)
    ensures
        r == port_setting(
            match v {
                Some(x) => Some(x@),
                None => None,
            },
            default,
        ),
{
    match v {
        Some(s) => match parse_u16_exec(&trim_exec(&to_chars(s.as_str()))) {
            Some(n) => n,
            None => default,
        },
        None => default,
    }
}

pub open spec fn opt_view(v: Option<String>) -> Option<Seq<char>> {
    match v {
        Some(x) => Some(x@),
        None => None,
    }
}

pub open spec fn server_is(r: Result<MailServer, String>, want: Result<(Seq<char>, u16, Seq<char>), Seq<char>>) -> bool {
    match (r, want) {
        (Ok(s), Ok((h, p, u))) => s.host@ == h && s.port == p && s.user@ == u,
        (Err(e), Err(w)) => e@ == w,
        _ => false,
    }
}

fn error_text(s: &str) -> (r: String)
    ensures
        r@ == s@,
{
    from_chars(to_chars(s).as_slice())
}

/// The IMAP server from the configuration values (see [`imap_of`]).
pub fn imap_settings(host: &Option<String>, port: &Option<String>, email: &Option<String>) -> (r: Result<MailServer, String>)
    ensures
        server_is(r, imap_of(opt_view(*host), opt_view(*port), opt_view(*email))),
{
    let h = match setting_exec(host) {
        Some(h) => h,
        None => return Err(error_text("Host IMAP mancante")),
    };
    let u = match setting_exec(email) {
        Some(u) => u,
        None => return Err(error_text("Email mancante")),
    };
    let hp = match split_once_char_exec(&h, ':') {
        Some((a, _)) => trim_exec(&a),
        None => trim_exec(&h),
    };
    Ok(MailServer { host: from_chars(hp.as_slice()), port: port_exec(port, 993), user: from_chars(u.as_slice()) })
}

/// The SMTP server from the configuration values (see [`smtp_of`]).
pub fn smtp_settings(host: &Option<String>, port: &Option<String>, email: &Option<String>) -> (r: Result<MailServer, String>)
    ensures
        server_is(r, smtp_of(opt_view(*host), opt_view(*port), opt_view(*email))),
{
    let h = match setting_exec(host) {
        Some(h) => h,
        None => return Err(error_text("Host SMTP mancante")),
    };
    let u = match setting_exec(email) {
        Some(u) => u,
        None => return Err(error_text("Email mancante")),
    };
    Ok(MailServer { host: from_chars(h.as_slice()), port: port_exec(port, 465), user: from_chars(u.as_slice()) })
}

/// SMTP on port 587 upgrades a plain connection (STARTTLS); other ports use TLS from the start.
pub fn uses_starttls(port: u16) -> (r: bool)
    ensures
        r == (port == 587),
{
    port == 587
}

/// The IMAP sequence set of the last `limit` messages of a folder holding `total`:
/// `start:total`; nothing to fetch from an empty folder.
pub open spec fn fetch_set(total: u32, limit: u32) -> Option<Seq<char>> {
    if total == 0 {
        None
    } else {
        let first: int = if total > limit {
            total - limit
        } else {
            0
        };
        Some(decimal((first + 1) as nat) + ":"@ + decimal(total as nat))
    }
}

/// The IMAP sequence set to fetch (see [`fetch_set`]).
pub fn fetch_range(total: u32, limit: u32) -> (r: Option<String>)
    requires
        limit > 0 || total < u32::MAX,
    ensures
        r matches Some(s) ==> fetch_set(total, limit) == Some(s@),
        r is None ==> fetch_set(total, limit) is None,
{
    if total == 0 {
        return None;
    }
    let first: u32 = if total > limit {
        total - limit
    } else {
        0
    };
    let start: u32 = first + 1;
    let mut v = decimal_exec(start as usize);
    v.push(':');
    append_chars(&mut v, &decimal_exec(total as usize));
    let r = from_chars(v.as_slice());
    proof {
        reveal_strlit(":");
    }
    assert(r@ =~= fetch_set(total, limit)->0);
    Some(r)
}

/// A folder the server flags as the sent-mail folder (`\Sent`, any ASCII case).
pub fn is_sent_attribute(attr: &str) -> (r: bool)
    ensures
        r == eq_ignore_ascii_case(attr@, "\\Sent"@),
{
    eq_ignore_ascii_case_exec(&to_chars(attr), &to_chars("\\Sent"))
}

/// The usual names of the sent-mail folder, tried in this order when no folder carries the
/// `\Sent` flag.
pub fn sent_folder_candidates() -> (r: Vec<String>)
    ensures
        r.len() == 6,
        r@[0]@ == "[Gmail]/Sent Mail"@,
        r@[1]@ == "[Gmail]/Posta inviata"@,
        r@[2]@ == "Sent"@,
        r@[3]@ == "Sent Items"@,
        r@[4]@ == "Posta inviata"@,
        r@[5]@ == "INBOX.Sent"@,
{
    let mut r: Vec<String> = Vec::new();
    r.push(error_text("[Gmail]/Sent Mail"));
    r.push(error_text("[Gmail]/Posta inviata"));
    r.push(error_text("Sent"));
    r.push(error_text("Sent Items"));
    r.push(error_text("Posta inviata"));
    r.push(error_text("INBOX.Sent"));
    r
}

/// `s` without its whitespace characters.
pub open spec fn without_ws(s: Seq<char>) -> Seq<char>
    decreases s.len(),
{
    if s.len() == 0 {
        seq![]
    } else if is_ws(s.last()) {
        without_ws(s.drop_last())
    } else {
        without_ws(s.drop_last()).push(s.last())
    }
}

/// The account password as stored: without whitespace (app passwords are shown in groups);
/// none when nothing is left.
pub open spec fn password_of(decrypted: Seq<char>) -> Option<Seq<char>> {
    if without_ws(decrypted).len() == 0 {
        None
    } else {
        Some(without_ws(decrypted))
    }
}

/// The account password from its decrypted row (see [`password_of`]); `None` means the
/// password is missing.
pub fn clean_password(decrypted: &str) -> (r: Option<String>)
    ensures
        r matches Some(p) ==> password_of(decrypted@) == Some(p@),
        r is None ==> password_of(decrypted@) is None,
{
    let v = to_chars(decrypted);
    let mut out: Vec<char> = Vec::new();
    let mut k: usize = 0;
    while k < v.len()
        invariant
            k <= v.len(),
            v@ == decrypted@,
            out@ == without_ws(v@.take(k as int)),
        decreases v.len() - k,
    {
        proof {
            assert(v@.take(k + 1).drop_last() =~= v@.take(k as int));
            assert(v@.take(k + 1).last() == v@[k as int]);
        }
        if !is_ws_exec(v[k]) {
            out.push(v[k]);
        }
        k = k + 1;
    }
    assert(v@.take(v.len() as int) =~= v@);
    if out.len() == 0 {
        None
    } else {
        Some(from_chars(out.as_slice()))
    }
}

/// What saving one configuration row does.
pub enum ConfigWrite {
    /// Nothing (the UI's `__has_password` marker, or an empty password, which keeps the old one).
    Skip,
    /// Store this password, encrypted, in its own row.
    Password(String),
    /// Store the row as it is.
    Plain,
}

/// What saving the configuration row `key = value` does (see [`ConfigWrite`]).
pub fn config_write(key: &str, value: &str) -> (r: ConfigWrite)
    ensures
        key@ == "__has_password"@ ==> r is Skip,
        key@ == "password"@ ==> (if value@.len() == 0 {
            r is Skip
        } else {
            r matches ConfigWrite::Password(p) && p@ == value@
        }),
        key@ != "__has_password"@ && key@ != "password"@ ==> r is Plain,
{
    proof {
        reveal_strlit("__has_password");
        reveal_strlit("password");
        assert("__has_password"@.len() != "password"@.len());
    }
    let k = to_chars(key);
    if chars_eq(&k, &to_chars("__has_password")) {
        return ConfigWrite::Skip;
    }
    if chars_eq(&k, &to_chars("password")) {
        let v = to_chars(value);
        if v.len() == 0 {
            return ConfigWrite::Skip;
        }
        return ConfigWrite::Password(from_chars(v.as_slice()));
    }
    ConfigWrite::Plain
}

/// Whether a message matches a search: the lowercase query occurs in its lowercase sender,
/// subject or body.
pub open spec fn email_matches(e: EmailFull, needle: Seq<char>) -> bool {
    contains(lowercase(e.sender@), needle) || contains(lowercase(e.subject@), needle) || contains(
        lowercase(e.body@),
        needle,
    )
}

/// The matching messages among `rows`, in order.
pub open spec fn matching(rows: Seq<EmailFull>, needle: Seq<char>) -> Seq<EmailFull>
    decreases rows.len(),
{
    if rows.len() == 0 {
        seq![]
    } else {
        let rest = matching(rows.drop_last(), needle);
        if email_matches(rows.last(), needle) {
            rest.push(rows.last())
        } else {
            rest
        }
    }
}

/// The search result: the first `limit` matching messages.
pub open spec fn search_result(rows: Seq<EmailFull>, q: Seq<char>, limit: nat) -> Seq<EmailFull> {
    let m = matching(rows, lowercase(q));
    if m.len() <= limit {
        m
    } else {
        m.take(limit as int)
    }
}

fn email_matches_exec(e: &EmailFull, needle: &Vec<char>) -> (r: bool)
    ensures
        r == email_matches(*e, needle@),
{
    contains_exec(&to_chars(str_to_lowercase(e.sender.as_str()).as_str()), needle)
        || contains_exec(&to_chars(str_to_lowercase(e.subject.as_str()).as_str()), needle)
        || contains_exec(&to_chars(str_to_lowercase(e.body.as_str()).as_str()), needle)
}

fn copy_email(e: &EmailFull) -> (r: EmailFull)
    ensures
        r.id == e.id,
        r.sender@ == e.sender@,
        r.subject@ == e.subject@,
        r.date@ == e.date@,
        r.body@ == e.body@,
{
    EmailFull {
        id: e.id,
        sender: error_text(e.sender.as_str()),
        subject: error_text(e.subject.as_str()),
        date: error_text(e.date.as_str()),
        body: error_text(e.body.as_str()),
    }
}

/// The same message, field by field.
pub open spec fn same_email(a: EmailFull, b: EmailFull) -> bool {
    a.id == b.id && a.sender@ == b.sender@ && a.subject@ == b.subject@ && a.date@ == b.date@
        && a.body@ == b.body@
}

/// Searches the decrypted messages (newest first) by sender, subject or body, ignoring case
/// (see [`search_result`]).
pub fn search_emails(rows: &Vec<EmailFull>, q: &str, limit: usize) -> (r: Vec<EmailFull>)
    ensures
        r.len() == search_result(rows@, q@, limit as nat).len(),
        forall|k: int| 0 <= k < r.len() ==> same_email(#[trigger] r@[k], search_result(rows@, q@, limit as nat)[k]),
{
    let needle = to_chars(str_to_lowercase(q).as_str());
    let ghost m = matching(rows@, needle@);
    let mut r: Vec<EmailFull> = Vec::new();
    let mut k: usize = 0;
    while k < rows.len() && r.len() < limit
        invariant
            k <= rows.len(),
            m == matching(rows@, needle@),
            r.len() == matching(rows@.take(k as int), needle@).len(),
            r.len() <= limit,
            forall|j: int| 0 <= j < r.len() ==> same_email(#[trigger] r@[j], matching(rows@.take(k as int), needle@)[j]),
        decreases rows.len() - k,
    {
        proof {
            assert(rows@.take(k + 1).drop_last() =~= rows@.take(k as int));
            assert(rows@.take(k + 1).last() == rows@[k as int]);
        }
        if email_matches_exec(&rows[k], &needle) {
            r.push(copy_email(&rows[k]));
        }
        k = k + 1;
    }
    proof {
        lemma_matching_prefix(rows@, k as int, needle@);
        if k == rows.len() {
            assert(rows@.take(k as int) =~= rows@);
        }
        let s = search_result(rows@, q@, limit as nat);
        assert forall|j: int| 0 <= j < r.len() implies same_email(#[trigger] r@[j], s[j]) by {
            assert(matching(rows@.take(k as int), needle@)[j] == m[j]);
        }
    }
    r
}

/// The matches among the first `n` messages are the first matches among all of them.
proof fn lemma_matching_prefix(rows: Seq<EmailFull>, n: int, needle: Seq<char>)
    requires
        0 <= n <= rows.len(),
    ensures
        matching(rows.take(n), needle).len() <= matching(rows, needle).len(),
        forall|j: int|
            0 <= j < matching(rows.take(n), needle).len() ==> #[trigger] matching(rows.take(n), needle)[j]
                == matching(rows, needle)[j],
    decreases rows.len() - n,
{
    if n == rows.len() {
        assert(rows.take(n) =~= rows);
    } else {
        lemma_matching_prefix(rows, n + 1, needle);
        assert(rows.take(n + 1).drop_last() =~= rows.take(n));
        let a = matching(rows.take(n), needle);
        let b = matching(rows.take(n + 1), needle);
        assert(b == a || b == a.push(rows.take(n + 1).last()));
        assert forall|j: int| 0 <= j < a.len() implies #[trigger] a[j] == matching(rows, needle)[j] by {
            assert(a[j] == b[j]);
        }
    }
}

/// The matching messages are the messages filtered by any predicate that agrees with
/// [`email_matches`].
proof fn lemma_matching_is_filter(rows: Seq<EmailFull>, needle: Seq<char>, p: spec_fn(EmailFull) -> bool)
    requires
        forall|e: EmailFull| #[trigger] p(e) == email_matches(e, needle),
    ensures
        matching(rows, needle) == rows.filter(p),
    decreases rows.len(),
{
    reveal(Seq::filter);
    if rows.len() > 0 {
        lemma_matching_is_filter(rows.drop_last(), needle, p);
    }
}

/// A search finds every message whose lowercase sender, subject or body contains the lowercase
/// query, as long as fewer than `limit` such messages come before it.
pub proof fn lemma_search_finds_every_match(rows: Seq<EmailFull>, q: Seq<char>, limit: nat, i: int)
    requires
        0 <= i < rows.len(),
        contains(lowercase(rows[i].sender@), lowercase(q)) || contains(lowercase(rows[i].subject@), lowercase(q))
            || contains(lowercase(rows[i].body@), lowercase(q)),
        rows.take(i).filter(
            |e: EmailFull|
                contains(lowercase(e.sender@), lowercase(q)) || contains(lowercase(e.subject@), lowercase(q))
                    || contains(lowercase(e.body@), lowercase(q)),
        ).len() < limit,
    ensures
        search_result(rows, q, limit).contains(rows[i]),
{
    let nd = lowercase(q);
    let p = |e: EmailFull|
        contains(lowercase(e.sender@), lowercase(q)) || contains(lowercase(e.subject@), lowercase(q))
            || contains(lowercase(e.body@), lowercase(q));
    lemma_matching_is_filter(rows.take(i), nd, p);
    let a = matching(rows.take(i), nd);
    assert(rows.take(i + 1).drop_last() =~= rows.take(i));
    assert(rows.take(i + 1).last() == rows[i]);
    let b = matching(rows.take(i + 1), nd);
    assert(b == a.push(rows[i]));
    lemma_matching_prefix(rows, i + 1, nd);
    let c = a.len() as int;
    assert(b[c] == rows[i]);
    let m = matching(rows, nd);
    assert(m[c] == rows[i]);
    let r = search_result(rows, q, limit);
    assert(r[c] == rows[i]);
}

/// A search returns only messages of `rows` whose lowercase sender, subject or body contains
/// the lowercase query, and never more than `limit` of them.
pub proof fn lemma_search_returns_only_matches(rows: Seq<EmailFull>, q: Seq<char>, limit: nat, k: int)
    requires
        0 <= k < search_result(rows, q, limit).len(),
    ensures
        search_result(rows, q, limit).len() <= limit,
        rows.contains(search_result(rows, q, limit)[k]),
        ({
            let e = search_result(rows, q, limit)[k];
            contains(lowercase(e.sender@), lowercase(q)) || contains(lowercase(e.subject@), lowercase(q))
                || contains(lowercase(e.body@), lowercase(q))
        }),
{
    let nd = lowercase(q);
    let p = |e: EmailFull| email_matches(e, nd);
    lemma_matching_is_filter(rows, nd, p);
    let m = matching(rows, nd);
    let e = search_result(rows, q, limit)[k];
    assert(m[k] == e);
    rows.lemma_filter_contains_rev(p, e);
    rows.lemma_filter_pred(p, k);
}

/// A search returns the messages whose lowercase sender, subject or body contains the lowercase
/// query, in the order of `rows`: the first `limit` of them, or all when there are fewer.
pub proof fn lemma_search_is_first_matches(rows: Seq<EmailFull>, q: Seq<char>, limit: nat)
    ensures
        ({
            let hits = rows.filter(
                |e: EmailFull|
                    contains(lowercase(e.sender@), lowercase(q)) || contains(lowercase(e.subject@), lowercase(q))
                        || contains(lowercase(e.body@), lowercase(q)),
            );
            let r = search_result(rows, q, limit);
            &&& r.len() == if hits.len() <= limit { hits.len() } else { limit }
            &&& forall|k: int| 0 <= k < r.len() ==> #[trigger] r[k] == hits[k]
        }),
{
    let p = |e: EmailFull|
        contains(lowercase(e.sender@), lowercase(q)) || contains(lowercase(e.subject@), lowercase(q))
            || contains(lowercase(e.body@), lowercase(q));
    lemma_matching_is_filter(rows, lowercase(q), p);
}

/// The configuration as the settings screen sees it: every row but a legacy `password` row,
/// and the marker `__has_password = 1` when a password is stored (the password itself never
/// leaves the store).
pub open spec fn ui_config(rows: Seq<(Seq<char>, Seq<char>)>, has_password: bool) -> Seq<(Seq<char>, Seq<char>)> {
    let kept = rows.filter(|r: (Seq<char>, Seq<char>)| r.0 != "password"@);
    if has_password {
        kept.push(("__has_password"@, "1"@))
    } else {
        kept
    }
}

/// The configuration for the settings screen (see [`ui_config`]).
pub fn config_for_ui(rows: &Vec<(String, String)>, has_password: bool) -> (r: Vec<(String, String)>)
    ensures
        r@.map_values(|p: (String, String)| (p.0@, p.1@)) == ui_config(
            rows@.map_values(|p: (String, String)| (p.0@, p.1@)),
            has_password,
        ),
{
    let ghost rv = rows@.map_values(|p: (String, String)| (p.0@, p.1@));
    let mut out: Vec<(String, String)> = Vec::new();
    let pw = to_chars("password");
    let mut k: usize = 0;
    while k < rows.len()
        invariant
            k <= rows.len(),
            pw@ == "password"@,
            rv == rows@.map_values(|p: (String, String)| (p.0@, p.1@)),
            out@.map_values(|p: (String, String)| (p.0@, p.1@)) == rv.take(k as int).filter(
                |r: (Seq<char>, Seq<char>)| r.0 != "password"@,
            ),
        decreases rows.len() - k,
    {
        proof {
            reveal(Seq::filter);
            assert(rv.take(k + 1).drop_last() =~= rv.take(k as int));
            assert(rv.take(k + 1).last() == (rows@[k as int].0@, rows@[k as int].1@));
        }
        let ghost before = out@.map_values(|p: (String, String)| (p.0@, p.1@));
        if !chars_eq(&to_chars(rows[k].0.as_str()), &pw) {
            out.push((error_text(rows[k].0.as_str()), error_text(rows[k].1.as_str())));
            assert(out@.map_values(|p: (String, String)| (p.0@, p.1@)) =~= before.push(
                (rows@[k as int].0@, rows@[k as int].1@),
            ));
        }
        k = k + 1;
    }
    assert(rv.take(rows.len() as int) =~= rv);
    if has_password {
        let ghost before = out@.map_values(|p: (String, String)| (p.0@, p.1@));
        out.push((error_text("__has_password"), error_text("1")));
        assert(out@.map_values(|p: (String, String)| (p.0@, p.1@)) =~= before.push(
            ("__has_password"@, "1"@),
        ));
    }
    out
}

} // verus!
