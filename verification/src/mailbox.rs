//! The local mailbox: fetched messages, one per server uid and folder, listed newest first; a
//! deleted message goes to the trash, where it can be restored or purged.
use vstd::prelude::*;
use crate::chars::{to_chars, from_chars, chars_eq};
use crate::records::{EmailFull, EmailSummary};

verus! {

/// One stored message.
pub struct MailRow {
    pub id: i64,
    pub uid: u32,
    pub folder: String,
    pub sender: String,
    pub subject: String,
    pub body: String,
    pub date: String,
    pub seen: bool,
    pub deleted: bool,
}

/// The mathematical form of a [`MailRow`].
pub struct Mail {
    pub id: i64,
    pub uid: u32,
    pub folder: Seq<char>,
    pub sender: Seq<char>,
    pub subject: Seq<char>,
    pub body: Seq<char>,
    pub date: Seq<char>,
    pub seen: bool,
    pub deleted: bool,
}

pub open spec fn mail_view(r: MailRow) -> Mail {
    Mail {
        id: r.id,
        uid: r.uid,
        folder: r.folder@,
        sender: r.sender@,
        subject: r.subject@,
        body: r.body@,
        date: r.date@,
        seen: r.seen,
        deleted: r.deleted,
    }
}

pub open spec fn mails_view(rs: Seq<MailRow>) -> Seq<Mail> {
    rs.map_values(|r: MailRow| mail_view(r))
}

/// The largest id (0 for an empty mailbox): a new message gets the next one.
pub open spec fn max_mail_id(rows: Seq<Mail>) -> int
    decreases rows.len(),
{
    if rows.len() == 0 {
        0
    } else {
        let m = max_mail_id(rows.drop_last());
        if rows.last().id > m {
            rows.last().id as int
        } else {
            m
        }
    }
}

/// A message with this uid is already stored in this folder.
pub open spec fn stored(rows: Seq<Mail>, uid: u32, folder: Seq<char>) -> bool {
    exists|j: int| 0 <= j < rows.len() && (#[trigger] rows[j]).uid == uid && rows[j].folder == folder
}

/// The message a fetch brings: its server uid and folder, headers and text.
pub struct Fetched {
    pub uid: u32,
    pub folder: Seq<char>,
    pub sender: Seq<char>,
    pub subject: Seq<char>,
    pub body: Seq<char>,
    pub date: Seq<char>,
}

/// Storing a fetched message: ignored when its uid is already stored in its folder, otherwise
/// added (unseen, not deleted) under the next id.
pub open spec fn store_one(rows: Seq<Mail>, f: Fetched) -> (Seq<Mail>, bool) {
    if stored(rows, f.uid, f.folder) {
        (rows, false)
    } else {
        (
            rows.push(
                Mail {
                    id: (max_mail_id(rows) + 1) as i64,
                    uid: f.uid,
                    folder: f.folder,
                    sender: f.sender,
                    subject: f.subject,
                    body: f.body,
                    date: f.date,
                    seen: false,
                    deleted: false,
                },
            ),
            true,
        )
    }
}

/// The mailbox with the trash flag of the messages of this id set to `flag`.
pub open spec fn flag_deleted(rows: Seq<Mail>, id: i64, flag: bool) -> Seq<Mail> {
    rows.map_values(|m: Mail| if m.id == id { Mail { deleted: flag, ..m } } else { m })
}

/// The mailbox with the messages of this id marked as read.
pub open spec fn mark_seen(rows: Seq<Mail>, id: i64) -> Seq<Mail> {
    rows.map_values(|m: Mail| if m.id == id { Mail { seen: true, ..m } } else { m })
}

/// The messages kept by a purge: `id` 0 empties the trash, another id deletes that message.
pub open spec fn purged(rows: Seq<Mail>, id: i64) -> Seq<Mail>
    decreases rows.len(),
{
    if rows.len() == 0 {
        seq![]
    } else {
        let rest = purged(rows.drop_last(), id);
        let m = rows.last();
        if (id == 0 && m.deleted) || (id != 0 && m.id == id) {
            rest
        } else {
            rest.push(m)
        }
    }
}

/// The messages of a folder not in the trash, newest first.
pub open spec fn folder_newest(rows: Seq<Mail>, folder: Seq<char>) -> Seq<Mail>
    decreases rows.len(),
{
    if rows.len() == 0 {
        seq![]
    } else {
        let rest = folder_newest(rows.drop_last(), folder);
        let m = rows.last();
        if m.folder == folder && !m.deleted {
            seq![m] + rest
        } else {
            rest
        }
    }
}

/// The messages in the trash, newest first.
pub open spec fn trash_newest(rows: Seq<Mail>) -> Seq<Mail>
    decreases rows.len(),
{
    if rows.len() == 0 {
        seq![]
    } else {
        let rest = trash_newest(rows.drop_last());
        let m = rows.last();
        if m.deleted {
            seq![m] + rest
        } else {
            rest
        }
    }
}

/// The messages not in the trash, newest first.
pub open spec fn kept_newest(rows: Seq<Mail>) -> Seq<Mail>
    decreases rows.len(),
{
    if rows.len() == 0 {
        seq![]
    } else {
        let rest = kept_newest(rows.drop_last());
        let m = rows.last();
        if !m.deleted {
            seq![m] + rest
        } else {
            rest
        }
    }
}

/// At most `n` of them.
pub open spec fn at_most(s: Seq<Mail>, n: int) -> Seq<Mail> {
    if s.len() <= n {
        s
    } else {
        s.take(n)
    }
}

/// A list entry shows a message's id, sender, subject, date and read flag.
pub open spec fn summary_is(e: EmailSummary, m: Mail) -> bool {
    e.id == m.id && e.sender@ == m.sender && e.subject@ == m.subject && e.date@ == m.date && e.seen == m.seen
}

/// A whole message shows its id, sender, subject, date and text.
pub open spec fn full_is(e: EmailFull, m: Mail) -> bool {
    e.id == m.id && e.sender@ == m.sender && e.subject@ == m.subject && e.date@ == m.date && e.body@ == m.body
}

/// The first message, from position `i` on, with this id.
pub open spec fn mail_at(rows: Seq<Mail>, id: i64, i: int) -> Option<int>
    decreases rows.len() - i,
{
    if i < 0 || i >= rows.len() {
        None
    } else if rows[i].id == id {
        Some(i)
    } else {
        mail_at(rows, id, i + 1)
    }
}

/// How many messages a folder list or the trash shows at most.
pub const LIST_LIMIT: usize = 300;

/// How many of the latest messages a search looks through.
pub const SEARCH_WINDOW: usize = 600;

fn copy_str(s: &str) -> (r: String)
    ensures
        r@ == s@,
{
    from_chars(to_chars(s).as_slice())
}

fn summary_of(r: &MailRow) -> (e: EmailSummary)
    ensures
        summary_is(e, mail_view(*r)),
{
    EmailSummary {
        id: r.id,
        sender: copy_str(r.sender.as_str()),
        subject: copy_str(r.subject.as_str()),
        date: copy_str(r.date.as_str()),
        seen: r.seen,
    }
}

fn full_of(r: &MailRow) -> (e: EmailFull)
    ensures
        full_is(e, mail_view(*r)),
{
    EmailFull {
        id: r.id,
        sender: copy_str(r.sender.as_str()),
        subject: copy_str(r.subject.as_str()),
        date: copy_str(r.date.as_str()),
        body: copy_str(r.body.as_str()),
    }
}

/// Which messages a listing shows.
#[derive(Clone, Copy)]
pub enum Shown {
    /// Those of a folder, not in the trash.
    Folder,
    /// Those in the trash.
    Trash,
    /// All not in the trash.
    Kept,
}

/// The messages a listing shows, newest first.
pub open spec fn shown(rows: Seq<Mail>, which: Shown, folder: Seq<char>) -> Seq<Mail> {
    match which {
        Shown::Folder => folder_newest(rows, folder),
        Shown::Trash => trash_newest(rows),
        Shown::Kept => kept_newest(rows),
    }
}

/// The local mailbox.
pub struct Mailbox {
    rows: Vec<MailRow>,
}

impl View for Mailbox {
    type V = Seq<Mail>;

    closed spec fn view(&self) -> Seq<Mail> {
        mails_view(self.rows@)
    }
}

impl Mailbox {
    /// A mailbox holding these rows (as stored, in id order).
    pub fn from_rows(rows: Vec<MailRow>) -> (b: Self)
        ensures
            b@ == mails_view(rows@),
    {
        Mailbox { rows }
    }

    /// The rows, to store them.
    pub fn rows(&self) -> (r: &Vec<MailRow>)
        ensures
            mails_view(r@) == self@,
    {
        &self.rows
    }

    /// The largest id (0 when empty): the caller checks there is room before storing.
    pub fn max_id(&self) -> (r: i64)
        ensures
            r as int == max_mail_id(self@),
    {
        let mut m: i64 = 0;
        let mut i: usize = 0;
        while i < self.rows.len()
            invariant
                i <= self.rows.len(),
                m as int == max_mail_id(self@.take(i as int)),
            decreases self.rows.len() - i,
        {
            proof {
                assert(self@.take(i + 1).drop_last() =~= self@.take(i as int));
                assert(self@.take(i + 1).last() == mail_view(self.rows@[i as int]));
            }
            if self.rows[i].id > m {
                m = self.rows[i].id;
            }
            i = i + 1;
        }
        assert(self@.take(self.rows.len() as int) =~= self@);
        m
    }

    /// Stores a fetched message (see [`store_one`]); `true` when it was new.
    pub fn store_email(
        &mut self,
        uid: u32,
        folder: &str,
        sender: &str,
        subject: &str,
        body: &str,
        date: &str,
    ) -> (r: bool)
        requires
            max_mail_id(old(self)@) < i64::MAX,
        ensures
            (final(self)@, r) == store_one(
                old(self)@,
                Fetched { uid, folder: folder@, sender: sender@, subject: subject@, body: body@, date: date@ },
            ),
    {
        let f = to_chars(folder);
        let mut i: usize = 0;
        while i < self.rows.len()
            invariant
                i <= self.rows.len(),
                f@ == folder@,
                forall|j: int| 0 <= j < i ==> !((#[trigger] self@[j]).uid == uid && self@[j].folder == folder@),
            decreases self.rows.len() - i,
        {
            assert(self@[i as int] == mail_view(self.rows@[i as int]));
            if self.rows[i].uid == uid && chars_eq(&to_chars(self.rows[i].folder.as_str()), &f) {
                return false;
            }
            i = i + 1;
        }
        let id = self.max_id() + 1;
        let row = MailRow {
            id,
            uid,
            folder: copy_str(folder),
            sender: copy_str(sender),
            subject: copy_str(subject),
            body: copy_str(body),
            date: copy_str(date),
            seen: false,
            deleted: false,
        };
        let ghost before = self.rows@;
        self.rows.push(row);
        assert(mails_view(self.rows@) =~= mails_view(before).push(mail_view(row)));
        true
    }

    /// The messages a listing shows (see [`shown`]), newest first, at most `limit`.
    fn listing(&self, which: Shown, folder: &str, limit: usize) -> (r: Vec<usize>)
        ensures
            r.len() == at_most(shown(self@, which, folder@), limit as int).len(),
            forall|k: int|
                0 <= k < r.len() ==> r@[k] < self@.len() && self@[#[trigger] r@[k] as int] == at_most(
                    shown(self@, which, folder@),
                    limit as int,
                )[k],
    {
        let f = to_chars(folder);
        let ghost all = shown(self@, which, folder@);
        let mut r: Vec<usize> = Vec::new();
        let mut i: usize = self.rows.len();
        proof {
            assert(self@.take(self.rows.len() as int) =~= self@);
        }
        while i > 0 && r.len() < limit
            invariant
                i <= self.rows.len(),
                f@ == folder@,
                r.len() <= limit,
                all == shown(self@, which, folder@),
                shown(self@, which, folder@) == r@.map_values(|p: usize| self@[p as int]) + shown(
                    self@.take(i as int),
                    which,
                    folder@,
                ),
                forall|k: int| 0 <= k < r.len() ==> #[trigger] r@[k] < self@.len(),
            decreases i,
        {
            let ghost pre = self@.take(i as int);
            proof {
                assert(pre.drop_last() =~= self@.take(i - 1));
                assert(pre.last() == mail_view(self.rows@[i - 1]));
            }
            let row = &self.rows[i - 1];
            let pick = match which {
                Shown::Folder => !row.deleted && chars_eq(&to_chars(row.folder.as_str()), &f),
                Shown::Trash => row.deleted,
                Shown::Kept => !row.deleted,
            };
            let ghost before = r@.map_values(|p: usize| self@[p as int]);
            if pick {
                r.push(i - 1);
                proof {
                    assert(r@.map_values(|p: usize| self@[p as int]) =~= before.push(self@[i - 1]));
                    assert(before.push(self@[i - 1]) + shown(self@.take(i - 1), which, folder@) =~= before
                        + shown(pre, which, folder@));
                }
            }
            i = i - 1;
        }
        proof {
            let got = r@.map_values(|p: usize| self@[p as int]);
            if i == 0 {
                assert(self@.take(0) =~= Seq::<Mail>::empty());
                assert(got + shown(self@.take(0), which, folder@) =~= got);
            }
            if all.len() > limit {
                assert(got.len() == limit);
                assert forall|k: int| 0 <= k < r.len() implies self@[#[trigger] r@[k] as int] == at_most(
                    all,
                    limit as int,
                )[k] by {
                    assert(got[k] == all[k]);
                }
            } else {
                if i > 0 {
                    assert(got.len() == limit);
                }
                assert forall|k: int| 0 <= k < r.len() implies self@[#[trigger] r@[k] as int] == at_most(
                    all,
                    limit as int,
                )[k] by {
                    assert(got[k] == all[k]);
                }
            }
        }
        r
    }

    /// The messages of a folder, not in the trash, newest first (at most 300).
    pub fn list_in(&self, folder: &str) -> (r: Vec<EmailSummary>)
        ensures
            r.len() == at_most(folder_newest(self@, folder@), LIST_LIMIT as int).len(),
            forall|k: int|
                0 <= k < r.len() ==> summary_is(#[trigger] r@[k], at_most(folder_newest(self@, folder@), LIST_LIMIT as int)[k]),
    {
        let picks = self.listing(Shown::Folder, folder, LIST_LIMIT);
        self.summaries(&picks)
    }

    /// The messages in the trash, newest first (at most 300).
    pub fn list_trash(&self) -> (r: Vec<EmailSummary>)
        ensures
            r.len() == at_most(trash_newest(self@), LIST_LIMIT as int).len(),
            forall|k: int| 0 <= k < r.len() ==> summary_is(#[trigger] r@[k], at_most(trash_newest(self@), LIST_LIMIT as int)[k]),
    {
        let picks = self.listing(Shown::Trash, "", LIST_LIMIT);
        self.summaries(&picks)
    }

    fn summaries(&self, picks: &Vec<usize>) -> (r: Vec<EmailSummary>)
        requires
            forall|k: int| 0 <= k < picks.len() ==> #[trigger] picks@[k] < self@.len(),
        ensures
            r.len() == picks.len(),
            forall|k: int| 0 <= k < r.len() ==> summary_is(#[trigger] r@[k], self@[picks@[k] as int]),
    {
        let mut r: Vec<EmailSummary> = Vec::new();
        let mut k: usize = 0;
        while k < picks.len()
            invariant
                k <= picks.len(),
                r.len() == k,
                forall|j: int| 0 <= j < picks.len() ==> #[trigger] picks@[j] < self@.len(),
                forall|j: int| 0 <= j < k ==> summary_is(#[trigger] r@[j], self@[picks@[j] as int]),
            decreases picks.len() - k,
        {
            let p = picks[k];
            assert(self@[p as int] == mail_view(self.rows@[p as int]));
            r.push(summary_of(&self.rows[p]));
            k = k + 1;
        }
        r
    }

    fn fulls(&self, picks: &Vec<usize>) -> (r: Vec<EmailFull>)
        requires
            forall|k: int| 0 <= k < picks.len() ==> #[trigger] picks@[k] < self@.len(),
        ensures
            r.len() == picks.len(),
            forall|k: int| 0 <= k < r.len() ==> full_is(#[trigger] r@[k], self@[picks@[k] as int]),
    {
        let mut r: Vec<EmailFull> = Vec::new();
        let mut k: usize = 0;
        while k < picks.len()
            invariant
                k <= picks.len(),
                r.len() == k,
                forall|j: int| 0 <= j < picks.len() ==> #[trigger] picks@[j] < self@.len(),
                forall|j: int| 0 <= j < k ==> full_is(#[trigger] r@[j], self@[picks@[j] as int]),
            decreases picks.len() - k,
        {
            let p = picks[k];
            assert(self@[p as int] == mail_view(self.rows@[p as int]));
            r.push(full_of(&self.rows[p]));
            k = k + 1;
        }
        r
    }

    /// The latest `limit` messages of a folder, not in the trash, with their text.
    pub fn recent_in(&self, folder: &str, limit: usize) -> (r: Vec<EmailFull>)
        ensures
            r.len() == at_most(folder_newest(self@, folder@), limit as int).len(),
            forall|k: int| 0 <= k < r.len() ==> full_is(#[trigger] r@[k], at_most(folder_newest(self@, folder@), limit as int)[k]),
    {
        let picks = self.listing(Shown::Folder, folder, limit);
        self.fulls(&picks)
    }

    /// The latest 600 messages not in the trash, with their text: what a search looks through.
    pub fn searchable(&self) -> (r: Vec<EmailFull>)
        ensures
            r.len() == at_most(kept_newest(self@), SEARCH_WINDOW as int).len(),
            forall|k: int| 0 <= k < r.len() ==> full_is(#[trigger] r@[k], at_most(kept_newest(self@), SEARCH_WINDOW as int)[k]),
    {
        let picks = self.listing(Shown::Kept, "", SEARCH_WINDOW);
        self.fulls(&picks)
    }

    /// Opens a message: it is marked as read, and returned whole (`None` when there is none with
    /// this id).
    pub fn get(&mut self, id: i64) -> (r: Option<EmailFull>)
        ensures
            final(self)@ == mark_seen(old(self)@, id),
            r is None <==> mail_at(old(self)@, id, 0) is None,
            r matches Some(e) ==> full_is(e, final(self)@[mail_at(old(self)@, id, 0)->Some_0]),
    {
        self.set_flag(id, true, true);
        let mut i: usize = 0;
        while i < self.rows.len()
            invariant
                i <= self.rows.len(),
                self@ == mark_seen(old(self)@, id),
                self@.len() == old(self)@.len(),
                mail_at(old(self)@, id, 0) == mail_at(old(self)@, id, i as int),
            decreases self.rows.len() - i,
        {
            assert(self@[i as int] == mail_view(self.rows@[i as int]));
            assert(self@[i as int].id == old(self)@[i as int].id);
            if self.rows[i].id == id {
                return Some(full_of(&self.rows[i]));
            }
            i = i + 1;
        }
        None
    }

    /// Sets the read flag (`seen`) or the trash flag of the messages of this id.
    fn set_flag(&mut self, id: i64, seen: bool, value: bool)
        ensures
            seen && value ==> final(self)@ == mark_seen(old(self)@, id),
            !seen ==> final(self)@ == flag_deleted(old(self)@, id, value),
    {
        let ghost start = self@;
        let mut i: usize = 0;
        while i < self.rows.len()
            invariant
                i <= self.rows.len(),
                self@.len() == start.len(),
                forall|j: int| 0 <= j < i ==> #[trigger] self@[j] == (if start[j].id == id {
                    if seen { Mail { seen: value, ..start[j] } } else { Mail { deleted: value, ..start[j] } }
                } else {
                    start[j]
                }),
                forall|j: int| i <= j < self@.len() ==> #[trigger] self@[j] == start[j],
            decreases self.rows.len() - i,
        {
            assert(self@[i as int] == mail_view(self.rows@[i as int]));
            if self.rows[i].id == id {
                let r = &self.rows[i];
                let row = MailRow {
                    id: r.id,
                    uid: r.uid,
                    folder: copy_str(r.folder.as_str()),
                    sender: copy_str(r.sender.as_str()),
                    subject: copy_str(r.subject.as_str()),
                    body: copy_str(r.body.as_str()),
                    date: copy_str(r.date.as_str()),
                    seen: if seen { value } else { r.seen },
                    deleted: if seen { r.deleted } else { value },
                };
                let ghost before = self@;
                self.rows.set(i, row);
                proof {
                    assert(self@ =~= before.update(i as int, mail_view(row)));
                }
            }
            i = i + 1;
        }
        proof {
            if seen && value {
                assert(self@ =~= mark_seen(start, id));
            }
            if !seen {
                assert(self@ =~= flag_deleted(start, id, value));
            }
        }
    }

    /// Moves the message to the trash (recoverable until purged).
    pub fn delete(&mut self, id: i64)
        ensures
            final(self)@ == flag_deleted(old(self)@, id, true),
    {
        self.set_flag(id, false, true);
    }

    /// Takes the message out of the trash.
    pub fn restore(&mut self, id: i64)
        ensures
            final(self)@ == flag_deleted(old(self)@, id, false),
    {
        self.set_flag(id, false, false);
    }

    /// Deletes a message for good, or (`id` 0) empties the trash (see [`purged`]).
    pub fn purge(&mut self, id: i64)
        ensures
            final(self)@ == purged(old(self)@, id),
    {
        let ghost start = self@;
        let mut kept: Vec<MailRow> = Vec::new();
        let mut i: usize = 0;
        while i < self.rows.len()
            invariant
                i <= self.rows.len(),
                self@ == start,
                mails_view(kept@) == purged(start.take(i as int), id),
            decreases self.rows.len() - i,
        {
            proof {
                assert(start.take(i + 1).drop_last() =~= start.take(i as int));
                assert(start.take(i + 1).last() == mail_view(self.rows@[i as int]));
            }
            let r = &self.rows[i];
            let drop = (id == 0 && r.deleted) || (id != 0 && r.id == id);
            if !drop {
                let row = MailRow {
                    id: r.id,
                    uid: r.uid,
                    folder: copy_str(r.folder.as_str()),
                    sender: copy_str(r.sender.as_str()),
                    subject: copy_str(r.subject.as_str()),
                    body: copy_str(r.body.as_str()),
                    date: copy_str(r.date.as_str()),
                    seen: r.seen,
                    deleted: r.deleted,
                };
                let ghost before = kept@;
                kept.push(row);
                assert(mails_view(kept@) =~= mails_view(before).push(mail_view(row)));
            }
            i = i + 1;
        }
        assert(start.take(self.rows.len() as int) =~= start);
        self.rows = kept;
    }
}

// ---------------------------------------------------------------- laws

/// Restoring undoes deleting: a message taken out of the trash is back as it was before it was
/// deleted.
pub proof fn lemma_restore_undoes_delete(rows: Seq<Mail>, id: i64)
    requires
        forall|j: int| 0 <= j < rows.len() && (#[trigger] rows[j]).id == id ==> !rows[j].deleted,
    ensures
        flag_deleted(flag_deleted(rows, id, true), id, false) == rows,
{
    let n = flag_deleted(flag_deleted(rows, id, true), id, false);
    assert forall|j: int| 0 <= j < rows.len() implies #[trigger] n[j] == rows[j] by {
        if rows[j].id == id {
            assert(!rows[j].deleted);
        }
    }
    assert(n =~= rows);
}

/// Fetching the same message twice stores it once: the second store changes nothing and
/// reports it as not new.
pub proof fn lemma_store_is_idempotent(rows: Seq<Mail>, f: Fetched)
    ensures
        store_one(store_one(rows, f).0, f) == (store_one(rows, f).0, false),
{
    let n = store_one(rows, f).0;
    if !stored(rows, f.uid, f.folder) {
        assert(n[rows.len() as int].uid == f.uid && n[rows.len() as int].folder == f.folder);
        assert(stored(n, f.uid, f.folder));
    }
}

proof fn lemma_folder_newest_members(rows: Seq<Mail>, folder: Seq<char>)
    ensures
        forall|k: int|
            0 <= k < folder_newest(rows, folder).len() ==> rows.contains(#[trigger] folder_newest(rows, folder)[k])
                && folder_newest(rows, folder)[k].folder == folder && !folder_newest(rows, folder)[k].deleted,
    decreases rows.len(),
{
    if rows.len() > 0 {
        let d = rows.drop_last();
        lemma_folder_newest_members(d, folder);
        let rest = folder_newest(d, folder);
        let all = folder_newest(rows, folder);
        assert forall|k: int| 0 <= k < all.len() implies rows.contains(#[trigger] all[k]) && all[k].folder == folder
            && !all[k].deleted by {
            let m = rows.last();
            if m.folder == folder && !m.deleted {
                if k == 0 {
                    assert(all[0] == m);
                    assert(rows[rows.len() - 1] == m);
                } else {
                    assert(all[k] == rest[k - 1]);
                    assert(d.contains(rest[k - 1]));
                    let j = choose|j: int| 0 <= j < d.len() && d[j] == rest[k - 1];
                    assert(rows[j] == d[j]);
                }
            } else {
                assert(all[k] == rest[k]);
                assert(d.contains(rest[k]));
                let j = choose|j: int| 0 <= j < d.len() && d[j] == rest[k];
                assert(rows[j] == d[j]);
            }
        }
    }
}

proof fn lemma_trash_newest_holds_deleted(rows: Seq<Mail>)
    ensures
        forall|j: int| 0 <= j < rows.len() && (#[trigger] rows[j]).deleted ==> trash_newest(rows).contains(rows[j]),
    decreases rows.len(),
{
    if rows.len() > 0 {
        let d = rows.drop_last();
        lemma_trash_newest_holds_deleted(d);
        let rest = trash_newest(d);
        let all = trash_newest(rows);
        assert forall|j: int| 0 <= j < rows.len() && (#[trigger] rows[j]).deleted implies all.contains(rows[j]) by {
            if j == rows.len() - 1 {
                assert(all[0] == rows[j]);
            } else {
                assert(rows[j] == d[j]);
                assert(rest.contains(d[j]));
                let k = choose|k: int| 0 <= k < rest.len() && rest[k] == d[j];
                if rows.last().deleted {
                    assert(all[k + 1] == rest[k]);
                } else {
                    assert(all[k] == rest[k]);
                }
            }
        }
    }
}

/// A deleted message leaves its folder and is in the trash: no listing of a folder shows it,
/// and the trash does.
pub proof fn lemma_delete_moves_to_trash(rows: Seq<Mail>, id: i64, folder: Seq<char>)
    ensures
        forall|k: int|
            0 <= k < folder_newest(flag_deleted(rows, id, true), folder).len() ==> (#[trigger] folder_newest(
                flag_deleted(rows, id, true),
                folder,
            )[k]).id != id,
        forall|j: int|
            0 <= j < rows.len() && (#[trigger] rows[j]).id == id ==> trash_newest(flag_deleted(rows, id, true)).contains(
                Mail { deleted: true, ..rows[j] },
            ),
{
    let n = flag_deleted(rows, id, true);
    lemma_folder_newest_members(n, folder);
    lemma_trash_newest_holds_deleted(n);
    assert forall|k: int| 0 <= k < folder_newest(n, folder).len() implies (#[trigger] folder_newest(n, folder)[k]).id
        != id by {
        let m = folder_newest(n, folder)[k];
        assert(n.contains(m));
        let j = choose|j: int| 0 <= j < n.len() && n[j] == m;
        if m.id == id {
            assert(n[j].deleted);
        }
    }
    assert forall|j: int| 0 <= j < rows.len() && (#[trigger] rows[j]).id == id implies trash_newest(n).contains(
        Mail { deleted: true, ..rows[j] },
    ) by {
        assert(n[j] == Mail { deleted: true, ..rows[j] });
        assert(n[j].deleted);
    }
}

/// Emptying the trash removes exactly what is in it: afterwards the trash is empty, and every
/// other message is still listed as before.
pub proof fn lemma_empty_trash(rows: Seq<Mail>)
    ensures
        trash_newest(purged(rows, 0)).len() == 0,
        kept_newest(purged(rows, 0)) == kept_newest(rows),
    decreases rows.len(),
{
    if rows.len() > 0 {
        let d = rows.drop_last();
        lemma_empty_trash(d);
        let p = purged(d, 0);
        if !rows.last().deleted {
            assert(p.push(rows.last()).drop_last() =~= p);
        }
    }
}

} // verus!
