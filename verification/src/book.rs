//! The assistant's own address book: contacts imported from the system's address book, with at
//! most one contact per number.  Each contact remembers the number key it was imported under
//! (its identity for the next sync); once the user edits it here, a sync no longer touches it.
use vstd::prelude::*;
use crate::chars::{to_chars, from_chars, chars_eq};
use crate::contacts::{
    import_action, number_key, number_key_of, update_key, Contact, ImportAction, NUMBER_TAKEN, CONTACT_NOT_FOUND,
};

verus! {

/// One stored contact: its id, name and number, the number's key, the key it was imported
/// under, and whether the user edited it here.
pub struct ContactRow {
    pub id: i64,
    pub name: String,
    pub number: String,
    pub key: String,
    pub origin: String,
    pub customized: bool,
}

/// The mathematical form of a [`ContactRow`].
pub struct Row {
    pub id: i64,
    pub name: Seq<char>,
    pub number: Seq<char>,
    pub key: Seq<char>,
    pub origin: Seq<char>,
    pub customized: bool,
}

pub open spec fn row_view(r: ContactRow) -> Row {
    Row { id: r.id, name: r.name@, number: r.number@, key: r.key@, origin: r.origin@, customized: r.customized }
}

pub open spec fn rows_view(rs: Seq<ContactRow>) -> Seq<Row> {
    rs.map_values(|r: ContactRow| row_view(r))
}

/// The first contact, from position `i` on, imported under `key`.
pub open spec fn origin_at(rows: Seq<Row>, key: Seq<char>, i: int) -> Option<int>
    decreases rows.len() - i,
{
    if i < 0 || i >= rows.len() {
        None
    } else if rows[i].origin == key {
        Some(i)
    } else {
        origin_at(rows, key, i + 1)
    }
}

/// Some contact has this number key.
pub open spec fn has_key(rows: Seq<Row>, key: Seq<char>) -> bool {
    exists|j: int| 0 <= j < rows.len() && (#[trigger] rows[j]).key == key
}

/// The largest id (0 for an empty book): a new contact gets the next one.
pub open spec fn max_id(rows: Seq<Row>) -> int
    decreases rows.len(),
{
    if rows.len() == 0 {
        0
    } else {
        let m = max_id(rows.drop_last());
        if rows.last().id > m {
            rows.last().id as int
        } else {
            m
        }
    }
}

/// Importing one system contact: a number without digits is skipped; a contact already imported
/// under its key is left alone when customised, else renamed; otherwise it is added (and
/// counted as new) unless another contact already has that number.
pub open spec fn import_one(rows: Seq<Row>, name: Seq<char>, number: Seq<char>) -> (Seq<Row>, nat) {
    let key = number_key_of(number);
    if key.len() == 0 {
        (rows, 0)
    } else {
        match origin_at(rows, key, 0) {
            Some(i) => if rows[i].customized {
                (rows, 0)
            } else {
                (rows.update(i, Row { name, ..rows[i] }), 0)
            },
            None => if has_key(rows, key) {
                (rows, 0)
            } else {
                (
                    rows.push(
                        Row {
                            id: (max_id(rows) + 1) as i64,
                            name,
                            number,
                            key,
                            origin: key,
                            customized: false,
                        },
                    ),
                    1,
                )
            },
        }
    }
}

/// Importing a list of system contacts in order: the book after, and how many were new.
pub open spec fn import_all(rows: Seq<Row>, items: Seq<(Seq<char>, Seq<char>)>) -> (Seq<Row>, nat)
    decreases items.len(),
{
    if items.len() == 0 {
        (rows, 0)
    } else {
        let before = import_all(rows, items.drop_last());
        let step = import_one(before.0, items.last().0, items.last().1);
        (step.0, before.1 + step.1)
    }
}

/// The first contact, from position `i` on, with this id.
pub open spec fn id_at(rows: Seq<Row>, id: i64, i: int) -> Option<int>
    decreases rows.len() - i,
{
    if i < 0 || i >= rows.len() {
        None
    } else if rows[i].id == id {
        Some(i)
    } else {
        id_at(rows, id, i + 1)
    }
}

/// Some contact other than `id` has this number key.
pub open spec fn clash(rows: Seq<Row>, key: Seq<char>, id: i64) -> bool {
    exists|j: int| 0 <= j < rows.len() && (#[trigger] rows[j]).key == key && rows[j].id != id
}

/// Editing a contact here: refused when the number has no digits or is another contact's, or
/// when the contact does not exist; otherwise its name and number change and it becomes
/// customised (its import key stays).
pub open spec fn update_rows(rows: Seq<Row>, id: i64, name: Seq<char>, number: Seq<char>) -> Result<Seq<Row>, Seq<char>> {
    let key = number_key_of(number);
    if key.len() == 0 {
        Err("il numero non contiene cifre"@)
    } else if clash(rows, key, id) {
        Err(NUMBER_TAKEN@)
    } else {
        match id_at(rows, id, 0) {
            None => Err(CONTACT_NOT_FOUND@),
            Some(i) => Ok(rows.update(i, Row { name, number, key, customized: true, ..rows[i] })),
        }
    }
}

/// The book without the contacts of this id.
pub open spec fn without_id(rows: Seq<Row>, id: i64) -> Seq<Row>
    decreases rows.len(),
{
    if rows.len() == 0 {
        seq![]
    } else if rows.last().id == id {
        without_id(rows.drop_last(), id)
    } else {
        without_id(rows.drop_last(), id).push(rows.last())
    }
}

/// No two contacts share a number key.
pub open spec fn keys_unique(rows: Seq<Row>) -> bool {
    forall|i: int, j: int| 0 <= i < rows.len() && 0 <= j < rows.len() && i != j ==> #[trigger] rows[i].key != #[trigger] rows[j].key
}

fn copy_str(s: &str) -> (r: String)
    ensures
        r@ == s@,
{
    from_chars(to_chars(s).as_slice())
}

/// The assistant's address book.
pub struct AddressBook {
    rows: Vec<ContactRow>,
}

impl View for AddressBook {
    type V = Seq<Row>;

    closed spec fn view(&self) -> Seq<Row> {
        rows_view(self.rows@)
    }
}

impl AddressBook {
    /// A book holding these rows (as stored).
    pub fn from_rows(rows: Vec<ContactRow>) -> (b: Self)
        ensures
            b@ == rows_view(rows@),
    {
        AddressBook { rows }
    }

    /// The rows, to store them.
    pub fn rows(&self) -> (r: &Vec<ContactRow>)
        ensures
            rows_view(r@) == self@,
    {
        &self.rows
    }

    /// How many contacts there are.
    pub fn count(&self) -> (r: usize)
        ensures
            r == self@.len(),
    {
        self.rows.len()
    }

    fn row_at(&self, i: usize) -> (r: ContactRow)
        requires
            i < self@.len(),
        ensures
            row_view(r) == self@[i as int],
    {
        let r = &self.rows[i];
        ContactRow {
            id: r.id,
            name: copy_str(r.name.as_str()),
            number: copy_str(r.number.as_str()),
            key: copy_str(r.key.as_str()),
            origin: copy_str(r.origin.as_str()),
            customized: r.customized,
        }
    }

    fn find_origin(&self, key: &Vec<char>) -> (r: Option<usize>)
        ensures
            r matches Some(i) ==> origin_at(self@, key@, 0) == Some(i as int) && (i as int) < self@.len(),
            r is None ==> origin_at(self@, key@, 0) is None,
    {
        let mut i: usize = 0;
        while i < self.rows.len()
            invariant
                i <= self.rows.len(),
                origin_at(self@, key@, 0) == origin_at(self@, key@, i as int),
            decreases self.rows.len() - i,
        {
            assert(self@[i as int] == row_view(self.rows@[i as int]));
            if chars_eq(&to_chars(self.rows[i].origin.as_str()), key) {
                return Some(i);
            }
            i = i + 1;
        }
        None
    }

    fn find_key(&self, key: &Vec<char>, except: Option<i64>) -> (r: bool)
        ensures
            except is None ==> r == has_key(self@, key@),
            except matches Some(id) ==> r == clash(self@, key@, id),
    {
        let mut i: usize = 0;
        while i < self.rows.len()
            invariant
                i <= self.rows.len(),
                forall|j: int|
                    0 <= j < i ==> !((#[trigger] self@[j]).key == key@ && match except {
                        Some(id) => self@[j].id != id,
                        None => true,
                    }),
            decreases self.rows.len() - i,
        {
            assert(self@[i as int] == row_view(self.rows@[i as int]));
            let other = match except {
                Some(id) => self.rows[i].id != id,
                None => true,
            };
            if other && chars_eq(&to_chars(self.rows[i].key.as_str()), key) {
                return true;
            }
            i = i + 1;
        }
        false
    }

    fn max_id_exec(&self) -> (r: i64)
        ensures
            r as int == max_id(self@),
    {
        let mut m: i64 = 0;
        let mut i: usize = 0;
        while i < self.rows.len()
            invariant
                i <= self.rows.len(),
                m as int == max_id(self@.take(i as int)),
            decreases self.rows.len() - i,
        {
            proof {
                assert(self@.take(i + 1).drop_last() =~= self@.take(i as int));
                assert(self@.take(i + 1).last() == row_view(self.rows@[i as int]));
            }
            if self.rows[i].id > m {
                m = self.rows[i].id;
            }
            i = i + 1;
        }
        assert(self@.take(self.rows.len() as int) =~= self@);
        m
    }

    /// The largest id in the book (0 when empty): the caller checks there is room before an
    /// import (see [`AddressBook::import`]).
    pub fn max_id(&self) -> (r: i64)
        ensures
            r as int == max_id(self@),
    {
        self.max_id_exec()
    }

    fn import_item(&mut self, name: &str, number: &str) -> (n: usize)
        requires
            max_id(old(self)@) < i64::MAX,
        ensures
            final(self)@ == import_one(old(self)@, name@, number@).0,
            n as nat == import_one(old(self)@, name@, number@).1,
    {
        let key = number_key(number);
        let kc = to_chars(key.as_str());
        let found = if kc.len() == 0 {
            None
        } else {
            self.find_origin(&kc)
        };
        let existing = match found {
            Some(i) => Some((self.rows[i].id, self.rows[i].customized)),
            None => None,
        };
        proof {
            if let Some(i) = found {
                assert(self@[i as int] == row_view(self.rows@[i as int]));
            }
        }
        match import_action(number, existing) {
            ImportAction::NoDigits | ImportAction::KeepCustomized => 0,
            ImportAction::Rename { id: _ } => {
                if let Some(i) = found {
                    let old_row = self.row_at(i);
                    let row = ContactRow { name: copy_str(name), ..old_row };
                    let ghost before = self.rows@;
                    self.rows.set(i, row);
                    proof {
                        assert(rows_view(self.rows@) =~= rows_view(before).update(
                            i as int,
                            Row { name: name@, ..rows_view(before)[i as int] },
                        ));
                    }
                }
                0
            },
            ImportAction::Insert { key: k } => {
                if self.find_key(&kc, None) {
                    0
                } else {
                    let id = self.max_id_exec() + 1;
                    let row = ContactRow {
                        id,
                        name: copy_str(name),
                        number: copy_str(number),
                        key: copy_str(k.as_str()),
                        origin: k,
                        customized: false,
                    };
                    let ghost before = self.rows@;
                    self.rows.push(row);
                    proof {
                        assert(rows_view(self.rows@) =~= rows_view(before).push(row_view(row)));
                    }
                    1
                }
            },
        }
    }

    /// Imports contacts of the system address book in order (see [`import_all`]); returns how
    /// many were new.  The ids handed out to the new contacts must stay below `i64::MAX`.
    pub fn import(&mut self, items: &Vec<(String, String)>) -> (n: usize)
        requires
            max_id(old(self)@) + import_all(old(self)@, items@.map_values(|p: (String, String)| (p.0@, p.1@))).1
                < i64::MAX,
        ensures
            final(self)@ == import_all(old(self)@, items@.map_values(|p: (String, String)| (p.0@, p.1@))).0,
            n as nat == import_all(old(self)@, items@.map_values(|p: (String, String)| (p.0@, p.1@))).1,
    {
        let ghost iv = items@.map_values(|p: (String, String)| (p.0@, p.1@));
        let ghost start = self@;
        let mut n: usize = 0;
        let mut k: usize = 0;
        while k < items.len()
            invariant
                k <= items.len(),
                iv == items@.map_values(|p: (String, String)| (p.0@, p.1@)),
                max_id(start) + import_all(start, iv).1 < i64::MAX,
                max_id(self@) <= max_id(start) + n,
                import_all(start, iv.take(k as int)).1 <= import_all(start, iv).1,
                self@ == import_all(start, iv.take(k as int)).0,
                n as nat == import_all(start, iv.take(k as int)).1,
                n <= k,
            decreases items.len() - k,
        {
            proof {
                assert(iv.take(k + 1).drop_last() =~= iv.take(k as int));
                assert(iv.take(k + 1).last() == (items@[k as int].0@, items@[k as int].1@));
                lemma_import_one_max(self@, items@[k as int].0@, items@[k as int].1@);
                lemma_import_count_prefix(start, iv, k + 1);
            }
            let added = self.import_item(items[k].0.as_str(), items[k].1.as_str());
            n = n + added;
            k = k + 1;
        }
        assert(iv.take(items.len() as int) =~= iv);
        n
    }

    /// Edits a contact here (see [`update_rows`]).
    pub fn update(&mut self, id: i64, name: &str, number: &str) -> (r: Result<(), String>)
        ensures
            match update_rows(old(self)@, id, name@, number@) {
                Ok(rows) => r is Ok && final(self)@ == rows,
                Err(e) => (r matches Err(m) && m@ == e) && final(self)@ == old(self)@,
            },
    {
        let key = match update_key(number) {
            Err(e) => return Err(e),
            Ok(k) => k,
        };
        let kc = to_chars(key.as_str());
        if self.find_key(&kc, Some(id)) {
            return Err(copy_str(NUMBER_TAKEN));
        }
        let mut i: usize = 0;
        while i < self.rows.len()
            invariant
                i <= self.rows.len(),
                self@ == old(self)@,
                kc@ == number_key_of(number@),
                kc@ == key@,
                kc@.len() > 0,
                !clash(self@, kc@, id),
                id_at(self@, id, 0) == id_at(self@, id, i as int),
            decreases self.rows.len() - i,
        {
            assert(self@[i as int] == row_view(self.rows@[i as int]));
            if self.rows[i].id == id {
                let old_row = self.row_at(i);
                let row = ContactRow {
                    name: copy_str(name),
                    number: copy_str(number),
                    key,
                    customized: true,
                    ..old_row
                };
                let ghost before = self.rows@;
                self.rows.set(i, row);
                proof {
                    assert(rows_view(self.rows@) =~= rows_view(before).update(
                        i as int,
                        Row { name: name@, number: number@, key: kc@, customized: true, ..rows_view(before)[i as int] },
                    ));
                }
                return Ok(());
            }
            i = i + 1;
        }
        Err(copy_str(CONTACT_NOT_FOUND))
    }

    /// Deletes the contact with this id.
    pub fn delete(&mut self, id: i64)
        ensures
            final(self)@ == without_id(old(self)@, id),
    {
        let ghost start = self@;
        let mut kept: Vec<ContactRow> = Vec::new();
        let mut i: usize = 0;
        while i < self.rows.len()
            invariant
                i <= self.rows.len(),
                self@ == start,
                rows_view(kept@) == without_id(start.take(i as int), id),
            decreases self.rows.len() - i,
        {
            proof {
                assert(start.take(i + 1).drop_last() =~= start.take(i as int));
                assert(start.take(i + 1).last() == row_view(self.rows@[i as int]));
            }
            if self.rows[i].id != id {
                let row = self.row_at(i);
                let ghost before = kept@;
                kept.push(row);
                assert(rows_view(kept@) =~= rows_view(before).push(row_view(row)));
            }
            i = i + 1;
        }
        assert(start.take(self.rows.len() as int) =~= start);
        self.rows = kept;
    }

    /// The contacts, in the book's order.
    pub fn contacts(&self) -> (r: Vec<Contact>)
        ensures
            r.len() == self@.len(),
            forall|i: int|
                0 <= i < r.len() ==> ({
                    let c = #[trigger] r@[i];
                    let w = self@[i];
                    c.id == w.id && c.name@ == w.name && c.number@ == w.number && c.customized == w.customized
                }),
    {
        let mut r: Vec<Contact> = Vec::new();
        let mut i: usize = 0;
        while i < self.rows.len()
            invariant
                i <= self.rows.len(),
                r.len() == i,
                forall|j: int|
                    0 <= j < i ==> ({
                        let c = #[trigger] r@[j];
                        let w = self@[j];
                        c.id == w.id && c.name@ == w.name && c.number@ == w.number && c.customized == w.customized
                    }),
            decreases self.rows.len() - i,
        {
            let w = self.row_at(i);
            r.push(Contact { id: w.id, name: w.name, number: w.number, customized: w.customized });
            i = i + 1;
        }
        r
    }

    /// The sync state: for each contact with an import key, that key and whether it was
    /// customised (a system contact whose key is missing here is new).
    pub fn sync_state(&self) -> (r: Vec<(String, bool)>)
        ensures
            r@.map_values(|p: (String, bool)| (p.0@, p.1)) == sync_pairs(self@),
    {
        let ghost rows = self@;
        let mut r: Vec<(String, bool)> = Vec::new();
        let mut i: usize = 0;
        while i < self.rows.len()
            invariant
                i <= self.rows.len(),
                rows == self@,
                r@.map_values(|p: (String, bool)| (p.0@, p.1)) == sync_pairs(rows.take(i as int)),
            decreases self.rows.len() - i,
        {
            proof {
                assert(rows.take(i + 1).drop_last() =~= rows.take(i as int));
                assert(rows.take(i + 1).last() == row_view(self.rows@[i as int]));
            }
            if to_chars(self.rows[i].origin.as_str()).len() > 0 {
                let ghost before = r@.map_values(|p: (String, bool)| (p.0@, p.1));
                let o = copy_str(self.rows[i].origin.as_str());
                r.push((o, self.rows[i].customized));
                assert(r@.map_values(|p: (String, bool)| (p.0@, p.1)) =~= before.push(
                    (rows[i as int].origin, rows[i as int].customized),
                ));
            } else {
                assert(rows[i as int].origin.len() == 0);
            }
            i = i + 1;
        }
        assert(rows.take(self.rows.len() as int) =~= rows);
        r
    }

    /// Each contact's number key and name, to show a number under its contact's name.
    pub fn names_by_key(&self) -> (r: Vec<(String, String)>)
        ensures
            r@.map_values(|p: (String, String)| (p.0@, p.1@)) == self@.map_values(
                |w: Row| (number_key_of(w.number), w.name),
            ),
    {
        let ghost rows = self@;
        let mut r: Vec<(String, String)> = Vec::new();
        let mut i: usize = 0;
        while i < self.rows.len()
            invariant
                i <= self.rows.len(),
                rows == self@,
                r@.map_values(|p: (String, String)| (p.0@, p.1@)) == rows.take(i as int).map_values(
                    |w: Row| (number_key_of(w.number), w.name),
                ),
            decreases self.rows.len() - i,
        {
            let ghost before = r@.map_values(|p: (String, String)| (p.0@, p.1@));
            let k = number_key(self.rows[i].number.as_str());
            let n = copy_str(self.rows[i].name.as_str());
            r.push((k, n));
            proof {
                assert(rows[i as int] == row_view(self.rows@[i as int]));
                assert(rows.take(i + 1) =~= rows.take(i as int).push(rows[i as int]));
                assert(r@.map_values(|p: (String, String)| (p.0@, p.1@)) =~= before.push((k@, n@)));
                assert(rows.take(i as int).push(rows[i as int]).map_values(|w: Row| (number_key_of(w.number), w.name))
                    =~= rows.take(i as int).map_values(|w: Row| (number_key_of(w.number), w.name)).push(
                    (number_key_of(rows[i as int].number), rows[i as int].name),
                ));
            }
            i = i + 1;
        }
        assert(rows.take(self.rows.len() as int) =~= rows);
        r
    }
}

/// The sync state of the rows: `(import key, customised)` of each contact that has an import
/// key, in order.
pub open spec fn sync_pairs(rows: Seq<Row>) -> Seq<(Seq<char>, bool)>
    decreases rows.len(),
{
    if rows.len() == 0 {
        seq![]
    } else if rows.last().origin.len() > 0 {
        sync_pairs(rows.drop_last()).push((rows.last().origin, rows.last().customized))
    } else {
        sync_pairs(rows.drop_last())
    }
}

proof fn lemma_max_id_update(rows: Seq<Row>, i: int, x: Row)
    requires
        0 <= i < rows.len(),
        x.id == rows[i].id,
    ensures
        max_id(rows.update(i, x)) == max_id(rows),
    decreases rows.len(),
{
    let u = rows.update(i, x);
    if i == rows.len() - 1 {
        assert(u.drop_last() =~= rows.drop_last());
    } else {
        lemma_max_id_update(rows.drop_last(), i, x);
        assert(u.drop_last() =~= rows.drop_last().update(i, x));
    }
}

proof fn lemma_import_one_max(rows: Seq<Row>, name: Seq<char>, number: Seq<char>)
    ensures
        max_id(import_one(rows, name, number).0) <= max_id(rows) + import_one(rows, name, number).1,
{
    let key = number_key_of(number);
    if key.len() > 0 {
        match origin_at(rows, key, 0) {
            Some(i) => {
                lemma_origin_at_range(rows, key, 0);
                if !rows[i].customized {
                    lemma_max_id_update(rows, i, Row { name, ..rows[i] });
                }
            },
            None => {
                if !has_key(rows, key) {
                    let r = import_one(rows, name, number).0;
                    assert(r.drop_last() =~= rows);
                }
            },
        }
    }
}

/// Importing part of a list never counts more new contacts than importing all of it.
proof fn lemma_import_count_prefix(rows: Seq<Row>, items: Seq<(Seq<char>, Seq<char>)>, k: int)
    requires
        0 <= k <= items.len(),
    ensures
        import_all(rows, items.take(k)).1 <= import_all(rows, items).1,
    decreases items.len() - k,
{
    if k == items.len() {
        assert(items.take(k) =~= items);
    } else {
        lemma_import_count_prefix(rows, items, k + 1);
        assert(items.take(k + 1).drop_last() =~= items.take(k));
    }
}

proof fn lemma_origin_at_range(rows: Seq<Row>, key: Seq<char>, i: int)
    ensures
        origin_at(rows, key, i) matches Some(j) ==> i <= j < rows.len() && rows[j].origin == key,
    decreases rows.len() - i,
{
    if 0 <= i < rows.len() && rows[i].origin != key {
        lemma_origin_at_range(rows, key, i + 1);
    }
}

// ---------------------------------------------------------------- laws

/// No two contacts share an id.
pub open spec fn ids_unique(rows: Seq<Row>) -> bool {
    forall|i: int, j: int| 0 <= i < rows.len() && 0 <= j < rows.len() && i != j ==> #[trigger] rows[i].id != #[trigger] rows[j].id
}

/// The book's invariant: one contact per number key, and per id.
pub open spec fn book_wf(rows: Seq<Row>) -> bool {
    keys_unique(rows) && ids_unique(rows)
}

/// A system contact's key is taken care of: it has no digits, or a contact was imported under
/// it, or a contact has that number.
pub open spec fn covered(rows: Seq<Row>, key: Seq<char>) -> bool {
    key.len() == 0 || origin_at(rows, key, 0) is Some || has_key(rows, key)
}

proof fn lemma_max_id_bounds(rows: Seq<Row>)
    ensures
        forall|j: int| 0 <= j < rows.len() ==> (#[trigger] rows[j]).id <= max_id(rows),
    decreases rows.len(),
{
    if rows.len() > 0 {
        let d = rows.drop_last();
        lemma_max_id_bounds(d);
        assert forall|j: int| 0 <= j < rows.len() implies (#[trigger] rows[j]).id <= max_id(rows) by {
            if j < rows.len() - 1 {
                assert(rows[j] == d[j]);
            }
        }
    }
}

proof fn lemma_origin_at_update(rows: Seq<Row>, i: int, x: Row, key: Seq<char>, j: int)
    requires
        0 <= i < rows.len(),
        x.origin == rows[i].origin,
    ensures
        origin_at(rows.update(i, x), key, j) == origin_at(rows, key, j),
    decreases rows.len() - j,
{
    if 0 <= j < rows.len() {
        lemma_origin_at_update(rows, i, x, key, j + 1);
    }
}

proof fn lemma_origin_at_push(rows: Seq<Row>, r: Row, key: Seq<char>, j: int)
    requires
        origin_at(rows, key, j) is Some,
    ensures
        origin_at(rows.push(r), key, j) == origin_at(rows, key, j),
    decreases rows.len() - j,
{
    if 0 <= j < rows.len() && rows[j].origin != key {
        lemma_origin_at_push(rows, r, key, j + 1);
    }
}

/// What an import keeps of the existing contacts: they stay in place with their id, number,
/// keys and customisation; a customised one stays exactly as it was.
pub open spec fn keeps_existing(old: Seq<Row>, new: Seq<Row>) -> bool {
    &&& old.len() <= new.len()
    &&& forall|i: int|
        0 <= i < old.len() ==> {
            let a = #[trigger] old[i];
            let b = new[i];
            &&& b.id == a.id
            &&& b.number == a.number
            &&& b.key == a.key
            &&& b.origin == a.origin
            &&& b.customized == a.customized
            &&& a.customized ==> b == a
        }
}

proof fn lemma_import_one_keeps(rows: Seq<Row>, name: Seq<char>, number: Seq<char>)
    ensures
        keeps_existing(rows, import_one(rows, name, number).0),
        book_wf(rows) && max_id(rows) < i64::MAX ==> book_wf(import_one(rows, name, number).0),
        max_id(import_one(rows, name, number).0) <= max_id(rows) + 1,
        forall|k: Seq<char>| covered(rows, k) ==> #[trigger] covered(import_one(rows, name, number).0, k),
        covered(import_one(rows, name, number).0, number_key_of(number)),
        covered(rows, number_key_of(number)) ==> import_one(rows, name, number).1 == 0
            && import_one(rows, name, number).0.len() == rows.len(),
{
    let key = number_key_of(number);
    let n = import_one(rows, name, number).0;
    lemma_import_one_max(rows, name, number);
    if key.len() == 0 {
    } else {
        match origin_at(rows, key, 0) {
            Some(i) => {
                lemma_origin_at_range(rows, key, 0);
                if !rows[i].customized {
                    let x = Row { name, ..rows[i] };
                    assert(n == rows.update(i, x));
                    assert forall|k: Seq<char>| covered(rows, k) implies #[trigger] covered(n, k) by {
                        lemma_origin_at_update(rows, i, x, k, 0);
                        if has_key(rows, k) {
                            let j = choose|j: int| 0 <= j < rows.len() && (#[trigger] rows[j]).key == k;
                            assert(n[j].key == k);
                        }
                    }
                    lemma_origin_at_update(rows, i, x, key, 0);
                    assert(keys_unique(rows) ==> keys_unique(n)) by {
                        if keys_unique(rows) {
                            assert forall|a: int, b: int| 0 <= a < n.len() && 0 <= b < n.len() && a != b implies #[trigger] n[a].key
                                != #[trigger] n[b].key by {
                                assert(n[a].key == rows[a].key);
                                assert(n[b].key == rows[b].key);
                            }
                        }
                    }
                    assert(ids_unique(rows) ==> ids_unique(n)) by {
                        if ids_unique(rows) {
                            assert forall|a: int, b: int| 0 <= a < n.len() && 0 <= b < n.len() && a != b implies #[trigger] n[a].id
                                != #[trigger] n[b].id by {
                                assert(n[a].id == rows[a].id);
                                assert(n[b].id == rows[b].id);
                            }
                        }
                    }
                }
            },
            None => {
                if !has_key(rows, key) {
                    let r = Row {
                        id: (max_id(rows) + 1) as i64,
                        name,
                        number,
                        key,
                        origin: key,
                        customized: false,
                    };
                    assert(n == rows.push(r));
                    assert forall|k: Seq<char>| covered(rows, k) implies #[trigger] covered(n, k) by {
                        if origin_at(rows, k, 0) is Some {
                            lemma_origin_at_push(rows, r, k, 0);
                        } else if has_key(rows, k) {
                            let j = choose|j: int| 0 <= j < rows.len() && (#[trigger] rows[j]).key == k;
                            assert(n[j].key == k);
                        }
                    }
                    assert(n[rows.len() as int].key == key);
                    assert(has_key(n, key));
                    lemma_max_id_bounds(rows);
                    assert(keys_unique(rows) ==> keys_unique(n)) by {
                        if keys_unique(rows) {
                            assert forall|a: int, b: int| 0 <= a < n.len() && 0 <= b < n.len() && a != b implies #[trigger] n[a].key
                                != #[trigger] n[b].key by {
                                if a == rows.len() {
                                    assert(n[b] == rows[b]);
                                } else if b == rows.len() {
                                    assert(n[a] == rows[a]);
                                } else {
                                    assert(n[a] == rows[a]);
                                    assert(n[b] == rows[b]);
                                }
                            }
                        }
                    }
                    assert(ids_unique(rows) && max_id(rows) < i64::MAX ==> ids_unique(n)) by {
                        if ids_unique(rows) && max_id(rows) < i64::MAX {
                            assert forall|a: int, b: int| 0 <= a < n.len() && 0 <= b < n.len() && a != b implies #[trigger] n[a].id
                                != #[trigger] n[b].id by {
                                if a == rows.len() {
                                    assert(n[b] == rows[b]);
                                    assert(rows[b].id <= max_id(rows));
                                } else if b == rows.len() {
                                    assert(n[a] == rows[a]);
                                    assert(rows[a].id <= max_id(rows));
                                } else {
                                    assert(n[a] == rows[a]);
                                    assert(n[b] == rows[b]);
                                }
                            }
                        }
                    }
                }
            },
        }
    }
}

proof fn lemma_import_all_laws(rows: Seq<Row>, items: Seq<(Seq<char>, Seq<char>)>)
    ensures
        keeps_existing(rows, import_all(rows, items).0),
        book_wf(rows) && max_id(rows) + items.len() < i64::MAX ==> book_wf(import_all(rows, items).0),
        max_id(import_all(rows, items).0) <= max_id(rows) + items.len(),
        forall|k: Seq<char>| covered(rows, k) ==> #[trigger] covered(import_all(rows, items).0, k),
        forall|j: int| 0 <= j < items.len() ==> covered(import_all(rows, items).0, number_key_of(#[trigger] items[j].1)),
        (forall|j: int| 0 <= j < items.len() ==> covered(rows, number_key_of(#[trigger] items[j].1))) ==> import_all(
            rows,
            items,
        ).1 == 0 && import_all(rows, items).0.len() == rows.len(),
    decreases items.len(),
{
    if items.len() > 0 {
        let d = items.drop_last();
        let last = items.last();
        lemma_import_all_laws(rows, d);
        let mid = import_all(rows, d).0;
        lemma_import_one_keeps(mid, last.0, last.1);
        let fin = import_all(rows, items).0;
        assert(fin == import_one(mid, last.0, last.1).0);
        assert(keeps_existing(rows, fin)) by {
            assert forall|i: int| 0 <= i < rows.len() implies {
                let a = #[trigger] rows[i];
                let b = fin[i];
                &&& b.id == a.id
                &&& b.number == a.number
                &&& b.key == a.key
                &&& b.origin == a.origin
                &&& b.customized == a.customized
                &&& a.customized ==> b == a
            } by {
                assert(mid[i].id == rows[i].id);
            }
        }
        assert forall|j: int| 0 <= j < items.len() implies covered(fin, number_key_of(#[trigger] items[j].1)) by {
            if j < d.len() {
                assert(d[j] == items[j]);
                assert(covered(mid, number_key_of(d[j].1)));
            }
        }
        if forall|j: int| 0 <= j < items.len() ==> covered(rows, number_key_of(#[trigger] items[j].1)) {
            assert forall|j: int| 0 <= j < d.len() implies covered(rows, number_key_of(#[trigger] d[j].1)) by {
                assert(d[j] == items[j]);
            }
            assert(covered(rows, number_key_of(items[items.len() - 1].1)));
            assert(covered(mid, number_key_of(last.1)));
        }
    }
}

/// Importing never loses or rewrites what the user made here: the contacts already in the book
/// stay in place with their id, number and keys, and a contact the user customised stays
/// exactly as it was; the book keeps one contact per number and per id.
pub proof fn lemma_import_keeps_customized(rows: Seq<Row>, items: Seq<(Seq<char>, Seq<char>)>)
    ensures
        keeps_existing(rows, import_all(rows, items).0),
        book_wf(rows) && max_id(rows) + items.len() < i64::MAX ==> book_wf(import_all(rows, items).0),
{
    lemma_import_all_laws(rows, items);
}

/// Importing a list raises the largest id by at most the number of new contacts.
proof fn lemma_import_all_max(rows: Seq<Row>, items: Seq<(Seq<char>, Seq<char>)>)
    ensures
        max_id(import_all(rows, items).0) <= max_id(rows) + import_all(rows, items).1,
    decreases items.len(),
{
    if items.len() > 0 {
        lemma_import_all_max(rows, items.drop_last());
        let before = import_all(rows, items.drop_last());
        lemma_import_one_max(before.0, items.last().0, items.last().1);
    }
}

/// Syncing the same contacts again has nothing to do: a second import of the same list adds
/// no contact, and it is always allowed after the first (it needs no new id).
pub proof fn lemma_reimport_adds_nothing(rows: Seq<Row>, items: Seq<(Seq<char>, Seq<char>)>)
    ensures
        import_all(import_all(rows, items).0, items).1 == 0,
        import_all(import_all(rows, items).0, items).0.len() == import_all(rows, items).0.len(),
        max_id(rows) + import_all(rows, items).1 < i64::MAX ==> max_id(import_all(rows, items).0)
            + import_all(import_all(rows, items).0, items).1 < i64::MAX,
{
    lemma_import_all_laws(rows, items);
    lemma_import_all_laws(import_all(rows, items).0, items);
    lemma_import_all_max(rows, items);
}

/// Editing keeps the book's invariant: the edited contact gets the new name and number, is
/// marked customised and keeps its import key; no other contact changes.
pub proof fn lemma_update_customizes(rows: Seq<Row>, id: i64, name: Seq<char>, number: Seq<char>)
    requires
        book_wf(rows),
        update_rows(rows, id, name, number) is Ok,
    ensures
        ({
            let n = update_rows(rows, id, name, number)->Ok_0;
            &&& book_wf(n)
            &&& n.len() == rows.len()
            &&& exists|i: int|
                0 <= i < rows.len() && rows[i].id == id && n[i].name == name && n[i].number == number
                    && n[i].customized && n[i].origin == rows[i].origin && n[i].id == id
                    && forall|j: int| 0 <= j < rows.len() && j != i ==> #[trigger] n[j] == rows[j]
        }),
{
    let key = number_key_of(number);
    let i = id_at(rows, id, 0)->Some_0;
    lemma_id_at_range(rows, id, 0);
    let n = update_rows(rows, id, name, number)->Ok_0;
    assert(n == rows.update(i, Row { name, number, key, customized: true, ..rows[i] }));
    assert forall|a: int, b: int| 0 <= a < n.len() && 0 <= b < n.len() && a != b implies #[trigger] n[a].key
        != #[trigger] n[b].key by {
        if a == i {
            assert(n[b] == rows[b]);
            assert(rows[b].id != id);
            if rows[b].key == key {
                assert(clash(rows, key, id));
            }
        } else if b == i {
            assert(n[a] == rows[a]);
            assert(rows[a].id != id);
            if rows[a].key == key {
                assert(clash(rows, key, id));
            }
        } else {
            assert(n[a] == rows[a]);
            assert(n[b] == rows[b]);
        }
    }
    assert forall|a: int, b: int| 0 <= a < n.len() && 0 <= b < n.len() && a != b implies #[trigger] n[a].id
        != #[trigger] n[b].id by {
        assert(n[a].id == rows[a].id);
        assert(n[b].id == rows[b].id);
    }
    assert(forall|j: int| 0 <= j < rows.len() && j != i ==> #[trigger] n[j] == rows[j]);
}

proof fn lemma_id_at_range(rows: Seq<Row>, id: i64, i: int)
    ensures
        id_at(rows, id, i) matches Some(j) ==> i <= j < rows.len() && rows[j].id == id,
    decreases rows.len() - i,
{
    if 0 <= i < rows.len() && rows[i].id != id {
        lemma_id_at_range(rows, id, i + 1);
    }
}

} // verus!
