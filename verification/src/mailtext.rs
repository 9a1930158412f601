//! The text of an e-mail: a raw message read into its headers and its tree of parts, and which
//! part's text is shown.  Decoding headers, transfer encodings and character sets is the mail
//! parser's work (`mailparse`); it lists the parts in depth-first order, and the tree is rebuilt
//! here from that listing.
use vstd::prelude::*;
use mailparse::MailHeaderMap;
use crate::chars::{trim, trim_exec, to_chars, from_chars, chars_eq};

verus! {

/// A part of a parsed message: its MIME type, its decoded body (`None` when it could not be
/// decoded) and its own parts.
pub struct MailPart {
    pub mimetype: String,
    pub body: Option<String>,
    pub subparts: Vec<MailPart>,
}

/// A part's body, empty when it could not be decoded.
pub open spec fn body_text(p: MailPart) -> Seq<char> {
    match p.body {
        Some(b) => b@,
        None => seq![],
    }
}

pub open spec fn blank(s: Seq<char>) -> bool {
    trim(s).len() == 0
}

/// The first `text/plain` part, from index `i` on, whose decoded body is not blank.
pub open spec fn first_plain(parts: Seq<MailPart>, i: nat) -> Option<Seq<char>>
    decreases parts.len() - i,
{
    if i >= parts.len() {
        None
    } else if parts[i as int].mimetype@ == "text/plain"@ && parts[i as int].body is Some && !blank(
        body_text(parts[i as int]),
    ) {
        Some(body_text(parts[i as int]))
    } else {
        first_plain(parts, i + 1)
    }
}

/// The text shown of a message part: a part without parts is its body; otherwise its first
/// non-blank `text/plain` part, else the first part whose own text is not blank, else its
/// body.
pub open spec fn mail_text(p: MailPart) -> Seq<char>
    decreases p, 1nat,
{
    if p.subparts.len() == 0 {
        body_text(p)
    } else {
        match first_plain(p.subparts@, 0) {
            Some(b) => b,
            None => match first_text(p.subparts@, 0) {
                Some(t) => t,
                None => body_text(p),
            },
        }
    }
}

/// The first part, from index `i` on, whose text (see [`mail_text`]) is not blank.
pub open spec fn first_text(parts: Seq<MailPart>, i: nat) -> Option<Seq<char>>
    decreases parts, (parts.len() - i) as nat,
{
    if i >= parts.len() {
        None
    } else if !blank(mail_text(parts[i as int])) {
        Some(mail_text(parts[i as int]))
    } else {
        first_text(parts, i + 1)
    }
}

fn copy(s: &String) -> (r: String)
    ensures
        r@ == s@,
{
    from_chars(to_chars(s.as_str()).as_slice())
}

fn body_exec(p: &MailPart) -> (r: String)
    ensures
        r@ == body_text(*p),
{
    match &p.body {
        Some(b) => copy(b),
        None => String::new(),
    }
}

fn is_blank(s: &String) -> (r: bool)
    ensures
        r == blank(s@),
{
    trim_exec(&to_chars(s.as_str())).len() == 0
}

/// The text shown of a message (see [`mail_text`]).
pub fn extract_text(p: &MailPart) -> (r: String)
    ensures
        r@ == mail_text(*p),
    decreases p,
{
    if p.subparts.len() == 0 {
        return body_exec(p);
    }
    let parts = &p.subparts;
    let plain = to_chars("text/plain");
    let mut k: usize = 0;
    while k < parts.len()
        invariant
            k <= parts.len(),
            parts@ == p.subparts@,
            plain@ == "text/plain"@,
            first_plain(parts@, 0) == first_plain(parts@, k as nat),
        decreases parts.len() - k,
    {
        let sp = &parts[k];
        if chars_eq(&to_chars(sp.mimetype.as_str()), &plain) {
            if let Some(b) = &sp.body {
                if !is_blank(b) {
                    assert(first_plain(parts@, k as nat) == Some(b@));
                    return copy(b);
                }
            }
        }
        k = k + 1;
    }
    let mut j: usize = 0;
    while j < parts.len()
        invariant
            j <= parts.len(),
            parts@ == p.subparts@,
            first_plain(parts@, 0) is None,
            first_text(parts@, 0) == first_text(parts@, j as nat),
        decreases parts.len() - j,
    {
        let t = extract_text(&parts[j]);
        if !is_blank(&t) {
            return t;
        }
        j = j + 1;
    }
    body_exec(p)
}

// ---------------------------------------------------------------- reading a raw message

/// A part as the parser lists it: its MIME type, its decoded body (`None` when it does not
/// decode) and how many direct subparts it has.
pub open spec fn entry_view(e: (String, Option<String>, usize)) -> (Seq<char>, Option<Seq<char>>, usize) {
    (
        e.0@,
        match e.1 {
            Some(b) => Some(b@),
            None => None,
        },
        e.2,
    )
}

/// What `mailparse::parse_mail` reads from a raw message, as plain values: the first `From`,
/// `Subject` and `Date` header values (empty when missing) and the listing of its parts in
/// depth-first pre-order, the message itself first (see [`entry_view`]); `None` when the message
/// does not parse.
pub uninterp spec fn mail_parsed(raw: Seq<u8>) -> Option<
    (Seq<char>, Seq<char>, Seq<char>, Seq<(Seq<char>, Option<Seq<char>>, usize)>),
>;

/// `mailparse::parse_mail`, with `MailHeaderMap::get_first_value` for the three headers and
/// `ParsedMail::parts` (a depth-first pre-order traversal, the message first) for the listing;
/// each part gives its `ctype.mimetype`, `get_body()` and the number of its `subparts`.  The
/// contract names the result (see [`mail_parsed`]); that the listing is a tree's pre-order is
/// left unsaid (the library checks it).
#[verifier::external_body]
fn parse_mail_listing(raw: &[u8]) -> (r: Option<(String, String, String, Vec<(String, Option<String>, usize)>)>)
    ensures
        r matches Some(m) ==> mail_parsed(raw@) == Some(
            (m.0@, m.1@, m.2@, m.3@.map_values(|e: (String, Option<String>, usize)| entry_view(e))),
        ),
        r is None ==> mail_parsed(raw@) is None,
{
    mailparse::parse_mail(raw).ok().map(|p| (
        p.headers.get_first_value("From").unwrap_or_default(),
        p.headers.get_first_value("Subject").unwrap_or_default(),
        p.headers.get_first_value("Date").unwrap_or_default(),
        p.parts().map(|q| (q.ctype.mimetype.clone(), q.get_body().ok(), q.subparts.len())).collect(),
    ))
}

/// The listing entry of a part.
pub open spec fn part_entry(p: MailPart) -> (Seq<char>, Option<Seq<char>>, usize) {
    (
        p.mimetype@,
        match p.body {
            Some(b) => Some(b@),
            None => None,
        },
        p.subparts.len(),
    )
}

/// The depth-first pre-order listing of a part: itself, then each subpart's listing in order.
pub open spec fn listing(p: MailPart) -> Seq<(Seq<char>, Option<Seq<char>>, usize)>
    decreases p, 1nat,
{
    seq![part_entry(p)] + listing_from(p.subparts@, 0)
}

/// The listings of the parts from index `i` on, one after the other.
pub open spec fn listing_from(ps: Seq<MailPart>, i: nat) -> Seq<(Seq<char>, Option<Seq<char>>, usize)>
    decreases ps, (ps.len() - i) as nat,
{
    if i >= ps.len() {
        seq![]
    } else {
        listing(ps[i as int]) + listing_from(ps, i + 1)
    }
}

/// Whether a listing with subpart counts is the pre-order listing of one tree: read from the
/// end, each entry takes its subparts from the trees already read, and one tree remains.
pub open spec fn counts_fit(es: Seq<(Seq<char>, Option<Seq<char>>, usize)>, k: int, trees: int) -> bool
    decreases k,
{
    if k <= 0 {
        trees == 1
    } else {
        es[k - 1].2 <= trees && counts_fit(es, k - 1, trees - es[k - 1].2 + 1)
    }
}

/// A listing of one whole tree (see [`counts_fit`]).
pub open spec fn listing_ok(es: Seq<(Seq<char>, Option<Seq<char>>, usize)>) -> bool {
    counts_fit(es, es.len() as int, 0)
}

/// The listings of the trees of a stack, the top one first.
pub open spec fn stack_listing(st: Seq<MailPart>) -> Seq<(Seq<char>, Option<Seq<char>>, usize)>
    decreases st.len(),
{
    if st.len() == 0 {
        seq![]
    } else {
        listing(st.last()) + stack_listing(st.drop_last())
    }
}

proof fn lemma_listing_from_push(ps: Seq<MailPart>, x: MailPart, i: nat)
    requires
        i <= ps.len(),
    ensures
        listing_from(ps.push(x), i) == listing_from(ps, i) + listing(x),
    decreases ps.len() - i,
{
    let q = ps.push(x);
    if i == ps.len() {
        assert(listing_from(q, i + 1) == Seq::<(Seq<char>, Option<Seq<char>>, usize)>::empty());
        assert(listing_from(ps, i) == Seq::<(Seq<char>, Option<Seq<char>>, usize)>::empty());
        assert(q[i as int] == x);
        assert(listing_from(q, i) =~= listing(x));
    } else {
        lemma_listing_from_push(ps, x, i + 1);
        assert(q[i as int] == ps[i as int]);
        assert(listing_from(q, i) =~= listing_from(ps, i) + listing(x));
    }
}

/// Rebuilds the tree of parts from its depth-first listing; `None` when the listing is not that
/// of one tree.
fn tree_of_listing(entries: Vec<(String, Option<String>, usize)>) -> (r: Option<MailPart>)
    ensures
        r is Some <==> listing_ok(entries@.map_values(|e: (String, Option<String>, usize)| entry_view(e))),
        r matches Some(root) ==> listing(root) == entries@.map_values(
            |e: (String, Option<String>, usize)| entry_view(e),
        ),
{
    let ghost ev = entries@.map_values(|e: (String, Option<String>, usize)| entry_view(e));
    let ghost all = entries@;
    let mut rest = entries;
    let mut stack: Vec<MailPart> = Vec::new();
    assert(ev.subrange(ev.len() as int, ev.len() as int) =~= Seq::<(Seq<char>, Option<Seq<char>>, usize)>::empty());
    assert(all.take(all.len() as int) =~= all);
    while rest.len() > 0
        invariant
            all == entries@,
            ev == all.map_values(|e: (String, Option<String>, usize)| entry_view(e)),
            rest@ == all.take(rest.len() as int),
            rest.len() <= all.len(),
            stack_listing(stack@) == ev.subrange(rest.len() as int, ev.len() as int),
            counts_fit(ev, rest.len() as int, stack.len() as int) == listing_ok(ev),
        decreases rest.len(),
    {
        let k = rest.len() - 1;
        let ghost before = stack@;
        let e = rest.pop().unwrap();
        proof {
            assert(all.take(k + 1)[k as int] == e);
            assert(rest@ =~= all.take(k as int));
            assert(ev[k as int] == entry_view(e));
        }
        let (mime, body, n) = e;
        proof {
            assert(counts_fit(ev, k + 1, stack.len() as int) == (ev[k as int].2 <= stack.len() && counts_fit(
                ev,
                k as int,
                stack.len() - ev[k as int].2 + 1,
            )));
        }
        if n > stack.len() {
            return None;
        }
        let mut children: Vec<MailPart> = Vec::new();
        let mut j: usize = 0;
        while j < n
            invariant
                j <= n,
                n <= before.len(),
                children.len() == j,
                stack.len() == before.len() - j,
                stack@ == before.take(before.len() - j),
                listing_from(children@, 0) + stack_listing(stack@) == stack_listing(before),
            decreases n - j,
        {
            let ghost s0 = stack@;
            let ghost c0 = children@;
            let c = stack.pop().unwrap();
            proof {
                assert(s0.last() == c);
                assert(stack@ == s0.drop_last());
                lemma_listing_from_push(c0, c, 0);
                assert(stack_listing(s0) == listing(c) + stack_listing(s0.drop_last()));
                assert(before.take(before.len() - (j + 1)) =~= s0.drop_last());
            }
            children.push(c);
            proof {
                assert(listing_from(children@, 0) + stack_listing(stack@) =~= stack_listing(before));
            }
            j = j + 1;
        }
        let node = MailPart { mimetype: mime, body, subparts: children };
        proof {
            assert(part_entry(node) == ev[k as int]);
            assert(listing(node) == seq![ev[k as int]] + listing_from(node.subparts@, 0));
        }
        let ghost s1 = stack@;
        stack.push(node);
        proof {
            assert(stack@.drop_last() =~= s1);
            assert(stack@.last() == node);
            assert(stack_listing(stack@) == listing(node) + stack_listing(s1));
            assert(stack_listing(stack@) =~= seq![ev[k as int]] + ev.subrange(k + 1, ev.len() as int));
            assert(seq![ev[k as int]] + ev.subrange(k + 1, ev.len() as int) =~= ev.subrange(k as int, ev.len() as int));
        }
    }
    if stack.len() == 1 {
        let ghost last = stack@;
        let root = stack.pop().unwrap();
        proof {
            assert(ev.subrange(0, ev.len() as int) =~= ev);
            assert(last.drop_last() =~= Seq::<MailPart>::empty());
            assert(stack_listing(last.drop_last()) == Seq::<(Seq<char>, Option<Seq<char>>, usize)>::empty());
            assert(last.last() == root);
            assert(stack_listing(last) == listing(root) + stack_listing(last.drop_last()));
            assert(listing(root) + Seq::<(Seq<char>, Option<Seq<char>>, usize)>::empty() =~= listing(root));
        }
        Some(root)
    } else {
        None
    }
}

proof fn lemma_tree_fits(t: MailPart, w: Seq<(Seq<char>, Option<Seq<char>>, usize)>, a: int, m: int)
    requires
        0 <= a,
        0 <= m,
        a + listing(t).len() <= w.len(),
        w.subrange(a, a + listing(t).len()) == listing(t),
    ensures
        counts_fit(w, a + listing(t).len(), m) == counts_fit(w, a, m + 1),
    decreases t, 1nat,
{
    let lf = listing_from(t.subparts@, 0);
    let b = a + 1;
    assert(listing(t) == seq![part_entry(t)] + lf);
    assert(w.subrange(b, b + lf.len()) =~= lf) by {
        assert forall|j: int| 0 <= j < lf.len() implies w.subrange(b, b + lf.len())[j] == lf[j] by {
            assert(w.subrange(a, a + listing(t).len())[j + 1] == listing(t)[j + 1]);
        }
    }
    lemma_from_fits(t.subparts@, 0, w, b, m);
    assert(w[a] == w.subrange(a, a + listing(t).len())[0]);
    assert(w[a] == part_entry(t));
    assert(counts_fit(w, b, m + t.subparts.len()) == (w[a].2 <= m + t.subparts.len() && counts_fit(
        w,
        a,
        m + t.subparts.len() - w[a].2 + 1,
    )));
}

proof fn lemma_from_fits(
    ps: Seq<MailPart>,
    i: nat,
    w: Seq<(Seq<char>, Option<Seq<char>>, usize)>,
    b: int,
    m: int,
)
    requires
        i <= ps.len(),
        0 <= b,
        0 <= m,
        b + listing_from(ps, i).len() <= w.len(),
        w.subrange(b, b + listing_from(ps, i).len()) == listing_from(ps, i),
    ensures
        counts_fit(w, b + listing_from(ps, i).len(), m) == counts_fit(w, b, m + (ps.len() - i)),
    decreases ps, (ps.len() - i) as nat,
{
    if i < ps.len() {
        let head = listing(ps[i as int]);
        let tail = listing_from(ps, i + 1);
        let c = b + head.len();
        assert(listing_from(ps, i) == head + tail);
        let whole = w.subrange(b, b + listing_from(ps, i).len());
        assert(w.subrange(b, c) =~= head) by {
            assert forall|j: int| 0 <= j < head.len() implies w.subrange(b, c)[j] == head[j] by {
                assert(whole[j] == (head + tail)[j]);
            }
        }
        assert(w.subrange(c, c + tail.len()) =~= tail) by {
            assert forall|j: int| 0 <= j < tail.len() implies w.subrange(c, c + tail.len())[j] == tail[j] by {
                assert(whole[head.len() + j] == (head + tail)[head.len() + j]);
            }
        }
        lemma_from_fits(ps, i + 1, w, c, m);
        lemma_tree_fits(ps[i as int], w, b, m + (ps.len() - i - 1));
    }
}

/// Every tree's depth-first listing is a listing of one tree: reading a message never refuses
/// the listing of a real tree of parts.
pub proof fn lemma_tree_listing_fits(t: MailPart)
    ensures
        listing_ok(listing(t)),
{
    let l = listing(t);
    assert(l.subrange(0, l.len() as int) =~= l);
    lemma_tree_fits(t, l, 0, 0);
}

/// A message read for the mailbox: the sender, subject and date headers and the tree of parts.
pub struct MailMessage {
    pub from: String,
    pub subject: String,
    pub date: String,
    pub root: MailPart,
}

/// Reads a raw message (see [`mail_parsed`]): `None` when it does not parse, or when the
/// parser's listing is not that of one tree; otherwise the headers, and the tree whose
/// depth-first listing is the parser's.  Its text is [`extract_text`] of the root.
pub fn read_message(raw: &[u8]) -> (r: Option<MailMessage>)
    ensures
        r is None <==> match mail_parsed(raw@) {
            Some(p) => !listing_ok(p.3),
            None => true,
        },
        r matches Some(m) ==> mail_parsed(raw@) == Some((m.from@, m.subject@, m.date@, listing(m.root))),
{
    match parse_mail_listing(raw) {
        None => None,
        Some((from, subject, date, entries)) => match tree_of_listing(entries) {
            None => None,
            Some(root) => Some(MailMessage { from, subject, date, root }),
        },
    }
}

} // verus!
