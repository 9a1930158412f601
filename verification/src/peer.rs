//! Assistant-to-assistant conversation: the context window of the exchange (older turns folded
//! into a summary), and the prompts of the answering assistant and of the summariser.
use vstd::prelude::*;
use crate::chars::{
    to_chars, from_chars, trim, trim_exec, append_str, chars_eq, ends_with, ends_with_exec, slice,
};
use crate::json::{string_field, get_string};
use crate::cloud::{first_message, first_message_exec};

verus! {

/// The most recent messages travel verbatim; everything older lives in the summary.
pub const KEEP_RECENT: usize = 10;

/// Folding starts only past this many messages (hysteresis: fold in blocks, not every turn).
pub const FOLD_TRIGGER: usize = 16;

/// The range of messages to fold into the summary, from `covered` to `len - KEEP_RECENT`, when
/// the history has passed the trigger and that range is not empty.
pub open spec fn fold_range(covered: int, len: int) -> Option<(int, int)> {
    if len < FOLD_TRIGGER {
        None
    } else if covered < len - KEEP_RECENT {
        Some((covered, len - KEEP_RECENT))
    } else {
        None
    }
}

/// The messages to fold next (see [`fold_range`]); `None` when there is nothing to do.
pub fn fold_bounds(covered: usize, len: usize) -> (r: Option<(usize, usize)>)
    ensures
        r matches Some((a, b)) ==> fold_range(covered as int, len as int) == Some(
            (a as int, b as int),
        ),
        r is None ==> fold_range(covered as int, len as int) is None,
{
    if len < FOLD_TRIGGER {
        return None;
    }
    let end = len - KEEP_RECENT;
    if covered < end {
        Some((covered, end))
    } else {
        None
    }
}

/// A fold always leaves the last `KEEP_RECENT` messages verbatim and covers a non-empty range
/// starting where the previous fold stopped; once done, the same history needs no second fold,
/// and a longer history resumes from where it stopped.
pub proof fn lemma_fold_once(covered: int, len: int, more: int)
    requires
        0 <= covered,
        0 <= more,
    ensures
        fold_range(covered, len) matches Some((a, b)) ==> a == covered && a < b && b + KEEP_RECENT
            == len && fold_range(b, len) is None,
        fold_range(covered, len) matches Some((a, b)) ==> (fold_range(b, len + more) matches Some(
            (c, d),
        ) ==> c == b && d == len + more - KEEP_RECENT),
{
}

/// The goal paragraph of the answering assistant's prompt.
pub open spec fn goal_block(owner: Seq<char>, goal: Seq<char>) -> Seq<char> {
    if trim(goal).len() == 0 {
        "State facendo conoscenza a nome dei vostri utenti: chiacchierate in modo cordiale e scoprite se avete cose in comune."@
    } else {
        "OBIETTIVO di questa conversazione: "@ + goal
            + "\nLavora INSIEME all'altro assistente per raggiungerlo: proponi, chiedi e negozia il necessario, restando SUL compito. Per fissare qualcosa di definitivo di' che lo confermerai con "@
            + owner + "."@
    }
}

pub open spec fn materials_block(materials: Seq<char>) -> Seq<char> {
    if trim(materials).len() == 0 {
        seq![]
    } else {
        "\n\nMATERIALI condivisi per il compito (usali):\n"@ + materials
    }
}

pub open spec fn summary_block(summary: Seq<char>) -> Seq<char> {
    if trim(summary).len() == 0 {
        seq![]
    } else {
        "\n\nRIEPILOGO della conversazione finora (i messaggi più vecchi, già gestiti):\n"@ + summary
            + "\nNON ripetere ciò che risulta già detto, chiesto o deciso nel riepilogo: prosegui da lì."@
    }
}

/// The system prompt of the assistant that answers another user's assistant: warm, brief,
/// sharing only the general profile of its owner.
pub open spec fn peer_system_text(
    owner: Seq<char>,
    shareable: Seq<char>,
    goal: Seq<char>,
    materials: Seq<char>,
    summary: Seq<char>,
) -> Seq<char> {
    "Sei Liara, l'assistente personale di "@ + owner
        + " (una persona reale di cui ti occupi): sei l'assistente di "@ + owner
        + ", non un assistente generico né una piattaforma. Stai parlando con l'assistente personale di un'ALTRA persona, a nome dei vostri utenti (non col tuo utente).\n"@
        + goal_block(owner, goal)
        + "\nParla in prima persona come Liara, calorosa, concreta e BREVE (1-2 frasi). Non elencare funzionalità, non divagare, non ripeterti. Del tuo utente condividi SOLO le informazioni generali del profilo qui sotto; non aggiungere dati che non ci sono.\n\nPROFILO CONDIVISIBILE di "@
        + owner + ":\n"@ + shareable + materials_block(materials) + summary_block(summary)
}

fn is_blank(s: &str) -> (r: bool)
    ensures
        r == (trim(s@).len() == 0),
{
    let v = to_chars(s);
    trim_exec(&v).len() == 0
}

/// Builds the system prompt of the answering assistant (see [`peer_system_text`]).
pub fn peer_system(owner: &str, shareable: &str, goal: &str, materials: &str, summary: &str) -> (r:
    String)
    ensures
        r@ == peer_system_text(owner@, shareable@, goal@, materials@, summary@),
{
    let mut p: Vec<char> = Vec::new();
    append_str(&mut p, "Sei Liara, l'assistente personale di ");
    append_str(&mut p, owner);
    append_str(&mut p, " (una persona reale di cui ti occupi): sei l'assistente di ");
    append_str(&mut p, owner);
    append_str(
        &mut p,
        ", non un assistente generico né una piattaforma. Stai parlando con l'assistente personale di un'ALTRA persona, a nome dei vostri utenti (non col tuo utente).\n",
    );
    if is_blank(goal) {
        append_str(
            &mut p,
            "State facendo conoscenza a nome dei vostri utenti: chiacchierate in modo cordiale e scoprite se avete cose in comune.",
        );
    } else {
        append_str(&mut p, "OBIETTIVO di questa conversazione: ");
        append_str(&mut p, goal);
        append_str(
            &mut p,
            "\nLavora INSIEME all'altro assistente per raggiungerlo: proponi, chiedi e negozia il necessario, restando SUL compito. Per fissare qualcosa di definitivo di' che lo confermerai con ",
        );
        append_str(&mut p, owner);
        append_str(&mut p, ".");
    }
    append_str(
        &mut p,
        "\nParla in prima persona come Liara, calorosa, concreta e BREVE (1-2 frasi). Non elencare funzionalità, non divagare, non ripeterti. Del tuo utente condividi SOLO le informazioni generali del profilo qui sotto; non aggiungere dati che non ci sono.\n\nPROFILO CONDIVISIBILE di ",
    );
    append_str(&mut p, owner);
    append_str(&mut p, ":\n");
    append_str(&mut p, shareable);
    if !is_blank(materials) {
        append_str(&mut p, "\n\nMATERIALI condivisi per il compito (usali):\n");
        append_str(&mut p, materials);
    }
    if !is_blank(summary) {
        append_str(
            &mut p,
            "\n\nRIEPILOGO della conversazione finora (i messaggi più vecchi, già gestiti):\n",
        );
        append_str(&mut p, summary);
        append_str(
            &mut p,
            "\nNON ripetere ciò che risulta già detto, chiesto o deciso nel riepilogo: prosegui da lì.",
        );
    }
    let r = from_chars(p.as_slice());
    assert(r@ =~= peer_system_text(owner@, shareable@, goal@, materials@, summary@));
    r
}

/// One folded message as the summariser reads it: `IO` for this assistant, `LUI/LEI` for the
/// other.
pub open spec fn summary_line(who: Seq<char>, text: Seq<char>) -> Seq<char> {
    (if who == "me"@ {
        "IO"@
    } else {
        "LUI/LEI"@
    }) + ": "@ + text + "\n"@
}

pub open spec fn summary_lines(folded: Seq<(Seq<char>, Seq<char>)>) -> Seq<char>
    decreases folded.len(),
{
    if folded.len() == 0 {
        seq![]
    } else {
        summary_lines(folded.drop_last()) + summary_line(folded.last().0, folded.last().1)
    }
}

/// The summariser's prompt: fold the new messages (and the previous summary) into the state of
/// the negotiation.
pub open spec fn summarizer_text(prev: Seq<char>, folded: Seq<(Seq<char>, Seq<char>)>) -> Seq<char> {
    "Aggiorna il riepilogo di una conversazione tra due assistenti AI che coordinano un compito.\nRIEPILOGO PRECEDENTE:\n"@
        + (if trim(prev).len() == 0 {
        "(nessuno)"@
    } else {
        prev
    }) + "\n\nNUOVI MESSAGGI da integrare:\n"@ + summary_lines(folded)
        + "\nScrivi SOLO il nuovo riepilogo aggiornato (max 120 parole), come elenco asciutto di: obiettivo, decisioni già prese, dati/orari/numeri scambiati, punti ancora aperti. Niente premesse, niente commenti."@
}

/// Builds the summariser's prompt (see [`summarizer_text`]).
pub fn summarizer_prompt(prev_summary: &str, folded: &[(String, String)]) -> (r: String)
    ensures
        r@ == summarizer_text(prev_summary@, folded@.map_values(|p: (String, String)| (p.0@, p.1@))),
{
    let ghost fv = folded@.map_values(|p: (String, String)| (p.0@, p.1@));
    let mut lines: Vec<char> = Vec::new();
    let mut k: usize = 0;
    while k < folded.len()
        invariant
            k <= folded.len(),
            fv == folded@.map_values(|p: (String, String)| (p.0@, p.1@)),
            lines@ == summary_lines(fv.take(k as int)),
        decreases folded.len() - k,
    {
        proof {
            assert(fv.take(k + 1).drop_last() =~= fv.take(k as int));
            assert(fv.take(k + 1).last() == (folded@[k as int].0@, folded@[k as int].1@));
        }
        let who = to_chars(folded[k].0.as_str());
        if chars_eq(&who, &to_chars("me")) {
            append_str(&mut lines, "IO");
        } else {
            append_str(&mut lines, "LUI/LEI");
        }
        append_str(&mut lines, ": ");
        append_str(&mut lines, folded[k].1.as_str());
        append_str(&mut lines, "\n");
        k = k + 1;
        assert(lines@ =~= summary_lines(fv.take(k as int)));
    }
    assert(fv.take(folded.len() as int) =~= fv);
    let mut p: Vec<char> = Vec::new();
    append_str(
        &mut p,
        "Aggiorna il riepilogo di una conversazione tra due assistenti AI che coordinano un compito.\nRIEPILOGO PRECEDENTE:\n",
    );
    if is_blank(prev_summary) {
        append_str(&mut p, "(nessuno)");
    } else {
        append_str(&mut p, prev_summary);
    }
    append_str(&mut p, "\n\nNUOVI MESSAGGI da integrare:\n");
    crate::chars::append_chars(&mut p, &lines);
    append_str(
        &mut p,
        "\nScrivi SOLO il nuovo riepilogo aggiornato (max 120 parole), come elenco asciutto di: obiettivo, decisioni già prese, dati/orari/numeri scambiati, punti ancora aperti. Niente premesse, niente commenti.",
    );
    let r = from_chars(p.as_slice());
    assert(r@ =~= summarizer_text(prev_summary@, fv));
    r
}

pub open spec fn ascii_lower(c: char) -> char {
    if 'A' <= c <= 'Z' {
        ((c as u32) + 32) as char
    } else {
        c
    }
}

/// `str::eq_ignore_ascii_case`.
pub open spec fn eq_ignore_ascii_case(a: Seq<char>, b: Seq<char>) -> bool {
    a.len() == b.len() && forall|i: int| 0 <= i < a.len() ==> ascii_lower(#[trigger] a[i]) == ascii_lower(b[i])
}

fn ascii_lower_exec(c: char) -> (r: char)
    ensures
        r == ascii_lower(c),
{
    if 'A' <= c && c <= 'Z' {
        let b = (c as u8) + 32;
        b as char
    } else {
        c
    }
}

pub fn eq_ignore_ascii_case_exec(a: &Vec<char>, b: &Vec<char>) -> (r: bool)
    ensures
        r == eq_ignore_ascii_case(a@, b@),
{
    if a.len() != b.len() {
        return false;
    }
    let mut i: usize = 0;
    while i < a.len()
        invariant
            i <= a.len(),
            a.len() == b.len(),
            forall|j: int| 0 <= j < i ==> ascii_lower(#[trigger] a@[j]) == ascii_lower(b@[j]),
        decreases a.len() - i,
    {
        if ascii_lower_exec(a[i]) != ascii_lower_exec(b[i]) {
            return false;
        }
        i = i + 1;
    }
    true
}

/// The name the profile gives: the value of its first `nome`/`name` entry (any ASCII case).
pub open spec fn profile_name(entries: Seq<(Seq<char>, Seq<char>)>) -> Option<Seq<char>>
    decreases entries.len(),
{
    if entries.len() == 0 {
        None
    } else if eq_ignore_ascii_case(entries[0].0, "nome"@) || eq_ignore_ascii_case(entries[0].0, "name"@) {
        Some(entries[0].1)
    } else {
        profile_name(entries.drop_first())
    }
}

/// The profile entries as `- key: value` lines joined by newlines.
pub open spec fn profile_lines(entries: Seq<(Seq<char>, Seq<char>)>) -> Seq<char>
    decreases entries.len(),
{
    if entries.len() == 0 {
        seq![]
    } else if entries.len() == 1 {
        "- "@ + entries[0].0 + ": "@ + entries[0].1
    } else {
        profile_lines(entries.drop_last()) + "\n"@ + "- "@ + entries.last().0 + ": "@
            + entries.last().1
    }
}

/// What this assistant may share of its owner: the name (`l'utente` when the profile has none)
/// and the profile entries, or a note that there are none.
pub open spec fn shareable_of(entries: Seq<(Seq<char>, Seq<char>)>) -> (Seq<char>, Seq<char>) {
    (
        match profile_name(entries) {
            Some(n) => n,
            None => "l'utente"@,
        },
        if entries.len() == 0 {
            "(nessuna info di profilo disponibile)"@
        } else {
            profile_lines(entries)
        },
    )
}

fn profile_name_exec(entries: &[(String, String)]) -> (r: Option<String>)
    ensures
        r matches Some(n) ==> profile_name(entries@.map_values(|p: (String, String)| (p.0@, p.1@)))
            == Some(n@),
        r is None ==> profile_name(entries@.map_values(|p: (String, String)| (p.0@, p.1@))) is None,
{
    let ghost ev = entries@.map_values(|p: (String, String)| (p.0@, p.1@));
    let nome = to_chars("nome");
    let name_w = to_chars("name");
    let mut k: usize = 0;
    assert(ev.skip(0) =~= ev);
    while k < entries.len()
        invariant
            k <= entries.len(),
            ev == entries@.map_values(|p: (String, String)| (p.0@, p.1@)),
            nome@ == "nome"@,
            name_w@ == "name"@,
            profile_name(ev) == profile_name(ev.skip(k as int)),
        decreases entries.len() - k,
    {
        assert(ev.skip(k as int)[0] == (entries@[k as int].0@, entries@[k as int].1@));
        assert(ev.skip(k as int).drop_first() =~= ev.skip(k + 1));
        let key = to_chars(entries[k].0.as_str());
        if eq_ignore_ascii_case_exec(&key, &nome) || eq_ignore_ascii_case_exec(&key, &name_w) {
            return Some(from_chars(to_chars(entries[k].1.as_str()).as_slice()));
        }
        k = k + 1;
    }
    None
}

/// The shareable information of the owner from the profile entries (see [`shareable_of`]).
pub fn shareable_profile(entries: &[(String, String)]) -> (r: (String, String))
    ensures
        (r.0@, r.1@) == shareable_of(entries@.map_values(|p: (String, String)| (p.0@, p.1@))),
{
    let ghost ev = entries@.map_values(|p: (String, String)| (p.0@, p.1@));
    let name = profile_name_exec(entries);
    let n = match name {
        Some(n) => n,
        None => from_chars(to_chars("l'utente").as_slice()),
    };
    let mut lines: Vec<char> = Vec::new();
    let mut j: usize = 0;
    while j < entries.len()
        invariant
            j <= entries.len(),
            ev == entries@.map_values(|p: (String, String)| (p.0@, p.1@)),
            lines@ == profile_lines(ev.take(j as int)),
        decreases entries.len() - j,
    {
        proof {
            assert(ev.take(j + 1).drop_last() =~= ev.take(j as int));
            assert(ev.take(j + 1).last() == (entries@[j as int].0@, entries@[j as int].1@));
        }
        if j > 0 {
            append_str(&mut lines, "\n");
        }
        append_str(&mut lines, "- ");
        append_str(&mut lines, entries[j].0.as_str());
        append_str(&mut lines, ": ");
        append_str(&mut lines, entries[j].1.as_str());
        j = j + 1;
        assert(lines@ =~= profile_lines(ev.take(j as int)));
    }
    assert(ev.take(entries.len() as int) =~= ev);
    let shareable = if entries.len() == 0 {
        from_chars(to_chars("(nessuna info di profilo disponibile)").as_slice())
    } else {
        from_chars(lines.as_slice())
    };
    (n, shareable)
}

/// There is nothing to answer when the exchange's last message is this assistant's own.
pub open spec fn nothing_to_answer(history: Seq<(Seq<char>, Seq<char>)>) -> bool {
    history.len() > 0 && history.last().0 == "me"@
}

/// The refusal to answer when there is nothing to answer (see [`nothing_to_answer`]).
pub fn reply_refusal(history: &[(String, String)]) -> (r: Option<String>)
    ensures
        r is Some <==> nothing_to_answer(history@.map_values(|p: (String, String)| (p.0@, p.1@))),
        r matches Some(e) ==> e@ == "nessun messaggio del peer a cui rispondere"@,
{
    let ghost hv = history@.map_values(|p: (String, String)| (p.0@, p.1@));
    if history.len() == 0 {
        return None;
    }
    let last = &history[history.len() - 1];
    assert(hv.last() == (last.0@, last.1@));
    if chars_eq(&to_chars(last.0.as_str()), &to_chars("me")) {
        Some(from_chars(to_chars("nessun messaggio del peer a cui rispondere").as_slice()))
    } else {
        None
    }
}

/// The fold state survives only while the history is at least as long as what it covers; a
/// shorter history (the chat was cleared, the contact recreated) starts over.
pub fn fold_state_valid(covered: usize, len: usize) -> (r: bool)
    ensures
        r == (covered <= len),
{
    covered <= len
}

/// The role of a message of the exchange: this assistant's own are `assistant`, the other's
/// are `user`.
pub open spec fn peer_role(who: Seq<char>) -> Seq<char> {
    if who == "me"@ {
        "assistant"@
    } else {
        "user"@
    }
}

/// The messages of the answer: the system prompt, then the exchange from `from` on (the older
/// part lives in the summary).
pub open spec fn peer_turns(system: Seq<char>, history: Seq<(Seq<char>, Seq<char>)>, from: int) -> Seq<
    (Seq<char>, Seq<char>),
> {
    seq![("system"@, system)] + Seq::new(
        (history.len() - from) as nat,
        |i: int| (peer_role(history[from + i].0), history[from + i].1),
    )
}

/// Builds the messages of the answer (see [`peer_turns`]).
pub fn peer_messages(system: &str, history: &[(String, String)], from: usize) -> (r: Vec<(String, String)>)
    requires
        from <= history.len(),
    ensures
        r@.map_values(|p: (String, String)| (p.0@, p.1@)) == peer_turns(
            system@,
            history@.map_values(|p: (String, String)| (p.0@, p.1@)),
            from as int,
        ),
{
    let ghost hv = history@.map_values(|p: (String, String)| (p.0@, p.1@));
    let ghost want = peer_turns(system@, hv, from as int);
    let mut r: Vec<(String, String)> = Vec::new();
    r.push((from_chars(to_chars("system").as_slice()), from_chars(to_chars(system).as_slice())));
    let mut k = from;
    while k < history.len()
        invariant
            from <= k <= history.len(),
            hv == history@.map_values(|p: (String, String)| (p.0@, p.1@)),
            want == peer_turns(system@, hv, from as int),
            r.len() == k - from + 1,
            forall|j: int| 0 <= j < r.len() ==> (#[trigger] r@[j]).0@ == want[j].0 && r@[j].1@ == want[j].1,
        decreases history.len() - k,
    {
        let role = if chars_eq(&to_chars(history[k].0.as_str()), &to_chars("me")) {
            from_chars(to_chars("assistant").as_slice())
        } else {
            from_chars(to_chars("user").as_slice())
        };
        let text = from_chars(to_chars(history[k].1.as_str()).as_slice());
        assert(want[(k - from + 1) as int] == (peer_role(history@[k as int].0@), history@[k as int].1@));
        r.push((role, text));
        k = k + 1;
    }
    assert(r@.map_values(|p: (String, String)| (p.0@, p.1@)) =~= want);
    r
}

/// The plain ChatML prompt of a one-pass answer: each message in its turn, then the opened
/// assistant turn.
pub open spec fn chatml_turns(msgs: Seq<(Seq<char>, Seq<char>)>) -> Seq<char>
    decreases msgs.len(),
{
    if msgs.len() == 0 {
        seq![]
    } else {
        chatml_turns(msgs.drop_last()) + "<|im_start|>"@ + msgs.last().0 + "\n"@ + msgs.last().1
            + "<|im_end|>\n"@
    }
}

/// Builds the plain ChatML prompt (see [`chatml_turns`]).
pub fn plain_chatml(msgs: &[(String, String)]) -> (r: String)
    ensures
        r@ == chatml_turns(msgs@.map_values(|p: (String, String)| (p.0@, p.1@))) + "<|im_start|>assistant\n"@,
{
    let ghost mv = msgs@.map_values(|p: (String, String)| (p.0@, p.1@));
    let mut v: Vec<char> = Vec::new();
    let mut k: usize = 0;
    while k < msgs.len()
        invariant
            k <= msgs.len(),
            mv == msgs@.map_values(|p: (String, String)| (p.0@, p.1@)),
            v@ == chatml_turns(mv.take(k as int)),
        decreases msgs.len() - k,
    {
        proof {
            assert(mv.take(k + 1).drop_last() =~= mv.take(k as int));
            assert(mv.take(k + 1).last() == (msgs@[k as int].0@, msgs@[k as int].1@));
        }
        append_str(&mut v, "<|im_start|>");
        append_str(&mut v, msgs[k].0.as_str());
        append_str(&mut v, "\n");
        append_str(&mut v, msgs[k].1.as_str());
        append_str(&mut v, "<|im_end|>\n");
        k = k + 1;
        assert(v@ =~= chatml_turns(mv.take(k as int)));
    }
    assert(mv.take(msgs.len() as int) =~= mv);
    append_str(&mut v, "<|im_start|>assistant\n");
    from_chars(v.as_slice())
}

/// `s` without every trailing repetition of the non-empty `p` (`trim_end_matches`).
pub open spec fn strip_suffixes(s: Seq<char>, p: Seq<char>) -> Seq<char>
    decreases s.len(),
{
    if p.len() > 0 && ends_with(s, p) {
        strip_suffixes(s.take(s.len() - p.len()), p)
    } else {
        s
    }
}

/// The text of a local answer: the output trimmed, without trailing end-of-turn markers,
/// trimmed again; an error when nothing is left.
pub open spec fn local_answer_of(out: Seq<char>) -> Result<Seq<char>, Seq<char>> {
    let t = trim(strip_suffixes(trim(out), "<|im_end|>"@));
    if t.len() == 0 {
        Err("risposta locale vuota"@)
    } else {
        Ok(t)
    }
}

/// Reads a local answer (see [`local_answer_of`]).
pub fn local_answer(out: &str) -> (r: Result<String, String>)
    ensures
        match (r, local_answer_of(out@)) {
            (Ok(a), Ok(b)) => a@ == b,
            (Err(a), Err(b)) => a@ == b,
            _ => false,
        },
{
    let mut v = trim_exec(&to_chars(out));
    let m = to_chars("<|im_end|>");
    proof {
        reveal_strlit("<|im_end|>");
    }
    while v.len() >= m.len() && ends_with_exec(&v, &m)
        invariant
            m@ == "<|im_end|>"@,
            m.len() == 10,
            strip_suffixes(v@, m@) == strip_suffixes(trim(out@), m@),
        decreases v.len(),
    {
        let cut = v.len() - m.len();
        v = slice(&v, 0, cut);
        assert(v@ =~= v@.take(cut as int));
    }
    proof {
        if !(v.len() >= m.len()) {
            assert(!ends_with(v@, m@));
        }
    }
    let t = trim_exec(&v);
    if t.len() == 0 {
        Err(from_chars(to_chars("risposta locale vuota").as_slice()))
    } else {
        Ok(from_chars(t.as_slice()))
    }
}

/// The text of a cloud answer: the first choice's content, trimmed; an error when it is
/// missing or blank.
pub open spec fn cloud_answer_of(v: serde_json::Value) -> Result<Seq<char>, Seq<char>> {
    let t = match first_message(v) {
        Some(m) => match string_field(m, "content"@) {
            Some(s) => trim(s),
            None => seq![],
        },
        None => seq![],
    };
    if t.len() == 0 {
        Err("risposta cloud vuota"@)
    } else {
        Ok(t)
    }
}

/// Reads a cloud answer (see [`cloud_answer_of`]).
pub fn cloud_answer(v: &serde_json::Value) -> (r: Result<String, String>)
    ensures
        match (r, cloud_answer_of(*v)) {
            (Ok(a), Ok(b)) => a@ == b,
            (Err(a), Err(b)) => a@ == b,
            _ => false,
        },
{
    let t = match first_message_exec(v) {
        Some(m) => match get_string(&m, "content") {
            Some(s) => trim_exec(&to_chars(s.as_str())),
            None => Vec::new(),
        },
        None => Vec::new(),
    };
    if t.len() == 0 {
        Err(from_chars(to_chars("risposta cloud vuota").as_slice()))
    } else {
        Ok(from_chars(t.as_slice()))
    }
}

} // verus!
