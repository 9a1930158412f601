//! The decisions and prompts around one conversation turn of the local assistant: whether the
//! model reasons, whether the turn is worth a memory recall, the system prompt with what was
//! recalled, the prompts that maintain the memory afterwards (supersession judge, periodic
//! reflection) and the prompt that condenses a conversation.  The model calls, the embeddings
//! and the similarity scores are the application's part.
use vstd::prelude::*;
use crate::chars::{
    to_chars, from_chars, append_str, contains, contains_exec, trim, trim_exec, starts_with,
    starts_with_exec, utf8_len, utf8_len_capped, join, join_exec, is_ws,
};
use crate::lower::{lowercase, str_to_lowercase, uppercase, str_to_uppercase};
use crate::format::{Message, SYSTEM_PROMPT};
use crate::memory::{bullets, push_bullets};

verus! {

/// Whether the model reasons this turn: the user's setting, except for the 1.7B model, whose
/// reasoning output degenerates (its file name, in any case, contains `1.7b`).
pub open spec fn reasons(thinking: bool, model_path: Seq<char>) -> bool {
    thinking && !contains(lowercase(model_path), "1.7b"@)
}

/// Decides whether the model reasons this turn (see [`reasons`]).
pub fn thinking_enabled(thinking: bool, model_path: &str) -> (r: bool)
    ensures
        r == reasons(thinking, model_path@),
{
    if !thinking {
        return false;
    }
    let low = str_to_lowercase(model_path);
    let v = to_chars(low.as_str());
    let n = to_chars("1.7b");
    !contains_exec(&v, &n)
}

/// Trivial turns (fewer than five characters once trimmed, like "ok" or "ciao") get no
/// embedding and no recall.
pub open spec fn recall_worthy(user_msg: Seq<char>) -> bool {
    trim(user_msg).len() >= 5
}

/// Whether the user's message is worth a memory recall (see [`recall_worthy`]).
pub fn worth_recall(user_msg: &str) -> (r: bool)
    ensures
        r == recall_worthy(user_msg@),
{
    let v = to_chars(user_msg);
    trim_exec(&v).len() >= 5
}

/// The system prompt of a turn: the assistant's prompt, the profile block, then the recalled
/// memories and the recalled passages of the user's documents, each under its heading and only
/// when there are some.
pub open spec fn system_text(
    profile: Seq<char>,
    memories: Seq<Seq<char>>,
    documents: Seq<Seq<char>>,
) -> Seq<char> {
    SYSTEM_PROMPT@ + profile + (if memories.len() == 0 {
        seq![]
    } else {
        "\n\nRicordi che potrebbero essere pertinenti (usali con naturalezza solo se davvero utili, non elencarli):\n"@
            + bullets(memories)
    }) + (if documents.len() == 0 {
        seq![]
    } else {
        "\n\nDai documenti che l'utente ha caricato (cita solo se pertinenti):\n"@ + bullets(
            documents,
        )
    })
}

/// Builds the system prompt of a turn (see [`system_text`]).
pub fn chat_system(profile: &str, memories: &Vec<String>, documents: &Vec<String>) -> (r: String)
    ensures
        r@ == system_text(
            profile@,
            memories@.map_values(|s: String| s@),
            documents@.map_values(|s: String| s@),
        ),
{
    let mut p = to_chars(SYSTEM_PROMPT);
    append_str(&mut p, profile);
    if memories.len() > 0 {
        append_str(
            &mut p,
            "\n\nRicordi che potrebbero essere pertinenti (usali con naturalezza solo se davvero utili, non elencarli):\n",
        );
        push_bullets(&mut p, memories);
    }
    if documents.len() > 0 {
        append_str(&mut p, "\n\nDai documenti che l'utente ha caricato (cita solo se pertinenti):\n");
        push_bullets(&mut p, documents);
    }
    let r = from_chars(p.as_slice());
    assert(r@ =~= system_text(
        profile@,
        memories@.map_values(|s: String| s@),
        documents@.map_values(|s: String| s@),
    ));
    r
}

/// The prompt asking the model whether a new fact updates or contradicts an old one on the
/// same topic.
pub open spec fn supersede_text(old_fact: Seq<char>, new_fact: Seq<char>) -> Seq<char> {
    "<|im_start|>user\nFatto VECCHIO: \""@ + old_fact + "\"\nFatto NUOVO: \""@ + new_fact
        + "\"\nIl nuovo AGGIORNA o CONTRADDICE il vecchio (stesso argomento, informazione cambiata)? Rispondi solo SI o NO.<|im_end|>\n<|im_start|>assistant\n"@
}

/// Builds the supersession judge's prompt (see [`supersede_text`]).
pub fn supersede_prompt(old_fact: &str, new_fact: &str) -> (r: String)
    ensures
        r@ == supersede_text(old_fact@, new_fact@),
{
    let mut p = to_chars("<|im_start|>user\nFatto VECCHIO: \"");
    append_str(&mut p, old_fact);
    append_str(&mut p, "\"\nFatto NUOVO: \"");
    append_str(&mut p, new_fact);
    append_str(
        &mut p,
        "\"\nIl nuovo AGGIORNA o CONTRADDICE il vecchio (stesso argomento, informazione cambiata)? Rispondi solo SI o NO.<|im_end|>\n<|im_start|>assistant\n",
    );
    let r = from_chars(p.as_slice());
    assert(r@ =~= supersede_text(old_fact@, new_fact@));
    r
}

/// The judge agrees when its trimmed answer, in upper case, starts with `SI`.
pub open spec fn judge_yes(answer: Seq<char>) -> bool {
    starts_with(uppercase(trim(answer)), "SI"@)
}

/// Reads the supersession judge's answer (see [`judge_yes`]).
pub fn judge_agrees(answer: &str) -> (r: bool)
    ensures
        r == judge_yes(answer@),
{
    let t = from_chars(trim_exec(&to_chars(answer)).as_slice());
    let up = str_to_uppercase(t.as_str());
    let v = to_chars(up.as_str());
    let si = to_chars("SI");
    starts_with_exec(&v, &si)
}

/// Reflection runs every this many turns.
pub const REFLECT_EVERY: i64 = 8;

/// Whether the turn with this number consolidates the recent episodes.
pub fn reflection_due(turn: i64) -> (r: bool)
    ensures
        r == (turn % REFLECT_EVERY == 0),
{
    turn % REFLECT_EVERY == 0
}

/// The episodes, oldest first (they are read newest first).
pub open spec fn oldest_first(episodes: Seq<Seq<char>>) -> Seq<Seq<char>> {
    episodes.reverse()
}

/// The reflection prompt over the recent episodes (newest first): the model extracts a few
/// durable facts from them, oldest first, one per `- ` line.  Fewer than six episodes give no
/// reflection.
pub open spec fn reflection_text(episodes: Seq<Seq<char>>) -> Option<Seq<char>> {
    if episodes.len() < 6 {
        None
    } else {
        Some(
            "<|im_start|>system\nDai messaggi dell'utente qui sotto estrai 1-3 fatti DUREVOLI e importanti su di lui (preferenze, relazioni, abitudini, dati personali stabili). Una riga per fatto, conciso, senza preamboli.<|im_end|>\n<|im_start|>user\n- "@
                + join(oldest_first(episodes), "\n- "@) + "<|im_end|>\n<|im_start|>assistant\n"@,
        )
    }
}

/// Builds the reflection prompt (see [`reflection_text`]).
pub fn reflection_prompt(episodes: &Vec<String>) -> (r: Option<String>)
    ensures
        r matches Some(p) ==> reflection_text(episodes@.map_values(|s: String| s@)) == Some(p@),
        r is None ==> reflection_text(episodes@.map_values(|s: String| s@)) is None,
{
    let ghost ev = episodes@.map_values(|s: String| s@);
    if episodes.len() < 6 {
        return None;
    }
    let mut rev: Vec<Vec<char>> = Vec::new();
    let mut k: usize = episodes.len();
    while k > 0
        invariant
            k <= episodes.len(),
            ev == episodes@.map_values(|s: String| s@),
            rev.len() == episodes.len() - k,
            forall|j: int| 0 <= j < rev.len() ==> #[trigger] rev@[j]@ == ev[ev.len() - 1 - j],
        decreases k,
    {
        k = k - 1;
        rev.push(to_chars(episodes[k].as_str()));
    }
    let sep = to_chars("\n- ");
    let joined = join_exec(&rev, &sep);
    assert(rev@.map_values(|w: Vec<char>| w@) =~= oldest_first(ev));
    let mut p = to_chars(
        "<|im_start|>system\nDai messaggi dell'utente qui sotto estrai 1-3 fatti DUREVOLI e importanti su di lui (preferenze, relazioni, abitudini, dati personali stabili). Una riga per fatto, conciso, senza preamboli.<|im_end|>\n<|im_start|>user\n- ",
    );
    crate::chars::append_chars(&mut p, &joined);
    append_str(&mut p, "<|im_end|>\n<|im_start|>assistant\n");
    let r = from_chars(p.as_slice());
    assert(r@ =~= reflection_text(ev)->0);
    Some(r)
}

/// The pieces of `s` between newlines (`str::split('\n')`).
pub open spec fn lines_of(s: Seq<char>) -> Seq<Seq<char>>
    decreases s.len(),
{
    if s.len() == 0 {
        seq![seq![]]
    } else {
        let r = lines_of(s.drop_last());
        if s.last() == '\n' {
            r.push(seq![])
        } else {
            r.update(r.len() - 1, r.last().push(s.last()))
        }
    }
}

pub proof fn lemma_lines_of_len(s: Seq<char>)
    ensures
        lines_of(s).len() >= 1,
    decreases s.len(),
{
    if s.len() > 0 {
        lemma_lines_of_len(s.drop_last());
    }
}

/// The list markers a reflection line may start with.
pub open spec fn is_bullet(c: char) -> bool {
    c == '-' || c == '•' || c == '*'
}

/// `s` without its leading list markers (`trim_start_matches(['-', '•', '*'])`).
pub open spec fn drop_bullets(s: Seq<char>) -> Seq<char>
    decreases s.len(),
{
    if s.len() > 0 && is_bullet(s[0]) {
        drop_bullets(s.drop_first())
    } else {
        s
    }
}

/// A reflection line cleaned: trimmed, without leading markers, trimmed again.
pub open spec fn clean_line(l: Seq<char>) -> Seq<char> {
    trim(drop_bullets(trim(l)))
}

/// The insights among the cleaned lines: those longer than eight bytes.
pub open spec fn kept_insights(ls: Seq<Seq<char>>) -> Seq<Seq<char>>
    decreases ls.len(),
{
    if ls.len() == 0 {
        seq![]
    } else {
        let rest = kept_insights(ls.drop_last());
        let c = clean_line(ls.last());
        if utf8_len(c) > 8 {
            rest.push(c)
        } else {
            rest
        }
    }
}

/// The insights of the reflection's output: its lines cleaned (see [`clean_line`]), those
/// longer than eight bytes.  (Splitting at `\n` rather than with `str::lines` makes no
/// difference here: a line's trailing `\r` goes with the trimming and a final empty line is
/// dropped as too short.)
pub open spec fn insights_of(out: Seq<char>) -> Seq<Seq<char>> {
    kept_insights(lines_of(out))
}

/// The lines of `v` (see [`lines_of`]).
pub fn lines_exec(v: &Vec<char>) -> (r: Vec<Vec<char>>)
    ensures
        r@.map_values(|w: Vec<char>| w@) == lines_of(v@),
{
    let mut done: Vec<Vec<char>> = Vec::new();
    let mut cur: Vec<char> = Vec::new();
    let mut i: usize = 0;
    while i < v.len()
        invariant
            i <= v.len(),
            done@.map_values(|w: Vec<char>| w@).push(cur@) == lines_of(v@.take(i as int)),
        decreases v.len() - i,
    {
        let ghost before = done@.map_values(|w: Vec<char>| w@).push(cur@);
        proof {
            assert(v@.take(i + 1).drop_last() =~= v@.take(i as int));
            assert(v@.take(i + 1).last() == v@[i as int]);
        }
        if v[i] == '\n' {
            let finished = cur;
            cur = Vec::new();
            done.push(finished);
            assert(done@.map_values(|w: Vec<char>| w@).push(cur@) =~= before.push(seq![]));
        } else {
            cur.push(v[i]);
            assert(done@.map_values(|w: Vec<char>| w@).push(cur@) =~= before.update(
                before.len() - 1,
                before.last().push(v@[i as int]),
            ));
        }
        i = i + 1;
    }
    assert(v@.take(v.len() as int) =~= v@);
    done.push(cur);
    done
}

/// `v` without its leading list markers.
fn drop_bullets_exec(v: &Vec<char>) -> (r: Vec<char>)
    ensures
        r@ == drop_bullets(v@),
{
    let mut i: usize = 0;
    assert(v@.skip(0) =~= v@);
    while i < v.len() && (v[i] == '-' || v[i] == '•' || v[i] == '*')
        invariant
            i <= v.len(),
            drop_bullets(v@.skip(i as int)) == drop_bullets(v@),
        decreases v.len() - i,
    {
        assert(v@.skip(i as int).drop_first() =~= v@.skip(i + 1));
        i = i + 1;
    }
    let mut r: Vec<char> = Vec::new();
    let mut j = i;
    while j < v.len()
        invariant
            i <= j <= v.len(),
            r@ == v@.subrange(i as int, j as int),
        decreases v.len() - j,
    {
        r.push(v[j]);
        j = j + 1;
        assert(r@ =~= v@.subrange(i as int, j as int));
    }
    assert(r@ =~= v@.skip(i as int));
    r
}

/// The insights of the reflection's output (see [`insights_of`]).
pub fn reflection_insights(out: &str) -> (r: Vec<String>)
    ensures
        r.len() == insights_of(out@).len(),
        forall|k: int| 0 <= k < r.len() ==> #[trigger] r@[k]@ == insights_of(out@)[k],
{
    let v = to_chars(out);
    let lines = lines_exec(&v);
    let ghost lv = lines@.map_values(|w: Vec<char>| w@);
    let mut r: Vec<String> = Vec::new();
    let mut k: usize = 0;
    while k < lines.len()
        invariant
            k <= lines.len(),
            lv == lines@.map_values(|w: Vec<char>| w@),
            lv == lines_of(v@),
            v@ == out@,
            r.len() == kept_insights(lv.take(k as int)).len(),
            forall|j: int| 0 <= j < r.len() ==> #[trigger] r@[j]@ == kept_insights(lv.take(k as int))[j],
        decreases lines.len() - k,
    {
        proof {
            assert(lv.take(k + 1).drop_last() =~= lv.take(k as int));
            assert(lv.take(k + 1).last() == lines@[k as int]@);
        }
        let c = trim_exec(&drop_bullets_exec(&trim_exec(&lines[k])));
        if utf8_len_capped(&c, 9) > 8 {
            r.push(from_chars(c.as_slice()));
        }
        k = k + 1;
    }
    assert(lv.take(lines.len() as int) =~= lv);
    r
}

/// A conversation line for the summary: `Utente:` or `Liara:` and the content.
pub open spec fn dialogue_line(m: Message) -> Seq<char> {
    (if m.role@ == "user"@ {
        "Utente"@
    } else {
        "Liara"@
    }) + ": "@ + m.content@
}

/// The user's and the assistant's messages as conversation lines (others are left out).
pub open spec fn dialogue(msgs: Seq<Message>) -> Seq<Seq<char>>
    decreases msgs.len(),
{
    if msgs.len() == 0 {
        seq![]
    } else {
        let rest = dialogue(msgs.drop_last());
        let m = msgs.last();
        if m.role@ == "user"@ || m.role@ == "assistant"@ {
            rest.push(dialogue_line(m))
        } else {
            rest
        }
    }
}

/// The prompt that condenses a conversation faithfully, with an empty reasoning block so the
/// model answers directly.
pub open spec fn summary_text(msgs: Seq<Message>) -> Seq<char> {
    "<|im_start|>system\nRiassumi FEDELMENTE la conversazione seguente: conserva fatti, nomi, numeri, date, decisioni e il filo del discorso. Conciso, in terza persona, in italiano. Non inventare nulla, non aggiungere commenti.<|im_end|>\n<|im_start|>user\n"@
        + join(dialogue(msgs), "\n\n"@)
        + "<|im_end|>\n<|im_start|>assistant\n<think>\n\n</think>\n\n"@
}

fn role_is(m: &Message, w: &str) -> (r: bool)
    ensures
        r == (m.role@ == w@),
{
    let a = to_chars(m.role.as_str());
    let b = to_chars(w);
    crate::chars::chars_eq(&a, &b)
}

/// Builds the prompt that condenses a conversation (see [`summary_text`]).
pub fn summary_prompt(messages: &Vec<Message>) -> (r: String)
    ensures
        r@ == summary_text(messages@),
{
    let mut lines: Vec<Vec<char>> = Vec::new();
    let mut k: usize = 0;
    while k < messages.len()
        invariant
            k <= messages.len(),
            lines@.map_values(|w: Vec<char>| w@) == dialogue(messages@.take(k as int)),
        decreases messages.len() - k,
    {
        proof {
            assert(messages@.take(k + 1).drop_last() =~= messages@.take(k as int));
            assert(messages@.take(k + 1).last() == messages@[k as int]);
        }
        let m = &messages[k];
        let is_user = role_is(m, "user");
        if is_user || role_is(m, "assistant") {
            let mut line = if is_user {
                to_chars("Utente")
            } else {
                to_chars("Liara")
            };
            append_str(&mut line, ": ");
            append_str(&mut line, m.content.as_str());
            let ghost before = lines@.map_values(|w: Vec<char>| w@);
            assert(line@ =~= dialogue_line(*m));
            lines.push(line);
            assert(lines@.map_values(|w: Vec<char>| w@) =~= before.push(dialogue_line(*m)));
        }
        k = k + 1;
    }
    assert(messages@.take(messages.len() as int) =~= messages@);
    let sep = to_chars("\n\n");
    let convo = join_exec(&lines, &sep);
    let mut p = to_chars(
        "<|im_start|>system\nRiassumi FEDELMENTE la conversazione seguente: conserva fatti, nomi, numeri, date, decisioni e il filo del discorso. Conciso, in terza persona, in italiano. Non inventare nulla, non aggiungere commenti.<|im_end|>\n<|im_start|>user\n",
    );
    crate::chars::append_chars(&mut p, &convo);
    append_str(&mut p, "<|im_end|>\n<|im_start|>assistant\n<think>\n\n</think>\n\n");
    let r = from_chars(p.as_slice());
    assert(r@ =~= summary_text(messages@));
    r
}

} // verus!
