//! Speech around the models: post-processing of dictated text (Whisper's punctuation is weak
//! in Italian, so a `?` is added when the utterance clearly reads as a question), the minimum
//! length and trailing silence of a recording, and the WAV encoding of synthesised speech.
use vstd::prelude::*;
use crate::chars::{
    ends_with, ends_with_exec, starts_with, starts_with_exec, to_chars, from_chars, trim,
    trim_exec, words, words_exec, chars_eq, append_str, is_ws, trim_start, trim_end, lemma_trim_idempotent,
    lemma_trim_ends,
};
use crate::lower::{lowercase, str_to_lowercase};

verus! {

/// Italian interrogatives that, starting the phrase, signal a question.
pub open spec fn question_starts() -> Seq<Seq<char>> {
    seq![
        "chi"@, "che"@, "cosa"@, "come"@, "com'"@, "cos'"@, "dove"@, "dov'"@, "quando"@,
        "perché"@, "perche"@, "perchè"@, "quale"@, "quali"@, "qual"@, "quanto"@, "quanta"@,
        "quanti"@, "quante"@, "quant'"@, "puoi"@, "può"@, "puo"@, "sai"@, "saresti"@,
        "potresti"@, "hai"@, "vuoi"@, "mi dici"@, "mi sai"@, "ci sono"@,
    ]
}

fn question_starts_exec() -> (r: Vec<Vec<char>>)
    ensures
        r@.map_values(|w: Vec<char>| w@) == question_starts(),
{
    let r = vec![
        to_chars("chi"), to_chars("che"), to_chars("cosa"), to_chars("come"), to_chars("com'"),
        to_chars("cos'"), to_chars("dove"), to_chars("dov'"), to_chars("quando"),
        to_chars("perché"), to_chars("perche"), to_chars("perchè"), to_chars("quale"),
        to_chars("quali"), to_chars("qual"), to_chars("quanto"), to_chars("quanta"),
        to_chars("quanti"), to_chars("quante"), to_chars("quant'"), to_chars("puoi"),
        to_chars("può"), to_chars("puo"), to_chars("sai"), to_chars("saresti"),
        to_chars("potresti"), to_chars("hai"), to_chars("vuoi"), to_chars("mi dici"),
        to_chars("mi sai"), to_chars("ci sono"),
    ];
    assert(r@.map_values(|w: Vec<char>| w@) =~= question_starts());
    r
}

/// The first word of `s` (empty when there is none).
pub open spec fn first_word(s: Seq<char>) -> Seq<char> {
    if words(s).len() > 0 {
        words(s)[0]
    } else {
        seq![]
    }
}

/// A lowercased phrase starts with the interrogative `w`: as its whole first word, followed
/// by a space (which covers two-word starters), or, for an elided one ending in an apostrophe
/// (`dov'`), directly followed by the next word (`dov'è`).
pub open spec fn starts_with_starter(lower: Seq<char>, w: Seq<char>) -> bool {
    first_word(lower) == w || starts_with(lower, w + " "@) || (ends_with(w, "'"@) && starts_with(lower, w))
}

/// A lowercased phrase reads as a question: it starts with one of the interrogatives.
pub open spec fn reads_as_question(lower: Seq<char>) -> bool {
    exists|i: int| 0 <= i < question_starts().len() && starts_with_starter(lower, #[trigger] question_starts()[i])
}

/// The dictated text trimmed, with a `?` appended when it reads as a question and has no
/// ending punctuation.
pub open spec fn punctuated(text: Seq<char>) -> Seq<char> {
    let t = trim(text);
    if t.len() == 0 || ends_with(t, seq!['?']) || ends_with(t, seq!['!']) || ends_with(t, seq!['.']) {
        t
    } else if reads_as_question(lowercase(t)) {
        t + seq!['?']
    } else {
        t
    }
}

/// Punctuating twice is punctuating once: dictated text that already went through it is kept
/// as it is.
pub proof fn lemma_punctuated_idempotent(text: Seq<char>)
    ensures
        punctuated(punctuated(text)) == punctuated(text),
{
    let t = trim(text);
    lemma_trim_idempotent(text);
    lemma_trim_ends(text);
    let p = punctuated(text);
    if p != t {
        let q = t + seq!['?'];
        assert(p == q);
        assert(!is_ws('?'));
        assert(q[0] == t[0]);
        assert(trim_start(q) == q);
        assert(q.last() == '?');
        assert(trim_end(q) == q);
        assert(trim(q) == q);
        assert(ends_with(q, seq!['?'])) by {
            assert(q.skip(q.len() - 1) =~= seq!['?']);
        }
    }
}

/// Appends `?` to dictated text that looks like a question (see [`punctuated`]).
pub fn punctuate_question(text: &str) -> (r: String)
    ensures
        r@ == punctuated(text@),
{
    let v = to_chars(text);
    let t = trim_exec(&v);
    let q = vec!['?'];
    let x = vec!['!'];
    let d = vec!['.'];
    assert(q@ =~= seq!['?']);
    assert(x@ =~= seq!['!']);
    assert(d@ =~= seq!['.']);
    if t.len() == 0 || ends_with_exec(&t, &q) || ends_with_exec(&t, &x) || ends_with_exec(&t, &d) {
        return from_chars(t.as_slice());
    }
    let ts = from_chars(t.as_slice());
    let lower_s = str_to_lowercase(ts.as_str());
    let lower = to_chars(lower_s.as_str());
    let ws = words_exec(&lower);
    let first: Vec<char> = if ws.len() > 0 {
        crate::chars::slice(&ws[0], 0, ws[0].len())
    } else {
        Vec::new()
    };
    assert(first@ =~= first_word(lower@));
    let starts = question_starts_exec();
    let ghost sv = starts@.map_values(|w: Vec<char>| w@);
    let mut looks = false;
    let mut k: usize = 0;
    while k < starts.len()
        invariant
            k <= starts.len(),
            sv == starts@.map_values(|w: Vec<char>| w@),
            sv == question_starts(),
            first@ == first_word(lower@),
            looks == exists|i: int| 0 <= i < k && starts_with_starter(lower@, #[trigger] question_starts()[i]),
        decreases starts.len() - k,
    {
        assert(sv[k as int] == starts@[k as int]@);
        let ghost qk = question_starts()[k as int];
        let wk = crate::chars::slice(&starts[k], 0, starts[k].len());
        assert(wk@ =~= qk);
        let same = chars_eq(&first, &wk);
        assert(same == (first_word(lower@) == qk));
        let mut w = crate::chars::slice(&wk, 0, wk.len());
        assert(w@ =~= wk@);
        append_str(&mut w, " ");
        let pre = starts_with_exec(&lower, &w);
        assert(pre == starts_with(lower@, qk + " "@));
        let apos = vec!['\''];
        assert(apos@ =~= "'"@) by {
            reveal_strlit("'");
        }
        let elided = ends_with_exec(&wk, &apos) && starts_with_exec(&lower, &wk);
        assert(same || pre || elided <==> starts_with_starter(lower@, qk));
        let ghost old_looks = looks;
        if same || pre || elided {
            looks = true;
        }
        proof {
            if !old_looks && !(same || pre || elided) {
                assert forall|i: int| 0 <= i < k + 1 implies !starts_with_starter(lower@, #[trigger] question_starts()[i]) by {
                    if i == k {
                        assert(question_starts()[i] == qk);
                    }
                }
            }
            if same || pre || elided {
                assert(0 <= k < k + 1 && starts_with_starter(lower@, question_starts()[k as int]));
            }
        }
        k = k + 1;
    }
    if looks {
        let mut r = slice_all(&t);
        r.push('?');
        assert(r@ =~= t@ + seq!['?']);
        from_chars(r.as_slice())
    } else {
        ts
    }
}

fn slice_all(v: &Vec<char>) -> (r: Vec<char>)
    ensures
        r@ == v@,
{
    crate::chars::slice(v, 0, v.len())
}

/// A recording shorter than a quarter of a second is not transcribed.
pub fn long_enough(samples: usize, rate: u32) -> (r: bool)
    ensures
        r == (samples >= rate / 4),
{
    samples >= (rate / 4) as usize
}

/// The silence appended after a recording before transcription: three fifths of a second.
pub fn trailing_silence(rate: u32) -> (r: usize)
    ensures
        r == rate * 3 / 5,
{
    (rate as u64 * 3 / 5) as usize
}

/// The little-endian bytes of a 32-bit value.
pub open spec fn le32(x: u32) -> Seq<u8> {
    seq![(x % 256) as u8, (x / 256 % 256) as u8, (x / 65536 % 256) as u8, (x / 16777216) as u8]
}

/// The little-endian bytes of a 16-bit value.
pub open spec fn le16(x: u16) -> Seq<u8> {
    seq![(x % 256) as u8, (x / 256) as u8]
}

/// The samples as 16-bit little-endian PCM.
pub open spec fn pcm_bytes(samples: Seq<i16>) -> Seq<u8>
    decreases samples.len(),
{
    if samples.len() == 0 {
        seq![]
    } else {
        pcm_bytes(samples.drop_last()) + le16(samples.last() as u16)
    }
}

/// A mono 16-bit PCM WAV file: the 44-byte RIFF header for `n` samples at `rate`, then the
/// samples.
pub open spec fn wav_bytes(samples: Seq<i16>, rate: u32) -> Seq<u8> {
    let data_len = (samples.len() * 2) as u32;
    "RIFF"@.map_values(|c: char| c as u8) + le32((36 + data_len) as u32) + "WAVE"@.map_values(
        |c: char| c as u8,
    ) + "fmt "@.map_values(|c: char| c as u8) + le32(16) + le16(1) + le16(1) + le32(rate) + le32(
        (rate * 2) as u32,
    ) + le16(2) + le16(16) + "data"@.map_values(|c: char| c as u8) + le32(data_len) + pcm_bytes(
        samples,
    )
}

fn push_le32(w: &mut Vec<u8>, x: u32)
    ensures
        final(w)@ == old(w)@ + le32(x),
{
    let ghost w0 = w@;
    w.push((x % 256) as u8);
    w.push((x / 256 % 256) as u8);
    w.push((x / 65536 % 256) as u8);
    w.push((x / 16777216) as u8);
    assert(w@ =~= w0 + le32(x));
}

fn push_le16(w: &mut Vec<u8>, x: u16)
    ensures
        final(w)@ == old(w)@ + le16(x),
{
    let ghost w0 = w@;
    w.push((x % 256) as u8);
    w.push((x / 256) as u8);
    assert(w@ =~= w0 + le16(x));
}

fn push_tag(w: &mut Vec<u8>, a: u8, b: u8, c: u8, d: u8)
    ensures
        final(w)@ == old(w)@ + seq![a, b, c, d],
{
    let ghost w0 = w@;
    w.push(a);
    w.push(b);
    w.push(c);
    w.push(d);
    assert(w@ =~= w0 + seq![a, b, c, d]);
}

/// Encodes synthesised speech as a WAV file (see [`wav_bytes`]); the samples are already 16-bit.
pub fn wav_from_pcm16(samples: &[i16], rate: u32) -> (r: Vec<u8>)
    requires
        samples.len() * 2 + 36 <= u32::MAX,
        rate * 2 <= u32::MAX,
    ensures
        r@ == wav_bytes(samples@, rate),
{
    proof {
        reveal_strlit("RIFF");
        reveal_strlit("WAVE");
        reveal_strlit("fmt ");
        reveal_strlit("data");
    }
    let data_len = (samples.len() * 2) as u32;
    let mut w: Vec<u8> = Vec::new();
    push_tag(&mut w, 82, 73, 70, 70);
    push_le32(&mut w, 36 + data_len);
    push_tag(&mut w, 87, 65, 86, 69);
    push_tag(&mut w, 102, 109, 116, 32);
    push_le32(&mut w, 16);
    push_le16(&mut w, 1);
    push_le16(&mut w, 1);
    push_le32(&mut w, rate);
    push_le32(&mut w, rate * 2);
    push_le16(&mut w, 2);
    push_le16(&mut w, 16);
    push_tag(&mut w, 100, 97, 116, 97);
    push_le32(&mut w, data_len);
    let ghost head = w@;
    let mut k: usize = 0;
    while k < samples.len()
        invariant
            k <= samples.len(),
            w@ == head + pcm_bytes(samples@.take(k as int)),
        decreases samples.len() - k,
    {
        proof {
            assert(samples@.take(k + 1).drop_last() =~= samples@.take(k as int));
            assert(samples@.take(k + 1).last() == samples@[k as int]);
        }
        push_le16(&mut w, samples[k] as u16);
        k = k + 1;
        assert(w@ =~= head + pcm_bytes(samples@.take(k as int)));
    }
    assert(samples@.take(samples.len() as int) =~= samples@);
    proof {
        assert("RIFF"@.map_values(|c: char| c as u8) =~= seq![82u8, 73, 70, 70]);
        assert("WAVE"@.map_values(|c: char| c as u8) =~= seq![87u8, 65, 86, 69]);
        assert("fmt "@.map_values(|c: char| c as u8) =~= seq![102u8, 109, 116, 32]);
        assert("data"@.map_values(|c: char| c as u8) =~= seq![100u8, 97, 116, 97]);
    }
    assert(w@ =~= wav_bytes(samples@, rate));
    w
}

} // verus!
