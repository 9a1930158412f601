//! Documents for retrieval: recognising PDFs by name, cutting text into sentences and packing
//! sentences into chunks for embedding.
use vstd::prelude::*;
use crate::chars::{
    ends_with, ends_with_exec, to_chars, from_chars, trim, trim_exec, utf8_len,
    utf8_len_capped, utf8_len_capped_wide, append_chars, slice,
};
use crate::lower::{lowercase, str_to_lowercase};

verus! {

/// Whether a file name looks like a PDF: its lowercase form ends with `.pdf`.
pub fn is_pdf(name: &str) -> (r: bool)
    ensures
        r == ends_with(lowercase(name@), ".pdf"@),
{
    let lower = str_to_lowercase(name);
    let l = to_chars(lower.as_str());
    ends_with_exec(&l, &to_chars(".pdf"))
}

pub open spec fn is_terminator(c: char) -> bool {
    c == '.' || c == '!' || c == '?' || c == '\n'
}

/// The sentences of `s`, the current unfinished sentence being `cur`: each ends at a
/// terminator (`.`, `!`, `?` or a newline), which it keeps; blank sentences are dropped.
pub open spec fn sentences_from(s: Seq<char>, cur: Seq<char>) -> Seq<Seq<char>>
    decreases s.len(),
{
    if s.len() == 0 {
        if trim(cur).len() > 0 {
            seq![cur]
        } else {
            seq![]
        }
    } else {
        let c2 = cur.push(s[0]);
        if is_terminator(s[0]) {
            if trim(c2).len() > 0 {
                seq![c2] + sentences_from(s.drop_first(), seq![])
            } else {
                sentences_from(s.drop_first(), seq![])
            }
        } else {
            sentences_from(s.drop_first(), c2)
        }
    }
}

pub open spec fn sentences(s: Seq<char>) -> Seq<Seq<char>> {
    sentences_from(s, seq![])
}

/// The sentences of `v`.
fn sentences_exec(v: &Vec<char>) -> (r: Vec<Vec<char>>)
    ensures
        r.len() == sentences(v@).len(),
        forall|k: int| 0 <= k < r.len() ==> #[trigger] r@[k]@ == sentences(v@)[k],
{
    let mut out: Vec<Vec<char>> = Vec::new();
    let ghost done: Seq<Seq<char>> = seq![];
    let mut cur: Vec<char> = Vec::new();
    let mut i: usize = 0;
    assert(v@.skip(0) =~= v@);
    while i < v.len()
        invariant
            i <= v.len(),
            out.len() == done.len(),
            forall|k: int| 0 <= k < out.len() ==> #[trigger] out@[k]@ == done[k],
            done + sentences_from(v@.skip(i as int), cur@) == sentences(v@),
        decreases v.len() - i,
    {
        let ch = v[i];
        assert(v@.skip(i as int)[0] == ch);
        assert(v@.skip(i as int).drop_first() =~= v@.skip(i + 1));
        cur.push(ch);
        if ch == '.' || ch == '!' || ch == '?' || ch == '\n' {
            let t = trim_exec(&cur);
            if t.len() > 0 {
                proof {
                    let rest = sentences_from(v@.skip(i + 1), seq![]);
                    assert(done + (seq![cur@] + rest) =~= done.push(cur@) + rest);
                    done = done.push(cur@);
                }
                out.push(cur);
            }
            cur = Vec::new();
            assert(cur@ =~= Seq::<char>::empty());
        }
        i = i + 1;
    }
    assert(v@.skip(i as int) =~= Seq::<char>::empty());
    let t = trim_exec(&cur);
    if t.len() > 0 {
        proof {
            assert(done + seq![cur@] =~= done.push(cur@));
            done = done.push(cur@);
        }
        out.push(cur);
    } else {
        assert(done + Seq::<Seq<char>>::empty() =~= done);
    }
    out
}

/// Splits text into sentences, each keeping its terminator (`.`, `!`, `?` or a newline);
/// blank ones are dropped.
pub fn split_sentences(text: &str) -> (r: Vec<String>)
    ensures
        r.len() == sentences(text@).len(),
        forall|k: int| 0 <= k < r.len() ==> #[trigger] r@[k]@ == sentences(text@)[k],
{
    let v = to_chars(text);
    let ss = sentences_exec(&v);
    crate::chars::strings_of(&ss)
}

/// Packing sentences into chunks: the chunks closed so far, the open chunk, and the last
/// sentence.  A chunk is closed (trimmed) when the next sentence would take it over `size`
/// bytes; the next chunk starts with the previous sentence again, for continuity.
pub open spec fn chunk_fold(ss: Seq<Seq<char>>, size: int) -> (Seq<Seq<char>>, Seq<char>, Seq<char>)
    decreases ss.len(),
{
    if ss.len() == 0 {
        (seq![], seq![], seq![])
    } else {
        let prev = chunk_fold(ss.drop_last(), size);
        let s = ss.last();
        if prev.1.len() > 0 && utf8_len(prev.1) + utf8_len(s) > size {
            (prev.0.push(trim(prev.1)), prev.2 + s, s)
        } else {
            (prev.0, prev.1 + s, s)
        }
    }
}

/// The chunks of at least 20 bytes, in order.
pub open spec fn long_chunks(cs: Seq<Seq<char>>) -> Seq<Seq<char>>
    decreases cs.len(),
{
    if cs.len() == 0 {
        seq![]
    } else if utf8_len(trim(cs.last())) >= 20 {
        long_chunks(cs.drop_last()).push(cs.last())
    } else {
        long_chunks(cs.drop_last())
    }
}

proof fn lemma_long_chunks_long(cs: Seq<Seq<char>>)
    ensures
        forall|k: int| 0 <= k < long_chunks(cs).len() ==> utf8_len(trim(#[trigger] long_chunks(cs)[k])) >= 20,
    decreases cs.len(),
{
    if cs.len() > 0 {
        let rest = long_chunks(cs.drop_last());
        lemma_long_chunks_long(cs.drop_last());
        assert forall|k: int| 0 <= k < long_chunks(cs).len() implies utf8_len(
            trim(#[trigger] long_chunks(cs)[k]),
        ) >= 20 by {
            if k < rest.len() {
                assert(long_chunks(cs)[k] == rest[k]);
            }
        }
    }
}

/// The chunks of a text: whole sentences packed up to about `size` bytes, never splitting a
/// sentence, each chunk after the first repeating the previous sentence; chunks under 20 bytes
/// are dropped.
pub open spec fn chunks(text: Seq<char>, size: int) -> Seq<Seq<char>> {
    let f = chunk_fold(sentences(text), size);
    let all = if trim(f.1).len() > 0 {
        f.0.push(trim(f.1))
    } else {
        f.0
    };
    long_chunks(all)
}

/// No chunk is shorter than 20 bytes once trimmed: short leftovers never reach the index.
pub proof fn lemma_chunks_are_long(text: Seq<char>, size: int)
    ensures
        forall|k: int| 0 <= k < chunks(text, size).len() ==> utf8_len(trim(#[trigger] chunks(text, size)[k])) >= 20,
{
    let f = chunk_fold(sentences(text), size);
    let all = if trim(f.1).len() > 0 {
        f.0.push(trim(f.1))
    } else {
        f.0
    };
    lemma_long_chunks_long(all);
}

/// Sentences written one after the other.
pub open spec fn joined(ss: Seq<Seq<char>>) -> Seq<char>
    decreases ss.len(),
{
    if ss.len() == 0 {
        seq![]
    } else {
        joined(ss.drop_last()) + ss.last()
    }
}

/// `c` is a run of whole consecutive sentences of `ss`, trimmed.
pub open spec fn whole_sentences(ss: Seq<Seq<char>>, c: Seq<char>) -> bool {
    exists|a: int, b: int| 0 <= a < b <= ss.len() && c == trim(#[trigger] joined(ss.subrange(a, b)))
}

proof fn lemma_whole_sentences_extend(ss: Seq<Seq<char>>, c: Seq<char>)
    requires
        ss.len() > 0,
        whole_sentences(ss.drop_last(), c),
    ensures
        whole_sentences(ss, c),
{
    let d = ss.drop_last();
    let (a, b) = choose|a: int, b: int| 0 <= a < b <= d.len() && c == trim(#[trigger] joined(d.subrange(a, b)));
    assert(d.subrange(a, b) =~= ss.subrange(a, b));
    assert(c == trim(joined(ss.subrange(a, b))));
}

proof fn lemma_fold_whole(ss: Seq<Seq<char>>, size: int)
    ensures
        forall|k: int| 0 <= k < chunk_fold(ss, size).0.len() ==> whole_sentences(ss, #[trigger] chunk_fold(ss, size).0[k]),
        ss.len() == 0 ==> chunk_fold(ss, size).1 == Seq::<char>::empty(),
        ss.len() > 0 ==> exists|a: int| 0 <= a < ss.len() && chunk_fold(ss, size).1 == #[trigger] joined(ss.subrange(a, ss.len() as int)),
        ss.len() > 0 ==> chunk_fold(ss, size).2 == ss.last(),
    decreases ss.len(),
{
    if ss.len() > 0 {
        let d = ss.drop_last();
        let n = ss.len() as int;
        lemma_fold_whole(d, size);
        let prev = chunk_fold(d, size);
        let f = chunk_fold(ss, size);
        let s = ss.last();
        assert forall|k: int| 0 <= k < prev.0.len() implies whole_sentences(ss, #[trigger] prev.0[k]) by {
            lemma_whole_sentences_extend(ss, prev.0[k]);
        }
        if prev.1.len() > 0 && utf8_len(prev.1) + utf8_len(s) > size {
            let a = choose|a: int| 0 <= a < d.len() && prev.1 == #[trigger] joined(d.subrange(a, d.len() as int));
            assert(d.subrange(a, n - 1) =~= ss.subrange(a, n - 1));
            assert(trim(prev.1) == trim(joined(ss.subrange(a, n - 1))));
            assert(whole_sentences(ss, trim(prev.1)));
            assert forall|k: int| 0 <= k < f.0.len() implies whole_sentences(ss, #[trigger] f.0[k]) by {
                if k < prev.0.len() {
                    assert(f.0[k] == prev.0[k]);
                }
            }
            let two = ss.subrange(n - 2, n);
            assert(two.drop_last() =~= seq![ss[n - 2]]);
            let single = seq![ss[n - 2]];
            assert(single.drop_last() =~= Seq::<Seq<char>>::empty());
            assert(joined(single.drop_last()) == Seq::<char>::empty());
            assert(joined(single) == Seq::<char>::empty() + ss[n - 2]);
            assert(Seq::<char>::empty() + ss[n - 2] =~= ss[n - 2]);
            assert(prev.2 == d.last());
            assert(f.1 == joined(two));
        } else {
            assert(f.0 == prev.0);
            if d.len() == 0 {
                let one = ss.subrange(0, 1);
                assert(one.drop_last() =~= Seq::<Seq<char>>::empty());
                assert(joined(one.drop_last()) == Seq::<char>::empty());
                assert(one.last() == s);
                assert(Seq::<char>::empty() + s =~= s);
                assert(prev.1 + s =~= s);
                assert(f.1 == joined(one));
            } else {
                let a = choose|a: int| 0 <= a < d.len() && prev.1 == #[trigger] joined(d.subrange(a, d.len() as int));
                let r = ss.subrange(a, n);
                assert(r.drop_last() =~= d.subrange(a, d.len() as int));
                assert(r.last() == s);
                assert(f.1 == joined(r));
            }
        }
    }
}

proof fn lemma_long_chunks_from(cs: Seq<Seq<char>>)
    ensures
        forall|k: int| 0 <= k < long_chunks(cs).len() ==> cs.contains(#[trigger] long_chunks(cs)[k]),
    decreases cs.len(),
{
    if cs.len() > 0 {
        let d = cs.drop_last();
        let rest = long_chunks(d);
        lemma_long_chunks_from(d);
        assert forall|k: int| 0 <= k < long_chunks(cs).len() implies cs.contains(#[trigger] long_chunks(cs)[k]) by {
            if k < rest.len() {
                assert(long_chunks(cs)[k] == rest[k]);
                assert(d.contains(rest[k]));
                let j = choose|j: int| 0 <= j < d.len() && d[j] == rest[k];
                assert(cs[j] == rest[k]);
            } else {
                assert(cs[cs.len() - 1] == long_chunks(cs)[k]);
            }
        }
    }
}

/// Chunks never split a sentence: each chunk is a run of whole consecutive sentences of the
/// text, trimmed.
pub proof fn lemma_chunks_keep_sentences_whole(text: Seq<char>, size: int)
    ensures
        forall|k: int| 0 <= k < chunks(text, size).len() ==> whole_sentences(sentences(text), #[trigger] chunks(text, size)[k]),
{
    let ss = sentences(text);
    let f = chunk_fold(ss, size);
    lemma_fold_whole(ss, size);
    let all = if trim(f.1).len() > 0 {
        f.0.push(trim(f.1))
    } else {
        f.0
    };
    assert forall|j: int| 0 <= j < all.len() implies whole_sentences(ss, #[trigger] all[j]) by {
        if j < f.0.len() {
            assert(all[j] == f.0[j]);
        } else {
            assert(all[j] == trim(f.1));
            if ss.len() == 0 {
                assert(trim(f.1).len() == 0);
            }
            let a = choose|a: int| 0 <= a < ss.len() && f.1 == #[trigger] joined(ss.subrange(a, ss.len() as int));
            assert(trim(f.1) == trim(joined(ss.subrange(a, ss.len() as int))));
        }
    }
    lemma_long_chunks_from(all);
    assert forall|k: int| 0 <= k < chunks(text, size).len() implies whole_sentences(ss, #[trigger] chunks(text, size)[k]) by {
        let c = chunks(text, size)[k];
        assert(all.contains(c));
        let j = choose|j: int| 0 <= j < all.len() && all[j] == c;
        assert(whole_sentences(ss, all[j]));
    }
}

/// Chunks a document for retrieval (see [`chunks`]); the overlap is always one sentence.
pub fn chunk_text(text: &str, size: usize, _overlap: usize) -> (r: Vec<String>)
    ensures
        r.len() == chunks(text@, size as int).len(),
        forall|k: int| 0 <= k < r.len() ==> #[trigger] r@[k]@ == chunks(text@, size as int)[k],
{
    let v = to_chars(text);
    let ss = sentences_exec(&v);
    let ghost sv = sentences(text@);
    let mut chunks_v: Vec<Vec<char>> = Vec::new();
    let mut buf: Vec<char> = Vec::new();
    let mut last: Vec<char> = Vec::new();
    let mut k: usize = 0;
    let cap: u128 = (size as u128) + 1;
    while k < ss.len()
        invariant
            k <= ss.len(),
            ss.len() == sv.len(),
            sv == sentences(text@),
            cap == size + 1,
            forall|j: int| 0 <= j < ss.len() ==> #[trigger] ss@[j]@ == sv[j],
            chunks_v.len() == chunk_fold(sv.take(k as int), size as int).0.len(),
            forall|j: int| 0 <= j < chunks_v.len() ==> #[trigger] chunks_v@[j]@ == chunk_fold(
                sv.take(k as int),
                size as int,
            ).0[j],
            buf@ == chunk_fold(sv.take(k as int), size as int).1,
            last@ == chunk_fold(sv.take(k as int), size as int).2,
        decreases ss.len() - k,
    {
        proof {
            assert(sv.take(k + 1).drop_last() =~= sv.take(k as int));
            assert(sv.take(k + 1).last() == ss@[k as int]@);
        }
        let s = &ss[k];
        let over = if buf.len() > 0 {
            let a = utf8_len_capped_wide(&buf, cap);
            let b = utf8_len_capped_wide(s, cap);
            a + b > size as u128
        } else {
            false
        };
        if over {
            let t = trim_exec(&buf);
            let ghost c0 = chunks_v@;
            chunks_v.push(t);
            proof {
                assert forall|j: int| 0 <= j < chunks_v.len() implies #[trigger] chunks_v@[j]@
                    == chunk_fold(sv.take(k + 1), size as int).0[j] by {
                    if j < chunks_v.len() - 1 {
                        assert(chunks_v@[j] == c0[j]);
                    }
                }
            }
            buf = slice(&last, 0, last.len());
            assert(buf@ =~= last@);
        }
        append_chars(&mut buf, s);
        last = slice(s, 0, s.len());
        assert(last@ =~= s@);
        k = k + 1;
    }
    assert(sv.take(ss.len() as int) =~= sv);
    let ghost f = chunk_fold(sv, size as int);
    let tb = trim_exec(&buf);
    if tb.len() > 0 {
        let ghost c0 = chunks_v@;
        chunks_v.push(tb);
        proof {
            assert forall|j: int| 0 <= j < chunks_v.len() implies #[trigger] chunks_v@[j]@
                == f.0.push(trim(f.1))[j] by {
                if j < chunks_v.len() - 1 {
                    assert(chunks_v@[j] == c0[j]);
                }
            }
        }
    }
    let ghost all = if trim(f.1).len() > 0 {
        f.0.push(trim(f.1))
    } else {
        f.0
    };
    let mut r: Vec<String> = Vec::new();
    let mut j: usize = 0;
    while j < chunks_v.len()
        invariant
            j <= chunks_v.len(),
            chunks_v.len() == all.len(),
            forall|q: int| 0 <= q < chunks_v.len() ==> #[trigger] chunks_v@[q]@ == all[q],
            r.len() == long_chunks(all.take(j as int)).len(),
            forall|q: int| 0 <= q < r.len() ==> #[trigger] r@[q]@ == long_chunks(all.take(j as int))[q],
        decreases chunks_v.len() - j,
    {
        proof {
            assert(all.take(j + 1).drop_last() =~= all.take(j as int));
            assert(all.take(j + 1).last() == chunks_v@[j as int]@);
        }
        let t = trim_exec(&chunks_v[j]);
        if utf8_len_capped(&t, 20) >= 20 {
            let ghost r0 = r@;
            r.push(from_chars(chunks_v[j].as_slice()));
            proof {
                assert forall|q: int| 0 <= q < r.len() implies #[trigger] r@[q]@ == long_chunks(
                    all.take(j + 1),
                )[q] by {
                    if q < r.len() - 1 {
                        assert(r@[q] == r0[q]);
                    }
                }
            }
        }
        j = j + 1;
    }
    assert(all.take(chunks_v.len() as int) =~= all);
    r
}

/// The error when a PDF holds no extractable text (a scanned document, most likely).
pub const PDF_WITHOUT_TEXT: &'static str = "PDF senza testo estraibile (forse scansione)";

/// The bytes of an uploaded PDF (a data URL or bare base64), or the error `PDF non valido:` with
/// the decoder's message.
pub fn pdf_bytes(data: &str) -> (r: Result<Vec<u8>, String>)
    ensures
        r matches Ok(b) ==> crate::crypto::base64_decoded(crate::vision::payload_of(data@)) == Some(b@),
        r is Err ==> crate::crypto::base64_decoded(crate::vision::payload_of(data@)) is None,
        r matches Err(e) ==> "PDF non valido: "@.is_prefix_of(e@),
{
    crate::vision::decode_attachment(data, "PDF non valido: ")
}

/// A document passage as it is remembered: labelled with the document's name.
pub fn doc_passage(name: &str, chunk: &str) -> (r: String)
    ensures
        r@ == "[doc:"@ + name@ + "] "@ + chunk@,
{
    let mut v = to_chars("[doc:");
    crate::chars::append_str(&mut v, name);
    crate::chars::append_str(&mut v, "] ");
    crate::chars::append_str(&mut v, chunk);
    from_chars(v.as_slice())
}

} // verus!
