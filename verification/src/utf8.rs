//! Incremental UTF-8 decoding of the model's token bytes.
//!
//! A token may end in the middle of a multi-byte character: bytes are buffered and only
//! complete characters are emitted.  A byte sequence that can never become valid is dropped
//! (with the length std's validator assigns to it) and decoding goes on, so the stream never
//! jams; an incomplete character at the end is kept for the next bytes.
use vstd::prelude::*;
use crate::chars::from_chars;
use vstd::utf8::{
    encode_utf8, decode_utf8, valid_utf8, encode_scalar, has_width_1_encoding, has_width_2_encoding,
    has_width_3_encoding, has_width_4_encoding, leading_byte_width_1, leading_byte_width_2,
    leading_byte_width_3, leading_byte_width_4, last_continuation_byte, second_last_continuation_byte,
    third_last_continuation_byte, char_is_scalar, char_u32_cast, decode_utf8_encode_utf8,
};

verus! {

pub open spec fn is_cont(b: u8) -> bool {
    0x80 <= b <= 0xbf
}

/// The second byte of a three-byte character, as std's validator accepts it after `b0`.
pub open spec fn second_ok3(b0: u8, b1: u8) -> bool {
    (b0 == 0xe0 && 0xa0 <= b1 <= 0xbf) || (0xe1 <= b0 <= 0xec && is_cont(b1)) || (b0 == 0xed && 0x80
        <= b1 <= 0x9f) || (0xee <= b0 <= 0xef && is_cont(b1))
}

/// The second byte of a four-byte character, as std's validator accepts it after `b0`.
pub open spec fn second_ok4(b0: u8, b1: u8) -> bool {
    (b0 == 0xf0 && 0x90 <= b1 <= 0xbf) || (0xf1 <= b0 <= 0xf3 && is_cont(b1)) || (b0 == 0xf4 && 0x80
        <= b1 <= 0x8f)
}

/// What the bytes at the front of a buffer hold.
pub enum Utf8Step {
    /// A character, encoded in `n` bytes.
    Char(char, nat),
    /// An invalid sequence of `n` bytes (std's `Utf8Error::error_len`).
    Invalid(nat),
    /// The start of a character whose remaining bytes have not arrived.
    Partial,
}

/// The front of a non-empty byte buffer, read as std's UTF-8 validator reads it.
pub open spec fn utf8_step(b: Seq<u8>) -> Utf8Step {
    let b0 = b[0];
    if b0 < 0x80 {
        Utf8Step::Char(b0 as char, 1)
    } else if 0xc2 <= b0 <= 0xdf {
        if b.len() < 2 {
            Utf8Step::Partial
        } else if !is_cont(b[1]) {
            Utf8Step::Invalid(1)
        } else {
            Utf8Step::Char(((b0 - 0xc0) * 64 + (b[1] - 0x80)) as char, 2)
        }
    } else if 0xe0 <= b0 <= 0xef {
        if b.len() < 2 {
            Utf8Step::Partial
        } else if !second_ok3(b0, b[1]) {
            Utf8Step::Invalid(1)
        } else if b.len() < 3 {
            Utf8Step::Partial
        } else if !is_cont(b[2]) {
            Utf8Step::Invalid(2)
        } else {
            Utf8Step::Char(
                ((b0 - 0xe0) * 4096 + (b[1] - 0x80) * 64 + (b[2] - 0x80)) as char,
                3,
            )
        }
    } else if 0xf0 <= b0 <= 0xf4 {
        if b.len() < 2 {
            Utf8Step::Partial
        } else if !second_ok4(b0, b[1]) {
            Utf8Step::Invalid(1)
        } else if b.len() < 3 {
            Utf8Step::Partial
        } else if !is_cont(b[2]) {
            Utf8Step::Invalid(2)
        } else if b.len() < 4 {
            Utf8Step::Partial
        } else if !is_cont(b[3]) {
            Utf8Step::Invalid(3)
        } else {
            Utf8Step::Char(
                ((b0 - 0xf0) * 262144 + (b[1] - 0x80) * 4096 + (b[2] - 0x80) * 64 + (b[3]
                    - 0x80)) as char,
                4,
            )
        }
    } else {
        Utf8Step::Invalid(1)
    }
}

/// The width a step consumes (none for a partial character).
pub open spec fn step_len(s: Utf8Step) -> nat {
    match s {
        Utf8Step::Char(_, n) => n,
        Utf8Step::Invalid(n) => n,
        Utf8Step::Partial => 0,
    }
}

pub proof fn lemma_step_len(b: Seq<u8>)
    requires
        b.len() > 0,
    ensures
        utf8_step(b) is Partial || (1 <= step_len(utf8_step(b)) <= b.len()),
{
}

/// Decodes a buffer: the characters it holds (invalid sequences dropped) and the incomplete
/// character left at its end.
pub open spec fn drain(b: Seq<u8>) -> (Seq<char>, Seq<u8>)
    decreases b.len(),
{
    if b.len() == 0 {
        (seq![], seq![])
    } else {
        match utf8_step(b) {
            Utf8Step::Partial => (seq![], b),
            Utf8Step::Char(c, n) => if 1 <= n <= b.len() {
                let rest = drain(b.skip(n as int));
                (seq![c] + rest.0, rest.1)
            } else {
                (seq![], b)
            },
            Utf8Step::Invalid(n) => if 1 <= n <= b.len() {
                drain(b.skip(n as int))
            } else {
                (seq![], b)
            },
        }
    }
}

/// `char::from_u32`: the character with the given code point, if it is a Unicode scalar value.
#[verifier::external_body]
fn char_from_u32(u: u32) -> (r: Option<char>)
    ensures
        r matches Some(c) ==> c as u32 == u,
        r is None <==> (u > 0x10ffff || (0xd800 <= u <= 0xdfff)),
{
    char::from_u32(u)
}

/// The front of `buf[i..]`, computed.
fn step_exec(buf: &Vec<u8>, i: usize) -> (r: (u8, char, usize))
    requires
        i < buf.len(),
    ensures
        r.0 == 0 ==> utf8_step(buf@.skip(i as int)) == Utf8Step::Char(r.1, r.2 as nat),
        r.0 == 1 ==> utf8_step(buf@.skip(i as int)) == Utf8Step::Invalid(r.2 as nat),
        r.0 == 2 ==> utf8_step(buf@.skip(i as int)) is Partial,
        r.0 <= 2,
{
    let ghost b = buf@.skip(i as int);
    let n = buf.len() - i;
    let b0 = buf[i];
    assert(b[0] == b0);
    if b0 < 0x80 {
        return (0, b0 as char, 1);
    }
    if 0xc2 <= b0 && b0 <= 0xdf {
        if n < 2 {
            return (2, ' ', 0);
        }
        let b1 = buf[i + 1];
        assert(b[1] == b1);
        if !(0x80 <= b1 && b1 <= 0xbf) {
            return (1, ' ', 1);
        }
        let cp: u32 = ((b0 - 0xc0) as u32) * 64 + ((b1 - 0x80) as u32);
        match char_from_u32(cp) {
            Some(c) => {
                proof {
                    vstd::utf8::char_u32_cast(c, cp);
                }
                assert(c == cp as char);
                return (0, c, 2);
            },
            None => {
                assert(false);
                return (1, ' ', 1);
            },
        }
    }
    if 0xe0 <= b0 && b0 <= 0xef {
        if n < 2 {
            return (2, ' ', 0);
        }
        let b1 = buf[i + 1];
        assert(b[1] == b1);
        let ok = (b0 == 0xe0 && 0xa0 <= b1 && b1 <= 0xbf) || (0xe1 <= b0 && b0 <= 0xec && 0x80
            <= b1 && b1 <= 0xbf) || (b0 == 0xed && 0x80 <= b1 && b1 <= 0x9f) || (0xee <= b0 && b0
            <= 0xef && 0x80 <= b1 && b1 <= 0xbf);
        if !ok {
            return (1, ' ', 1);
        }
        if n < 3 {
            return (2, ' ', 0);
        }
        let b2 = buf[i + 2];
        assert(b[2] == b2);
        if !(0x80 <= b2 && b2 <= 0xbf) {
            return (1, ' ', 2);
        }
        let cp: u32 = ((b0 - 0xe0) as u32) * 4096 + ((b1 - 0x80) as u32) * 64 + ((b2
            - 0x80) as u32);
        match char_from_u32(cp) {
            Some(c) => {
                proof {
                    vstd::utf8::char_u32_cast(c, cp);
                }
                assert(c == cp as char);
                return (0, c, 3);
            },
            None => {
                assert(false);
                return (1, ' ', 1);
            },
        }
    }
    if 0xf0 <= b0 && b0 <= 0xf4 {
        if n < 2 {
            return (2, ' ', 0);
        }
        let b1 = buf[i + 1];
        assert(b[1] == b1);
        let ok = (b0 == 0xf0 && 0x90 <= b1 && b1 <= 0xbf) || (0xf1 <= b0 && b0 <= 0xf3 && 0x80
            <= b1 && b1 <= 0xbf) || (b0 == 0xf4 && 0x80 <= b1 && b1 <= 0x8f);
        if !ok {
            return (1, ' ', 1);
        }
        if n < 3 {
            return (2, ' ', 0);
        }
        let b2 = buf[i + 2];
        assert(b[2] == b2);
        if !(0x80 <= b2 && b2 <= 0xbf) {
            return (1, ' ', 2);
        }
        if n < 4 {
            return (2, ' ', 0);
        }
        let b3 = buf[i + 3];
        assert(b[3] == b3);
        if !(0x80 <= b3 && b3 <= 0xbf) {
            return (1, ' ', 3);
        }
        let cp: u32 = ((b0 - 0xf0) as u32) * 262144 + ((b1 - 0x80) as u32) * 4096 + ((b2
            - 0x80) as u32) * 64 + ((b3 - 0x80) as u32);
        match char_from_u32(cp) {
            Some(c) => {
                proof {
                    vstd::utf8::char_u32_cast(c, cp);
                }
                assert(c == cp as char);
                return (0, c, 4);
            },
            None => {
                assert(false);
                return (1, ' ', 1);
            },
        }
    }
    (1, ' ', 1)
}

/// Decodes `buf`: the characters and the index where an incomplete character starts (the
/// buffer's length when there is none).
fn drain_exec(buf: &Vec<u8>) -> (r: (Vec<char>, usize))
    ensures
        r.1 <= buf.len(),
        drain(buf@) == (r.0@, buf@.skip(r.1 as int)),
{
    let mut out: Vec<char> = Vec::new();
    let mut i: usize = 0;
    assert(buf@.skip(0) =~= buf@);
    while i < buf.len()
        invariant
            i <= buf.len(),
            drain(buf@) == (out@ + drain(buf@.skip(i as int)).0, drain(buf@.skip(i as int)).1),
        decreases buf.len() - i,
    {
        let ghost b = buf@.skip(i as int);
        proof {
            lemma_step_len(b);
        }
        let (kind, c, n) = step_exec(buf, i);
        if kind == 2 {
            assert(drain(b) == (Seq::<char>::empty(), b));
            assert(out@ + Seq::<char>::empty() =~= out@);
            return (out, i);
        }
        assert(b.skip(n as int) =~= buf@.skip(i + n));
        if kind == 0 {
            let ghost o0 = out@;
            out.push(c);
            assert(o0 + (seq![c] + drain(b.skip(n as int)).0) =~= out@ + drain(b.skip(n as int)).0);
        }
        i = i + n;
    }
    proof {
        assert(buf@.skip(i as int) =~= Seq::<u8>::empty());
        assert(out@ + Seq::<char>::empty() =~= out@);
    }
    (out, i)
}

/// Incremental UTF-8 decoder for a stream of token bytes.
pub struct Utf8Stream {
    buf: Vec<u8>,
}

impl View for Utf8Stream {
    type V = Seq<u8>;

    /// The bytes of an incomplete character held back.
    closed spec fn view(&self) -> Seq<u8> {
        self.buf@
    }
}

impl Utf8Stream {
    /// A decoder holding no bytes.
    pub fn new() -> (r: Self)
        ensures
            r@ == Seq::<u8>::empty(),
    {
        Utf8Stream { buf: Vec::new() }
    }

    /// Adds a token's bytes and returns the text that can be shown now: every complete
    /// character of the buffer, invalid sequences dropped; an incomplete character at the end
    /// is kept for the next call.
    pub fn push(&mut self, bytes: &[u8]) -> (out: String)
        ensures
            (out@, final(self)@) == drain(old(self)@ + bytes@),
    {
        let mut i: usize = 0;
        let ghost b0 = self.buf@;
        while i < bytes.len()
            invariant
                i <= bytes.len(),
                self.buf@ == b0 + bytes@.take(i as int),
            decreases bytes.len() - i,
        {
            self.buf.push(bytes[i]);
            i = i + 1;
            assert(self.buf@ =~= b0 + bytes@.take(i as int));
        }
        assert(bytes@.take(bytes.len() as int) =~= bytes@);
        let (chars, keep) = drain_exec(&self.buf);
        let mut rest: Vec<u8> = Vec::new();
        let mut j = keep;
        while j < self.buf.len()
            invariant
                keep <= j <= self.buf.len(),
                rest@ == self.buf@.subrange(keep as int, j as int),
            decreases self.buf.len() - j,
        {
            rest.push(self.buf[j]);
            j = j + 1;
            assert(rest@ =~= self.buf@.subrange(keep as int, j as int));
        }
        assert(rest@ =~= self.buf@.skip(keep as int));
        self.buf = rest;
        from_chars(chars.as_slice())
    }
}

/// The decoding of the concatenation, read from the front, is the decoding of what comes first
/// followed by the decoding of its leftover with the rest.
proof fn lemma_step_append(a: Seq<u8>, b: Seq<u8>)
    requires
        a.len() > 0,
        !(utf8_step(a) is Partial),
    ensures
        utf8_step(a + b) == utf8_step(a),
{
    let ab = a + b;
    assert(ab[0] == a[0]);
    if a.len() >= 2 {
        assert(ab[1] == a[1]);
    }
    if a.len() >= 3 {
        assert(ab[2] == a[2]);
    }
    if a.len() >= 4 {
        assert(ab[3] == a[3]);
    }
}

/// Decoding `a` and then its leftover with `b` is decoding `a + b`.
pub proof fn lemma_drain_append(a: Seq<u8>, b: Seq<u8>)
    ensures
        drain(a + b) == (drain(a).0 + drain(drain(a).1 + b).0, drain(drain(a).1 + b).1),
    decreases a.len(),
{
    if a.len() == 0 {
        assert(a + b =~= b);
        assert(Seq::<u8>::empty() + b =~= b);
        assert(Seq::<char>::empty() + drain(b).0 =~= drain(b).0);
    } else {
        lemma_step_len(a);
        match utf8_step(a) {
            Utf8Step::Partial => {
                assert(Seq::<char>::empty() + drain(a + b).0 =~= drain(a + b).0);
            },
            Utf8Step::Char(c, n) => {
                lemma_step_append(a, b);
                assert((a + b).skip(n as int) =~= a.skip(n as int) + b);
                lemma_drain_append(a.skip(n as int), b);
                let r = drain(a.skip(n as int));
                assert(seq![c] + (r.0 + drain(r.1 + b).0) =~= (seq![c] + r.0) + drain(r.1 + b).0);
            },
            Utf8Step::Invalid(n) => {
                lemma_step_append(a, b);
                assert((a + b).skip(n as int) =~= a.skip(n as int) + b);
                lemma_drain_append(a.skip(n as int), b);
            },
        }
    }
}

/// All the bytes of a stream, in order.
pub open spec fn byte_concat(pieces: Seq<Seq<u8>>) -> Seq<u8>
    decreases pieces.len(),
{
    if pieces.len() == 0 {
        seq![]
    } else {
        byte_concat(pieces.drop_last()) + pieces.last()
    }
}

/// A fresh decoder fed `pieces` one by one: all the text it returned, and what it holds.
pub open spec fn decode_all(pieces: Seq<Seq<u8>>) -> (Seq<char>, Seq<u8>)
    decreases pieces.len(),
{
    if pieces.len() == 0 {
        (seq![], seq![])
    } else {
        let prev = decode_all(pieces.drop_last());
        let step = drain(prev.1 + pieces.last());
        (prev.0 + step.0, step.1)
    }
}

/// However a byte stream is cut into tokens, the decoder returns the same text in total and
/// holds the same bytes at the end: those of decoding the whole stream at once.
pub proof fn lemma_utf8_stream_split_invariant(pieces: Seq<Seq<u8>>)
    ensures
        decode_all(pieces) == drain(byte_concat(pieces)),
    decreases pieces.len(),
{
    if pieces.len() > 0 {
        let prev = pieces.drop_last();
        lemma_utf8_stream_split_invariant(prev);
        lemma_drain_append(byte_concat(prev), pieces.last());
        let d = drain(byte_concat(prev));
        assert(decode_all(pieces).0 =~= d.0 + drain(d.1 + pieces.last()).0);
    } else {
        assert(byte_concat(pieces) =~= Seq::<u8>::empty());
    }
}

proof fn lemma_width1_bits(v: u32)
    by (bit_vector)
    requires
        v <= 0x7F,
    ensures
        leading_byte_width_1(v) == v,
{
}

proof fn lemma_width2_bits(v: u32)
    by (bit_vector)
    requires
        0x80 <= v <= 0x7FF,
    ensures
        0xc2 <= leading_byte_width_2(v) <= 0xdf,
        0x80 <= last_continuation_byte(v) <= 0xbf,
        ((leading_byte_width_2(v) - 0xc0) * 64 + (last_continuation_byte(v) - 0x80)) == v,
{
}

proof fn lemma_width3_bits(v: u32)
    by (bit_vector)
    requires
        0x800 <= v <= 0xFFFF,
        !(0xD800 <= v <= 0xDFFF),
    ensures
        0xe0 <= leading_byte_width_3(v) <= 0xef,
        second_ok3(leading_byte_width_3(v), second_last_continuation_byte(v)),
        0x80 <= last_continuation_byte(v) <= 0xbf,
        ((leading_byte_width_3(v) - 0xe0) * 4096 + (second_last_continuation_byte(v) - 0x80) * 64
            + (last_continuation_byte(v) - 0x80)) == v,
{
}

proof fn lemma_width4_bits(v: u32)
    by (bit_vector)
    requires
        0x10000 <= v <= 0x10FFFF,
    ensures
        0xf0 <= leading_byte_width_4(v) <= 0xf4,
        second_ok4(leading_byte_width_4(v), third_last_continuation_byte(v)),
        0x80 <= second_last_continuation_byte(v) <= 0xbf,
        0x80 <= last_continuation_byte(v) <= 0xbf,
        ((leading_byte_width_4(v) - 0xf0) * 262144 + (third_last_continuation_byte(v) - 0x80) * 4096
            + (second_last_continuation_byte(v) - 0x80) * 64 + (last_continuation_byte(v) - 0x80)) == v,
{
}

/// The front of a character's UTF-8 encoding, whatever follows, reads as that character.
proof fn lemma_step_encoded(c: char, x: Seq<u8>)
    ensures
        utf8_step(encode_scalar(c as u32) + x) == Utf8Step::Char(c, encode_scalar(c as u32).len()),
        1 <= encode_scalar(c as u32).len() <= 4,
{
    let v = c as u32;
    char_is_scalar(c);
    char_u32_cast(c, v);
    let e = encode_scalar(v);
    let b = e + x;
    assert(b[0] == e[0]);
    if has_width_1_encoding(v) {
        lemma_width1_bits(v);
    } else if has_width_2_encoding(v) {
        lemma_width2_bits(v);
        assert(b[1] == e[1]);
    } else if has_width_3_encoding(v) {
        lemma_width3_bits(v);
        assert(b[1] == e[1]);
        assert(b[2] == e[2]);
    } else {
        lemma_width4_bits(v);
        assert(b[1] == e[1]);
        assert(b[2] == e[2]);
        assert(b[3] == e[3]);
    }
}

/// Decoding the UTF-8 encoding of a text gives back the text, with nothing left over.
pub proof fn lemma_drain_encoded(s: Seq<char>)
    ensures
        drain(encode_utf8(s)) == (s, Seq::<u8>::empty()),
    decreases s.len(),
{
    if s.len() > 0 {
        let rest = s.drop_first();
        let e = encode_scalar(s[0] as u32);
        lemma_step_encoded(s[0], encode_utf8(rest));
        assert(encode_utf8(s) == e + encode_utf8(rest));
        assert((e + encode_utf8(rest)).skip(e.len() as int) =~= encode_utf8(rest));
        lemma_drain_encoded(rest);
        assert(seq![s[0]] + rest =~= s);
    }
}

/// For a stream whose bytes are valid UTF-8, however it is cut into tokens, the texts the
/// decoder returns, joined, are the UTF-8 decoding of all the bytes, and nothing is left held.
pub proof fn lemma_utf8_stream_decodes_valid_text(pieces: Seq<Seq<u8>>)
    requires
        valid_utf8(byte_concat(pieces)),
    ensures
        decode_all(pieces).0 == decode_utf8(byte_concat(pieces)),
        decode_all(pieces).1 == Seq::<u8>::empty(),
{
    let all = byte_concat(pieces);
    lemma_utf8_stream_split_invariant(pieces);
    decode_utf8_encode_utf8(all);
    lemma_drain_encoded(decode_utf8(all));
}

} // verus!
