//! At-rest encryption of sensitive content.
//!
//! AES-256-GCM (authenticated: confidentiality and tamper detection) with a random 96-bit nonce
//! per message.  A text is stored as `enc:v1:` followed by the base64 of `nonce || ciphertext`;
//! a value without that prefix is legacy plain text and reads as itself.
use vstd::prelude::*;
use vstd::utf8::{decode_utf8, encode_utf8, valid_utf8};
use crate::chars::{starts_with, starts_with_exec, to_chars, from_chars, append_str, slice};

verus! {

/// The envelope prefix of an encrypted text.
pub const PREFIX: &'static str = "enc:v1:";

/// The envelope prefix of an encrypted text, as characters.
pub open spec fn envelope_prefix() -> Seq<char> {
    "enc:v1:"@
}

/// Whether a stored value is already in the encrypted envelope (migrations leave such values
/// alone and encrypt the rest).
pub fn is_sealed(value: &str) -> (r: bool)
    ensures
        r == starts_with(value@, envelope_prefix()),
{
    starts_with_exec(&to_chars(value), &to_chars("enc:v1:"))
}

/// What AES-256-GCM decryption gives for key, nonce and ciphertext-with-tag (`None` when the
/// ciphertext does not authenticate).
pub uninterp spec fn aead_open(key: Seq<u8>, nonce: Seq<u8>, ct: Seq<u8>) -> Option<Seq<u8>>;

/// What AES-256-GCM encryption gives for key, nonce and plaintext (`None` when it fails).
pub uninterp spec fn aead_seal(key: Seq<u8>, nonce: Seq<u8>, pt: Seq<u8>) -> Option<Seq<u8>>;

/// The standard base64 (with padding) of some bytes.
pub uninterp spec fn base64_of(data: Seq<u8>) -> Seq<char>;

/// The bytes a standard base64 text decodes to (`None` when it is not valid base64).
pub uninterp spec fn base64_decoded(text: Seq<char>) -> Option<Seq<u8>>;

/// `String::from_utf8_lossy`: the text of some bytes, invalid sequences replaced.
pub uninterp spec fn utf8_lossy(data: Seq<u8>) -> Seq<char>;

/// AES-256-GCM encryption (`Aead::encrypt` of `aes_gcm::Aes256Gcm` with the given key and
/// nonce, no associated data): the ciphertext followed by the 16-byte tag.  It fails only on
/// a plaintext longer than 2^36 bytes (`P_MAX`); what it returns decrypts back to the plaintext under the same key and
/// nonce.
#[verifier::external_body]
fn aes256gcm_seal(key: &[u8; 32], nonce: &[u8; 12], pt: &[u8]) -> (r: Option<Vec<u8>>)
    ensures
        r matches Some(c) ==> aead_seal(key@, nonce@, pt@) == Some(c@) && aead_open(
            key@,
            nonce@,
            c@,
        ) == Some(pt@) && c@.len() == pt@.len() + 16,
        r is None ==> aead_seal(key@, nonce@, pt@) is None,
        pt@.len() <= 68719476736 ==> r is Some,
{
    let cipher = <aes_gcm::Aes256Gcm as aes_gcm::KeyInit>::new(aes_gcm::Key::<aes_gcm::Aes256Gcm>::from_slice(key));
    aes_gcm::aead::Aead::encrypt(&cipher, aes_gcm::Nonce::from_slice(nonce), pt).ok()
}

/// AES-256-GCM decryption (`Aead::decrypt` of `aes_gcm::Aes256Gcm`, no associated data):
/// `None` when the ciphertext does not authenticate under the key and nonce.
#[verifier::external_body]
fn aes256gcm_open(key: &[u8; 32], nonce: &[u8], ct: &[u8]) -> (r: Option<Vec<u8>>)
    requires
        nonce@.len() == 12,
    ensures
        r matches Some(p) ==> aead_open(key@, nonce@, ct@) == Some(p@),
        r is None ==> aead_open(key@, nonce@, ct@) is None,
{
    let cipher = <aes_gcm::Aes256Gcm as aes_gcm::KeyInit>::new(aes_gcm::Key::<aes_gcm::Aes256Gcm>::from_slice(key));
    aes_gcm::aead::Aead::decrypt(&cipher, aes_gcm::Nonce::from_slice(nonce), ct).ok()
}

/// Twelve random bytes from the operating system (`rand::rngs::OsRng`).
#[verifier::external_body]
fn random_nonce() -> (r: [u8; 12]) {
    let mut n = [0u8; 12];
    rand::RngCore::fill_bytes(&mut rand::rngs::OsRng, &mut n);
    n
}

/// Thirty-two random bytes from the operating system (`rand::rngs::OsRng`).
#[verifier::external_body]
fn random_key() -> (r: [u8; 32]) {
    let mut k = [0u8; 32];
    rand::RngCore::fill_bytes(&mut rand::rngs::OsRng, &mut k);
    k
}

/// Standard base64 with padding (`base64::engine::general_purpose::STANDARD.encode`): four
/// characters for every three bytes or part of three; it decodes back to the same bytes.
#[verifier::external_body]
fn b64_encode(data: &[u8]) -> (r: String)
    ensures
        r@ == base64_of(data@),
        base64_decoded(r@) == Some(data@),
        r@.len() == 4 * ((data@.len() + 2) / 3),
{
    base64::Engine::encode(&base64::engine::general_purpose::STANDARD, data)
}

/// Standard base64 decoding (`STANDARD.decode`); an error (with the decoder's message, whose
/// wording this contract leaves unsaid) when the text is not valid base64.
#[verifier::external_body]
pub(crate) fn b64_decode(text: &str) -> (r: Result<Vec<u8>, String>)
    ensures
        r matches Ok(d) ==> base64_decoded(text@) == Some(d@),
        r is Err ==> base64_decoded(text@) is None,
{
    base64::Engine::decode(&base64::engine::general_purpose::STANDARD, text).map_err(|e| e.to_string())
}

/// `String::from_utf8_lossy`, owned: valid UTF-8 reads as the text it encodes.
#[verifier::external_body]
fn bytes_to_text_lossy(data: &[u8]) -> (r: String)
    ensures
        r@ == utf8_lossy(data@),
        valid_utf8(data@) ==> r@ == decode_utf8(data@),
{
    String::from_utf8_lossy(data).into_owned()
}

/// Why encryption failed: the data is then not written at all (never as plain text).
#[derive(Clone, Copy, Debug, PartialEq, Eq, Structural)]
pub enum CryptoError {
    /// A text could not be encrypted.
    Text,
    /// A binary blob could not be encrypted.
    Blob,
}

impl CryptoError {
    /// The error's message.
    pub fn message(&self) -> (r: String)
        ensures
            r@ == match self {
                CryptoError::Text => "cifratura fallita: il dato NON viene salvato in chiaro"@,
                CryptoError::Blob => "cifratura blob fallita: il dato NON viene salvato in chiaro"@,
            },
    {
        match self {
            CryptoError::Text => from_chars(
                to_chars("cifratura fallita: il dato NON viene salvato in chiaro").as_slice(),
            ),
            CryptoError::Blob => from_chars(
                to_chars("cifratura blob fallita: il dato NON viene salvato in chiaro").as_slice(),
            ),
        }
    }
}

/// At-rest encryption with a 256-bit master key.
pub struct Crypto {
    key: [u8; 32],
}

impl View for Crypto {
    type V = Seq<u8>;

    /// The master key.
    closed spec fn view(&self) -> Seq<u8> {
        self.key@
    }
}

/// The envelope of a plaintext under a key with a nonce: `enc:v1:` and the base64 of
/// `nonce || ciphertext`, when encryption succeeds.
pub open spec fn envelope(key: Seq<u8>, nonce: Seq<u8>, s: Seq<char>) -> Option<Seq<char>> {
    match aead_seal(key, nonce, encode_utf8(s)) {
        Some(ct) => Some(envelope_prefix() + base64_of(nonce + ct)),
        None => None,
    }
}

/// The text of decrypted bytes (`String::from_utf8_lossy`): what they encode when they are
/// valid UTF-8.
pub open spec fn text_of(pt: Seq<u8>) -> Seq<char> {
    if valid_utf8(pt) {
        decode_utf8(pt)
    } else {
        utf8_lossy(pt)
    }
}

/// What a stored value reads as: legacy plain text (no prefix), a value that does not
/// decode or authenticate (returned as it is), or the decrypted text.
pub open spec fn opened(key: Seq<u8>, value: Seq<char>) -> Seq<char> {
    if !starts_with(value, envelope_prefix()) {
        value
    } else {
        match base64_decoded(value.skip(envelope_prefix().len() as int)) {
            None => value,
            Some(blob) => if blob.len() < 12 {
                value
            } else {
                match aead_open(key, blob.take(12), blob.skip(12)) {
                    Some(pt) => text_of(pt),
                    None => value,
                }
            },
        }
    }
}

/// What a stored blob reads as: `nonce[12] || ciphertext` decrypted, or the blob itself
/// when it is shorter than a nonce or does not authenticate (a legacy plain blob).
pub open spec fn opened_blob(key: Seq<u8>, blob: Seq<u8>) -> Seq<u8> {
    if blob.len() < 12 {
        blob
    } else {
        match aead_open(key, blob.take(12), blob.skip(12)) {
            Some(pt) => pt,
            None => blob,
        }
    }
}

fn concat_bytes(a: &[u8], b: &[u8]) -> (r: Vec<u8>)
    ensures
        r@ == a@ + b@,
{
    let mut r: Vec<u8> = Vec::new();
    let mut i: usize = 0;
    while i < a.len()
        invariant
            i <= a.len(),
            r@ == a@.take(i as int),
        decreases a.len() - i,
    {
        r.push(a[i]);
        i = i + 1;
        assert(r@ =~= a@.take(i as int));
    }
    let mut j: usize = 0;
    while j < b.len()
        invariant
            j <= b.len(),
            r@ == a@ + b@.take(j as int),
        decreases b.len() - j,
    {
        r.push(b[j]);
        j = j + 1;
        assert(r@ =~= a@ + b@.take(j as int));
    }
    assert(a@.take(a.len() as int) =~= a@);
    assert(b@.take(b.len() as int) =~= b@);
    r
}

fn sub_bytes(v: &Vec<u8>, lo: usize, hi: usize) -> (r: Vec<u8>)
    requires
        lo <= hi <= v.len(),
    ensures
        r@ == v@.subrange(lo as int, hi as int),
{
    let mut r: Vec<u8> = Vec::new();
    let mut i = lo;
    while i < hi
        invariant
            lo <= i <= hi <= v.len(),
            r@ == v@.subrange(lo as int, i as int),
        decreases hi - i,
    {
        r.push(v[i]);
        i = i + 1;
        assert(r@ =~= v@.subrange(lo as int, i as int));
    }
    r
}

impl Crypto {
    /// An instance over the given master key.
    pub fn from_key(key: &[u8; 32]) -> (r: Self)
        ensures
            r@ == key@,
    {
        Crypto { key: *key }
    }

    /// A throwaway instance with a random key (never persisted).
    pub fn ephemeral() -> (r: Self) {
        Crypto { key: random_key() }
    }

    /// Encrypts a text into the `enc:v1:` envelope with a fresh random nonce; the empty text
    /// stays empty.  Fails rather than ever returning the plain text.
    pub fn encrypt(&self, plaintext: &str) -> (r: Result<String, CryptoError>)
        ensures
            plaintext@.len() == 0 ==> (r matches Ok(e) && e@.len() == 0),
            plaintext@.len() > 0 ==> (r matches Ok(e) ==> exists|n: Seq<u8>|
                n.len() == 12 && envelope(self@, n, plaintext@) == Some(e@)),
            plaintext@.len() > 0 ==> (r matches Ok(e) ==> starts_with(e@, envelope_prefix())),
            r matches Ok(e) ==> opened(self@, e@) == plaintext@,
            plaintext@.len() > 0 ==> (r is Err ==> r == Err::<String, CryptoError>(CryptoError::Text)),
            encode_utf8(plaintext@).len() <= 68719476736 ==> r is Ok,
            plaintext@.len() > 0 ==> (r matches Ok(e) ==> e@ != plaintext@ && e@.len() > plaintext@.len()),
            plaintext@.len() > 0 ==> (r matches Ok(e) ==> base64_decoded(e@.skip(7)) matches Some(b) && b.len()
                == 12 + encode_utf8(plaintext@).len() + 16),
    {
        if plaintext.is_empty() {
            let e = String::new();
            assert(e@ =~= Seq::<char>::empty());
            proof {
                reveal_strlit("enc:v1:");
            }
            assert(plaintext@ =~= e@);
            assert(!starts_with(e@, envelope_prefix()));
            return Ok(e);
        }
        let nonce = random_nonce();
        let pt = plaintext.as_bytes();
        match aes256gcm_seal(&self.key, &nonce, pt) {
            None => Err(CryptoError::Text),
            Some(ct) => {
                let blob = concat_bytes(nonce.as_slice(), ct.as_slice());
                let b = b64_encode(blob.as_slice());
                let mut v = to_chars("enc:v1:");
                append_str(&mut v, b.as_str());
                let r = from_chars(v.as_slice());
                assert(nonce@.len() == 12);
                assert(Some(r@) == envelope(self@, nonce@, plaintext@));
                proof {
                    lemma_envelope_opens(self@, nonce@, plaintext@, r@, ct@);
                    reveal_strlit("enc:v1:");
                    lemma_encode_utf8_len(plaintext@);
                    let bl = blob@.len() as int;
                    assert(bl == 12 + encode_utf8(plaintext@).len() + 16);
                    assert(r@.len() == 7 + 4 * ((bl + 2) / 3));
                    assert(4 * ((bl + 2) / 3) >= bl) by (nonlinear_arith)
                        requires bl >= 0;
                    assert(r@.skip(7) =~= b@);
                }
                Ok(r)
            },
        }
    }

    /// Decrypts a stored value (see [`opened`]): legacy plain text, and any `enc:v1:` value
    /// that does not decode or authenticate, come back unchanged.
    pub fn decrypt(&self, value: &str) -> (r: String)
        ensures
            r@ == opened(self@, value@),
    {
        let v = to_chars(value);
        let pre = to_chars("enc:v1:");
        if !starts_with_exec(&v, &pre) {
            return from_chars(v.as_slice());
        }
        let rest = slice(&v, pre.len(), v.len());
        let b64 = from_chars(rest.as_slice());
        assert(b64@ =~= value@.skip(envelope_prefix().len() as int));
        let blob = match b64_decode(b64.as_str()) {
            Err(_) => return from_chars(v.as_slice()),
            Ok(b) => b,
        };
        if blob.len() < 12 {
            return from_chars(v.as_slice());
        }
        let nonce = sub_bytes(&blob, 0, 12);
        let ct = sub_bytes(&blob, 12, blob.len());
        assert(nonce@ =~= blob@.take(12));
        assert(ct@ =~= blob@.skip(12));
        match aes256gcm_open(&self.key, nonce.as_slice(), ct.as_slice()) {
            Some(pt) => bytes_to_text_lossy(pt.as_slice()),
            None => from_chars(v.as_slice()),
        }
    }

    /// Encrypts raw bytes into `nonce[12] || ciphertext`; empty stays empty.  Fails rather
    /// than ever returning the bytes in clear.
    pub fn encrypt_blob(&self, data: &[u8]) -> (r: Result<Vec<u8>, CryptoError>)
        ensures
            data@.len() == 0 ==> (r matches Ok(b) && b@.len() == 0),
            data@.len() > 0 ==> (r matches Ok(b) ==> exists|n: Seq<u8>, c: Seq<u8>|
                n.len() == 12 && aead_seal(self@, n, data@) == Some(c) && b@ == n + c),
            data@.len() > 0 ==> (r is Err ==> r == Err::<Vec<u8>, CryptoError>(CryptoError::Blob)),
            data@.len() <= 68719476736 ==> r is Ok,
    {
        if data.len() == 0 {
            return Ok(Vec::new());
        }
        let nonce = random_nonce();
        match aes256gcm_seal(&self.key, &nonce, data) {
            None => Err(CryptoError::Blob),
            Some(ct) => {
                let b = concat_bytes(nonce.as_slice(), ct.as_slice());
                assert(nonce@.len() == 12);
                Ok(b)
            },
        }
    }

    /// Decrypts a `nonce[12] || ciphertext` blob (see [`opened_blob`]).
    pub fn decrypt_blob(&self, blob: &[u8]) -> (r: Vec<u8>)
        ensures
            r@ == opened_blob(self@, blob@),
    {
        let v = concat_bytes(blob, &[]);
        assert(v@ =~= blob@);
        if v.len() < 12 {
            return v;
        }
        let nonce = sub_bytes(&v, 0, 12);
        let ct = sub_bytes(&v, 12, v.len());
        assert(nonce@ =~= blob@.take(12));
        assert(ct@ =~= blob@.skip(12));
        match aes256gcm_open(&self.key, nonce.as_slice(), ct.as_slice()) {
            Some(pt) => pt,
            None => v,
        }
    }
}

/// A text's UTF-8 encoding has at least a byte per character.
proof fn lemma_encode_utf8_len(s: Seq<char>)
    ensures
        encode_utf8(s).len() >= s.len(),
    decreases s.len(),
{
    if s.len() > 0 {
        lemma_encode_utf8_len(s.drop_first());
    }
}

/// The envelope made with a key opens back to its text under that key.
proof fn lemma_envelope_opens(key: Seq<u8>, nonce: Seq<u8>, s: Seq<char>, e: Seq<char>, ct: Seq<u8>)
    requires
        nonce.len() == 12,
        aead_seal(key, nonce, encode_utf8(s)) == Some(ct),
        aead_open(key, nonce, ct) == Some(encode_utf8(s)),
        base64_decoded(base64_of(nonce + ct)) == Some(nonce + ct),
        e == envelope_prefix() + base64_of(nonce + ct),
    ensures
        opened(key, e) == s,
        starts_with(e, envelope_prefix()),
{
    let blob = nonce + ct;
    let p = envelope_prefix();
    assert(e.take(p.len() as int) =~= p);
    assert(e.skip(p.len() as int) =~= base64_of(blob));
    assert(blob.take(12) =~= nonce);
    assert(blob.skip(12) =~= ct);
    vstd::utf8::encode_utf8_valid_utf8(s);
    vstd::utf8::encode_utf8_decode_utf8(s);
}

/// Why a stored master key could not be read.
pub enum KeyError {
    /// The text is not base64; the decoder's message.
    NotBase64(String),
    /// It decodes, but not to 32 bytes.
    WrongLength,
}

/// Reads a master key stored as base64 text: the 32 bytes it decodes to.
pub fn read_key(text: &str) -> (r: Result<[u8; 32], KeyError>)
    ensures
        r matches Ok(k) ==> base64_decoded(text@) == Some(k@),
        r matches Err(KeyError::WrongLength) ==> base64_decoded(text@) matches Some(b) && b.len() != 32,
        r matches Err(KeyError::NotBase64(_)) ==> base64_decoded(text@) is None,
        base64_decoded(text@) matches Some(b) ==> (b.len() == 32 <==> r is Ok),
{
    let bytes = match b64_decode(text) {
        Err(e) => return Err(KeyError::NotBase64(e)),
        Ok(b) => b,
    };
    if bytes.len() != 32 {
        return Err(KeyError::WrongLength);
    }
    let mut key = [0u8; 32];
    let mut i: usize = 0;
    while i < 32
        invariant
            i <= 32,
            bytes.len() == 32,
            forall|j: int| 0 <= j < i ==> key@[j] == bytes@[j],
        decreases 32 - i,
    {
        key.set(i, bytes[i]);
        i = i + 1;
    }
    assert(key@ =~= bytes@);
    Ok(key)
}

/// A new random master key (from the operating system's generator).
pub fn new_key() -> (r: [u8; 32]) {
    random_key()
}

/// The base64 text a master key is stored as; [`read_key`] reads it back.
pub fn key_text(key: &[u8; 32]) -> (r: String)
    ensures
        r@ == base64_of(key@),
        base64_decoded(r@) == Some(key@),
{
    b64_encode(key)
}

} // verus!
