use liara_core::crypto::{is_sealed, Crypto, PREFIX, key_text, new_key, read_key, KeyError};

fn test_crypto() -> Crypto {
    Crypto::from_key(&[7u8; 32])
}

#[test]
fn roundtrip() {
    let c = test_crypto();
    let enc = c.encrypt("ciao Liara, segreto!").unwrap();
    assert!(enc.starts_with(PREFIX));
    assert_ne!(enc, "ciao Liara, segreto!");
    assert_eq!(c.decrypt(&enc), "ciao Liara, segreto!");
}

#[test]
fn legacy_plaintext_passthrough() {
    let c = test_crypto();
    assert_eq!(c.decrypt("vecchio testo in chiaro"), "vecchio testo in chiaro");
}

#[test]
fn tampered_ciphertext_non_si_decifra() {
    let c = test_crypto();
    let enc = c.encrypt("segreto").unwrap();
    let mut chars: Vec<char> = enc.chars().collect();
    let mid = chars.len() / 2;
    chars[mid] = if chars[mid] == 'A' { 'B' } else { 'A' };
    let tampered: String = chars.into_iter().collect();
    assert_ne!(c.decrypt(&tampered), "segreto", "un ciphertext manomesso non deve rivelare il segreto");
}

#[test]
fn mod_empty_stays_empty() {
    let c = test_crypto();
    assert_eq!(c.encrypt("").unwrap(), "");
    assert_eq!(c.decrypt(""), "");
}

#[test]
fn distinct_nonces() {
    let c = test_crypto();
    assert_ne!(c.encrypt("x").unwrap(), c.encrypt("x").unwrap());
}

#[test]
fn encrypt_non_degrada_mai_in_plaintext() {
    let c = test_crypto();
    for s in ["pii sensibile", "à😀\u{0}binari", "x"] {
        match c.encrypt(s) {
            Ok(out) => assert!(out.starts_with(PREFIX), "plaintext leakato: {out}"),
            Err(_) => {}
        }
    }
    let blob = c.encrypt_blob(&[1, 2, 3]).unwrap();
    assert_ne!(blob, vec![1, 2, 3], "blob in chiaro");
    assert!(blob.len() > 3 + 12, "manca nonce+tag");
}

// ---- further cases

#[test]
fn blob_roundtrip_and_legacy_blob() {
    let c = test_crypto();
    let b = c.encrypt_blob(&[9, 8, 7, 6]).unwrap();
    assert_eq!(b.len(), 12 + 4 + 16);
    assert_eq!(c.decrypt_blob(&b), vec![9, 8, 7, 6]);
    assert_eq!(c.decrypt_blob(&[1, 2]), vec![1, 2]);
    assert!(c.encrypt_blob(&[]).unwrap().is_empty());
}

#[test]
fn other_key_does_not_open() {
    let enc = test_crypto().encrypt("segreto").unwrap();
    let other = Crypto::from_key(&[8u8; 32]);
    assert_eq!(other.decrypt(&enc), enc);
}

#[test]
fn broken_envelopes_come_back_unchanged() {
    let c = test_crypto();
    assert_eq!(c.decrypt("enc:v1:!!!"), "enc:v1:!!!");
    assert_eq!(c.decrypt("enc:v1:AAAA"), "enc:v1:AAAA");
    let e = Crypto::ephemeral();
    assert_eq!(e.decrypt(&e.encrypt("effimero").unwrap()), "effimero");
}

#[test]
fn master_key_text_round_trip() {
    let k = new_key();
    let t = key_text(&k);
    assert!(matches!(read_key(&t), Ok(r) if r == k));
    assert!(matches!(read_key("AAAA"), Err(KeyError::WrongLength)));
    assert!(matches!(read_key("non base64!"), Err(KeyError::NotBase64(_))));
    assert_ne!(new_key(), new_key());
}

#[test]
fn sealed_values_are_recognised() {
    let c = Crypto::from_key(&[3u8; 32]);
    let e = c.encrypt("segreto").unwrap();
    assert!(is_sealed(&e));
    assert!(!is_sealed("segreto"));
    assert!(!is_sealed("enc:v2:abc"));
    assert!(is_sealed("enc:v1:"));
}

#[test]
fn encrypted_text_is_never_the_plaintext() {
    let c = test_crypto();
    for p in ["a", "enc:v1:AAAA", "è"] {
        let e = c.encrypt(p).unwrap();
        assert_ne!(e, p);
        assert!(e.starts_with("enc:v1:"));
        assert_eq!(c.decrypt(&e), p);
    }
    assert!(c.encrypt_blob(&[1, 2, 3]).is_ok());
}
