use vless_encryption::aead::{Aead, Cipher};
use vless_encryption::{OpenError, MAX_NONCE, TAG_LEN};

fn hex(bytes: &[u8]) -> String {
    bytes.iter().map(|b| format!("{b:02x}")).collect()
}

#[test]
fn nonce_increments_big_endian_and_wraps() {
    let mut a = Aead::new(b"ctx", b"key", true);
    assert_eq!(a.nonce, [0u8; 12]);
    a.increment_nonce();
    assert_eq!(a.nonce[11], 1);
    // Force a carry.
    a.nonce = [0, 0, 0, 0, 0, 0, 0, 0, 0, 0, 0, 0xFF];
    a.increment_nonce();
    assert_eq!(a.nonce, [0, 0, 0, 0, 0, 0, 0, 0, 0, 0, 1, 0]);
    // Wrap from max to zero.
    a.nonce = MAX_NONCE;
    assert!(a.is_exhausted());
    a.increment_nonce();
    assert_eq!(a.nonce, [0u8; 12]);
}

#[test]
fn aead_round_trip_both_ciphers() {
    for use_aes in [true, false] {
        let mut enc = Aead::new(b"iv", b"key", use_aes);
        let mut dec = Aead::new(b"iv", b"key", use_aes);
        let ct = enc.seal_ad(b"hello world", b"\x17\x03\x03\x00\x1b");
        let pt = dec.open_ad(&ct, b"\x17\x03\x03\x00\x1b").unwrap();
        assert_eq!(pt, b"hello world");
    }
}

#[test]
fn new_picks_the_cipher_and_derives_the_key() {
    let k = vless_encryption::derive_key(b"ctx", b"key");
    match Aead::new(b"ctx", b"key", true).cipher {
        Cipher::Aes(key) => assert_eq!(key, k),
        Cipher::Chacha(_) => panic!("wrong cipher"),
    }
    match Aead::new(b"ctx", b"key", false).cipher {
        Cipher::Chacha(key) => assert_eq!(key, k),
        Cipher::Aes(_) => panic!("wrong cipher"),
    }
}

#[test]
fn carry_runs_through_several_bytes() {
    let mut a = Aead::new(b"", b"", false);
    a.nonce = [1, 2, 3, 4, 5, 6, 7, 8, 9, 0xFF, 0xFF, 0xFF];
    a.increment_nonce();
    assert_eq!(a.nonce, [1, 2, 3, 4, 5, 6, 7, 8, 10, 0, 0, 0]);
    a.increment_nonce();
    assert_eq!(a.nonce, [1, 2, 3, 4, 5, 6, 7, 8, 10, 0, 0, 1]);
}

#[test]
fn exhausted_only_at_the_largest_nonce() {
    let mut a = Aead::new(b"", b"", true);
    assert!(!a.is_exhausted());
    a.nonce = MAX_NONCE;
    a.nonce[11] = 0xFE;
    assert!(!a.is_exhausted());
    a.increment_nonce();
    assert!(a.is_exhausted());
    a.nonce[0] = 0xFE;
    assert!(!a.is_exhausted());
}

#[test]
fn aes_256_gcm_known_answers() {
    // The counter wraps, so the first seal uses the zero nonce.
    let mut a = Aead { cipher: Cipher::Aes([0u8; 32]), nonce: MAX_NONCE };
    assert_eq!(hex(&a.seal(&[])), "530f8afbc74536b9a963b4f1c4cb738b");
    let mut a = Aead { cipher: Cipher::Aes([0u8; 32]), nonce: MAX_NONCE };
    assert_eq!(
        hex(&a.seal(&[0u8; 16])),
        "cea7403d4d606b6e074ec5d3baf39d18d0d1c8a799996bf0265b98b5d48ab919"
    );
}

#[test]
fn chacha20_poly1305_known_answer() {
    let mut key = [0u8; 32];
    for i in 0..32 {
        key[i] = 0x80 + i as u8;
    }
    let text = b"Ladies and Gentlemen of the class of '99: If I could offer you only one tip for the future, sunscreen would be it.";
    let ad = [0x50, 0x51, 0x52, 0x53, 0xc0, 0xc1, 0xc2, 0xc3, 0xc4, 0xc5, 0xc6, 0xc7];
    let nonce = [7, 0, 0, 0, 0x40, 0x41, 0x42, 0x43, 0x44, 0x45, 0x46, 0x46];
    let mut a = Aead { cipher: Cipher::Chacha(key), nonce };
    let ct = a.seal_ad(text, &ad);
    assert_eq!(ct.len(), text.len() + TAG_LEN);
    assert_eq!(hex(&ct[..16]), "d31a8d34648e60db7b86afbc53ef7ec2");
    assert_eq!(hex(&ct[text.len()..]), "1ae10b594f09e26a7e902ecbd0600691");
    let mut b = Aead { cipher: Cipher::Chacha(key), nonce };
    assert_eq!(b.open_ad(&ct, &ad).unwrap(), text);
}

#[test]
fn a_stream_of_records_opens_in_order() {
    for use_aes in [true, false] {
        let mut enc = Aead::new(b"iv", b"key", use_aes);
        let mut dec = Aead::new(b"iv", b"key", use_aes);
        for i in 0..300usize {
            let pt = vec![i as u8; i];
            let ad = [i as u8];
            let ct = enc.seal_ad(&pt, &ad);
            assert_eq!(dec.open_ad(&ct, &ad).unwrap(), pt);
            assert_eq!(enc.nonce, dec.nonce);
        }
        assert_eq!(enc.nonce, [0, 0, 0, 0, 0, 0, 0, 0, 0, 0, 1, 44]);
    }
}

#[test]
fn without_associated_data_is_with_empty_associated_data() {
    let mut a = Aead::new(b"iv", b"key", true);
    let mut b = Aead::new(b"iv", b"key", true);
    let ct = a.seal(b"text");
    assert_eq!(ct, b.seal_ad(b"text", b""));
    let mut c = Aead::new(b"iv", b"key", true);
    assert_eq!(c.open(&ct).unwrap(), b"text");
}

#[test]
fn equal_plaintexts_seal_differently() {
    let mut a = Aead::new(b"iv", b"key", false);
    assert_ne!(a.seal(b"same"), a.seal(b"same"));
}

#[test]
fn fixed_nonce_leaves_the_counter_alone() {
    for use_aes in [true, false] {
        let mut a = Aead::new(b"iv", b"key", use_aes);
        let mut b = Aead::new(b"iv", b"key", use_aes);
        a.increment_nonce();
        let ct = a.seal_max(b"ticket");
        assert_eq!(b.open_max(&ct).unwrap(), b"ticket");
        assert_eq!(a.nonce[11], 1);
        assert_eq!(b.nonce, [0u8; 12]);
        // It is the nonce before the wrap.
        b.nonce = MAX_NONCE;
        b.nonce[11] = 0xFE;
        assert_eq!(b.open(&ct).unwrap(), b"ticket");
    }
}

#[test]
fn rejected_ciphertexts_still_move_the_counter() {
    for use_aes in [true, false] {
        let mut enc = Aead::new(b"iv", b"key", use_aes);
        let mut ct = enc.seal_ad(b"text", b"head");
        let mut dec = Aead::new(b"iv", b"key", use_aes);
        assert_eq!(dec.open_ad(&ct, b"other"), Err(OpenError));
        assert_eq!(dec.nonce[11], 1);
        // Out of step now.
        assert_eq!(dec.open_ad(&ct, b"head"), Err(OpenError));
        assert_eq!(dec.nonce[11], 2);
        // Shorter than a tag.
        assert_eq!(dec.open_ad(&ct[..15], b"head"), Err(OpenError));
        // Tampered.
        dec.nonce = [0u8; 12];
        ct[0] ^= 1;
        assert_eq!(dec.open_ad(&ct, b"head"), Err(OpenError));
        // Another key.
        ct[0] ^= 1;
        let mut other = Aead::new(b"iv", b"kez", use_aes);
        assert_eq!(other.open_ad(&ct, b"head"), Err(OpenError));
    }
}

#[test]
fn explicit_nonces_leave_the_counter_out() {
    for use_aes in [true, false] {
        let a = Aead::new(b"iv", b"key", use_aes);
        let mut b = Aead::new(b"iv", b"key", use_aes);
        b.nonce = [7u8; 12];
        let nonce = [3u8; 12];
        let ct = a.encrypt(&nonce, b"text", b"head");
        assert_eq!(ct, b.encrypt(&nonce, b"text", b"head"));
        assert_eq!(ct.len(), 4 + TAG_LEN);
        assert_ne!(ct, a.encrypt(&[4u8; 12], b"text", b"head"));
        assert_eq!(b.decrypt(&nonce, &ct, b"head").unwrap(), b"text");
        assert_eq!(a.nonce, [0u8; 12]);
        assert_eq!(b.nonce, [7u8; 12]);
    }
}

#[test]
fn only_encryptions_decrypt() {
    for use_aes in [true, false] {
        let a = Aead::new(b"iv", b"key", use_aes);
        let nonce = [3u8; 12];
        let ct = a.encrypt(&nonce, b"text", b"head");
        let pt = a.decrypt(&nonce, &ct, b"head").unwrap();
        assert_eq!(pt.len(), ct.len() - TAG_LEN);
        assert_eq!(a.encrypt(&nonce, &pt, b"head"), ct);
        for len in 0..ct.len() {
            assert_eq!(a.decrypt(&nonce, &ct[..len], b"head"), Err(OpenError));
        }
        for i in 0..ct.len() {
            let mut other = ct.clone();
            other[i] ^= 0x80;
            assert_eq!(a.decrypt(&nonce, &other, b"head"), Err(OpenError));
        }
        assert_eq!(a.decrypt(&nonce, &ct, b"heat"), Err(OpenError));
        assert_eq!(a.decrypt(&[4u8; 12], &ct, b"head"), Err(OpenError));
        // The empty plaintext is a tag alone.
        let tag = a.encrypt(&nonce, b"", b"");
        assert_eq!(tag.len(), TAG_LEN);
        assert_eq!(a.decrypt(&nonce, &tag, b"").unwrap(), b"");
    }
}
