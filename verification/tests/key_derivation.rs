use aes::cipher::{BlockEncrypt, KeyInit};
use ctr::cipher::{KeyIvInit, StreamCipher};
use vless_encryption::blake3_ctx::{
    chunk_node, compress, context_key, g, parent_node, round, words_to_bytes,
};
use vless_encryption::kdf::{context_keys_of_str, derived_keys_of_str};
use vless_encryption::{blake3_sum256, derive_key, new_ctr};

fn hex(bytes: &[u8]) -> String {
    bytes.iter().map(|b| format!("{b:02x}")).collect()
}

/// The byte-context hash must reproduce `blake3::derive_key` bit for bit, across
/// every chunk-boundary length and tree depth.
#[test]
fn byte_context_derive_matches_str_derive_key() {
    let mut rng_state = 0x9E3779B97F4A7C15u64;
    let mut next = || {
        rng_state ^= rng_state << 13;
        rng_state ^= rng_state >> 7;
        rng_state ^= rng_state << 17;
        rng_state
    };
    for len in [
        0usize, 1, 63, 64, 65, 127, 1023, 1024, 1025, 1087, 2047, 2048, 2049, 3000, 4096,
        7168,  // seven chunks: the final fold joins twice
        15360, // fifteen chunks: the final fold joins three times
        16645, // a header and a record of the largest size
        8192,
    ] {
        // Valid UTF-8 by construction: ASCII bytes only.
        let ctx: String = (0..len)
            .map(|_| ((next() % 95) as u8 + 32) as char)
            .collect();
        let material: Vec<u8> = (0..64).map(|_| next() as u8).collect();
        assert_eq!(
            derive_key(ctx.as_bytes(), &material),
            blake3::derive_key(&ctx, &material),
            "context length {len}"
        );
    }
}

/// Contexts that are not UTF-8 must work too, and two different ones derive
/// different keys.
#[test]
fn byte_context_derive_accepts_arbitrary_bytes() {
    let a = derive_key(&[0xFF; 32], b"key");
    let b = derive_key(&[0xFE; 32], b"key");
    assert_ne!(a, b);
    // About 16 KiB of invalid UTF-8, a tree of many chunks.
    let big = vec![0x80u8; 16 * 1024 + 7];
    let _ = derive_key(&big, b"key");
}

#[test]
fn context_key_is_the_context_hash_of_blake3() {
    for len in 0..40usize {
        let ctx: String = (0..len * 509).map(|i| (32 + (i * i % 95) as u8) as char).collect();
        assert_eq!(
            context_key(ctx.as_bytes()),
            blake3::hazmat::hash_derive_key_context(&ctx)
        );
    }
}

#[test]
fn non_ascii_context_uses_its_utf8_bytes() {
    let ctx = "schlüssel \u{1F511} ".repeat(150);
    assert_eq!(derive_key(ctx.as_bytes(), b"m"), blake3::derive_key(&ctx, b"m"));
}

#[test]
fn string_contexts_have_one_context_key() {
    for ctx in ["", "VLESS", "schlüssel", &"x".repeat(5000)] {
        let keys = context_keys_of_str(ctx);
        assert_eq!(keys.0, context_key(ctx.as_bytes()));
        assert_eq!(keys.1, blake3::hazmat::hash_derive_key_context(ctx));
        assert_eq!(keys.0, keys.1);
    }
}

#[test]
fn string_contexts_derive_one_key() {
    for ctx in ["", "VLESS", "schlüssel", &"x".repeat(5000)] {
        let keys = derived_keys_of_str(ctx, b"material");
        assert_eq!(keys.0, derive_key(ctx.as_bytes(), b"material"));
        assert_eq!(keys.1, blake3::derive_key(ctx, b"material"));
        assert_eq!(keys.0, keys.1);
    }
}

const IV: [u32; 8] = [
    0x6A09E667, 0xBB67AE85, 0x3C6EF372, 0xA54FF53A, 0x510E527F, 0x9B05688C, 0x1F83D9AB, 0x5BE0CD19,
];

/// The tree over `data`, whose first chunk has number `counter`, with the key
/// words and the mode flag given; `root` is set on its last compression.
fn tree(key: [u32; 8], flag: u8, data: &[u8], counter: u64, root: u8) -> [u8; 32] {
    let mut block = [0u8; 64];
    if data.len() <= 1024 {
        let mut cv = key;
        let mut rest = data;
        let mut start = 1;
        while rest.len() > 64 {
            block.copy_from_slice(&rest[..64]);
            cv = compress(cv, &block, counter, 64, flag | start);
            start = 0;
            rest = &rest[64..];
        }
        block = [0u8; 64];
        block[..rest.len()].copy_from_slice(rest);
        let flags = flag | start | 2 | root;
        return words_to_bytes(compress(cv, &block, counter, rest.len() as u8, flags));
    }
    let mut left = 1usize;
    while left * 2 * 1024 < data.len() {
        left *= 2;
    }
    let (a, b) = data.split_at(left * 1024);
    block[..32].copy_from_slice(&tree(key, flag, a, counter, 0));
    block[32..].copy_from_slice(&tree(key, flag, b, counter + left as u64, 0));
    words_to_bytes(compress(key, &block, 0, 64, flag | 4 | root))
}

#[test]
fn every_mode_is_the_tree_hash_with_its_key_and_flag() {
    for len in [0usize, 1, 64, 65, 1024, 1025, 2048, 3000, 7168, 9000] {
        let data: Vec<u8> = (0..len).map(|i| (i % 251) as u8).collect();
        assert_eq!(blake3_sum256(&data), tree(IV, 0, &data, 0, 8));
        assert_eq!(context_key(&data), tree(IV, 32, &data, 0, 8));
        let context = context_key(b"ctx");
        let mut words = [0u32; 8];
        for i in 0..8 {
            let at = 4 * i;
            words[i] = u32::from_le_bytes(context[at..at + 4].try_into().unwrap());
        }
        assert_eq!(derive_key(b"ctx", &data), tree(words, 64, &data, 0, 8));
    }
}

#[test]
fn derived_keys_depend_on_context_and_material() {
    assert_ne!(derive_key(b"a", b"m"), derive_key(b"b", b"m"));
    assert_ne!(derive_key(b"a", b"m"), derive_key(b"a", b"n"));
    assert_eq!(derive_key(b"a", b"m"), derive_key(b"a", b"m"));
}

#[test]
fn one_chunk_is_its_own_root() {
    let ctx = [7u8; 1000];
    assert_eq!(chunk_node(&ctx, 0).root_bytes(), context_key(&ctx));
    assert_eq!(chunk_node(&[], 0).root_bytes(), context_key(&[]));
}

#[test]
fn three_chunks_join_two_and_one() {
    let ctx: Vec<u8> = (0..2500usize).map(|i| (i % 251) as u8).collect();
    let left = parent_node(
        &chunk_node(&ctx[..1024], 0).cv_bytes(),
        &chunk_node(&ctx[1024..2048], 1).cv_bytes(),
    );
    let root = parent_node(&left.cv_bytes(), &chunk_node(&ctx[2048..], 2).cv_bytes());
    assert_eq!(root.root_bytes(), context_key(&ctx));
    assert_ne!(root.cv_bytes(), root.root_bytes());
}

#[test]
fn words_are_little_endian() {
    let mut words = [0u32; 8];
    words[0] = 0x0403_0201;
    words[7] = 0xFFEE_DDCC;
    let bytes = words_to_bytes(words);
    assert_eq!(bytes[..5], [1, 2, 3, 4, 0]);
    assert_eq!(bytes[28..], [0xCC, 0xDD, 0xEE, 0xFF]);
}

#[test]
fn mixing_a_zero_state() {
    let mut state = [0u32; 16];
    g(&mut state, 0, 4, 8, 12, 1, 0);
    // One goes in, and each rotation spreads it.
    assert_eq!(state[0], 0x11);
    assert_eq!(state[12], 0x1100_0100);
    assert_eq!(state[8], 0x1101_0100);
    assert_eq!(state[4], 0x2022_0202);
}

#[test]
fn a_round_mixes_columns_then_diagonals() {
    let mut msg = [0u32; 16];
    for i in 0..16 {
        msg[i] = 0x0101_0101u32.wrapping_mul(i as u32 + 1);
    }
    let mut a = [3u32; 16];
    round(&mut a, &msg, 0);
    let mut b = [3u32; 16];
    g(&mut b, 0, 4, 8, 12, msg[0], msg[1]);
    g(&mut b, 1, 5, 9, 13, msg[2], msg[3]);
    g(&mut b, 2, 6, 10, 14, msg[4], msg[5]);
    g(&mut b, 3, 7, 11, 15, msg[6], msg[7]);
    g(&mut b, 0, 5, 10, 15, msg[8], msg[9]);
    g(&mut b, 1, 6, 11, 12, msg[10], msg[11]);
    g(&mut b, 2, 7, 8, 13, msg[12], msg[13]);
    g(&mut b, 3, 4, 9, 14, msg[14], msg[15]);
    assert_eq!(a, b);
    let mut c = [3u32; 16];
    round(&mut c, &msg, 1);
    assert_ne!(a, c);
}

#[test]
fn compression_uses_both_halves_of_the_counter() {
    let block = [0u8; 64];
    let zero = compress([0; 8], &block, 0, 64, 0);
    let low = compress([0; 8], &block, 1, 64, 0);
    let high = compress([0; 8], &block, 1 << 32, 64, 0);
    assert_ne!(zero, low);
    assert_ne!(zero, high);
    assert_ne!(low, high);
}

#[test]
fn sum256_known_answers() {
    assert_eq!(
        hex(&blake3_sum256(b"")),
        "af1349b9f5f9a1a6a0404dea36dcc9499bcb25c9adc112b7cc9a93cae41f3262"
    );
    assert_eq!(
        hex(&blake3_sum256(b"abc")),
        "6437b3ac38465133ffb63b75273a8db548c558465d79db03fd359c6cd5bd9d85"
    );
}

#[test]
fn ctr_stream_is_aes_256_ctr_under_the_vless_key() {
    let iv = [9u8; 16];
    let mut expected = vec![0x5Au8; 100];
    let k = blake3::derive_key("VLESS", b"secret");
    ctr::Ctr128BE::<aes::Aes256>::new((&k).into(), (&iv).into()).apply_keystream(&mut expected);
    let mut data = vec![0x5Au8; 100];
    new_ctr(b"secret", &iv).apply_keystream(&mut data);
    assert_eq!(data, expected);
    assert_ne!(data, vec![0x5Au8; 100]);
}

#[test]
fn ctr_stream_continues_over_pieces_and_undoes_itself() {
    let iv = [0xFFu8; 16];
    let text: Vec<u8> = (0..200u8).collect();
    let mut whole = text.clone();
    new_ctr(b"k", &iv).apply_keystream(&mut whole);
    let mut stream = new_ctr(b"k", &iv);
    let mut joined: Vec<u8> = Vec::new();
    for range in [0..1usize, 1..17, 17..17, 17..48, 48..200] {
        let mut piece = text[range].to_vec();
        stream.apply_keystream(&mut piece);
        joined.extend(piece);
    }
    assert_eq!(joined, whole);
    new_ctr(b"k", &iv).apply_keystream(&mut whole);
    assert_eq!(whole, text);
}

#[test]
fn ctr_stream_counts_blocks_as_128_bit_numbers() {
    let k = blake3::derive_key("VLESS", b"secret");
    let aes = aes::Aes256::new((&k).into());
    // The second one wraps after two blocks.
    for first in [0x00FF_FFFF_FFFF_FFFFu128, u128::MAX - 1] {
        let mut stream = vec![0u8; 100];
        new_ctr(b"secret", &first.to_be_bytes()).apply_keystream(&mut stream);
        for i in 0..100usize {
            let counter = first.wrapping_add((i / 16) as u128).to_be_bytes();
            let mut block = counter.into();
            aes.encrypt_block(&mut block);
            assert_eq!(stream[i], block[i % 16]);
        }
    }
}
