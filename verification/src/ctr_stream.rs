//! The AES-256-CTR stream that masks the handshake.
use vstd::prelude::*;

use crate::kdf::derive_key_for_str;
use ctr::cipher::{KeyIvInit, StreamCipher, StreamCipherSeek};

verus! {

/// One block of sixteen bytes under AES-256.
pub uninterp spec fn aes_256_block(key: Seq<u8>, block: Seq<u8>) -> Seq<u8>;

/// Byte number `offset` of the keystream for `key` and `iv`: each block of the
/// stream is a counter block under AES-256, and the counter blocks go up by one
/// from `iv` on, as 128-bit big-endian numbers.
pub open spec fn keystream_byte(key: Seq<u8>, iv: Seq<u8>, offset: nat) -> u8 {
    aes_256_block(key, crate::nonce::incremented_by(iv, offset / 16))[(offset % 16) as int]
}

/// `data` combined with the keystream from `offset` on.
pub open spec fn masked(key: Seq<u8>, iv: Seq<u8>, offset: nat, data: Seq<u8>) -> Seq<u8> {
    Seq::new(data.len(), |i: int| data[i] ^ keystream_byte(key, iv, (offset + i) as nat))
}

/// Calls `ctr::Ctr128BE::<aes::Aes256>::new`, `seek` and `apply_keystream`.
/// Claims that every byte is combined by exclusive or with the keystream byte of
/// its place: the stream is the AES-256 blocks of a 128-bit big-endian counter
/// that starts at `iv` and wraps. What AES-256 makes of a block is left to the
/// crate.
#[verifier::external_body]
fn apply_from(key: &[u8; 32], iv: &[u8; 16], offset: u128, data: &[u8]) -> (out: Vec<u8>)
    ensures
        out@.len() == data@.len(),
        forall|i: int|
            0 <= i < data@.len() ==> #[trigger] out@[i] == data@[i] ^ aes_256_block(
                key@,
                crate::nonce::incremented_by(iv@, ((offset + i) / 16) as nat),
            )[(offset + i) % 16],
{
    let mut cipher = ctr::Ctr128BE::<aes::Aes256>::new(key.into(), iv.into());
    cipher.seek(offset);
    let mut out = data.to_vec();
    cipher.apply_keystream(&mut out);
    out
}

/// AES-256 in counter mode with a 128-bit big-endian counter: a keystream and
/// the place reached in it.
pub struct Aes256Ctr {
    key: [u8; 32],
    iv: [u8; 16],
    position: u128,
}

impl Aes256Ctr {
    /// The AES key.
    pub closed spec fn key(&self) -> Seq<u8> {
        self.key@
    }

    /// The counter block that the stream started from.
    pub closed spec fn iv(&self) -> Seq<u8> {
        self.iv@
    }

    /// How many keystream bytes have been used.
    pub closed spec fn position(&self) -> nat {
        self.position as nat
    }

    /// Combines `data` with the next bytes of the keystream, which encrypts a
    /// plaintext and decrypts a ciphertext.
    pub fn apply_keystream(&mut self, data: &mut [u8])
        requires
            old(self).position() + old(data)@.len() <= u128::MAX,
        ensures
            final(data)@ == masked(
                old(self).key(),
                old(self).iv(),
                old(self).position(),
                old(data)@,
            ),
            final(data)@.len() == old(data)@.len(),
            forall|i: int|
                0 <= i < old(data)@.len() ==> #[trigger] final(data)@[i] == old(data)@[i]
                    ^ aes_256_block(
                    old(self).key(),
                    crate::nonce::incremented_by(
                        old(self).iv(),
                        ((old(self).position() + i) / 16) as nat,
                    ),
                )[(old(self).position() + i) % 16],
            final(self).key() == old(self).key(),
            final(self).iv() == old(self).iv(),
            final(self).position() == old(self).position() + old(data)@.len(),
    {
        let out = apply_from(&self.key, &self.iv, self.position, data);
        let ghost expected = masked(self.key(), self.iv(), self.position(), data@);
        assert(out@ =~= expected);
        let len: usize = data.len();
        for i in 0..len
            invariant
                len == data@.len() == out@.len(),
                forall|k: int| 0 <= k < i ==> data@[k] == out@[k],
        {
            data[i] = out[i];
        }
        assert(data@ =~= expected);
        self.position = self.position + len as u128;
    }
}

/// The bytes of `VLESS`, the context of the stream's key.
pub open spec fn vless_context() -> Seq<u8> {
    seq![0x56u8, 0x4Cu8, 0x45u8, 0x53u8, 0x53u8]
}

/// The stream for `key` and `iv`: the AES key is the one that BLAKE3 derives
/// from `key` for the context `VLESS`.
pub fn new_ctr(key: &[u8], iv: &[u8; 16]) -> (stream: Aes256Ctr)
    ensures
        stream.key() == crate::kdf::derived_key(vless_context(), key@),
        stream.key() == crate::kdf::derived_key(vstd::utf8::encode_utf8("VLESS"@), key@),
        stream.iv() == iv@,
        stream.position() == 0,
{
    proof {
        reveal_strlit("VLESS");
        vstd::utf8::is_ascii_chars_encode_utf8("VLESS"@);
        assert(vstd::utf8::encode_utf8("VLESS"@) =~= vless_context());
    }
    let k = derive_key_for_str("VLESS", key);
    Aes256Ctr { key: k, iv: *iv, position: 0 }
}

/// Counter block number `n` of a stream is its first one plus `n`, modulo 2^128.
pub proof fn law_counter_block(iv: Seq<u8>, n: nat)
    requires
        iv.len() == 16,
    ensures
        crate::nonce::incremented_by(iv, n).len() == 16,
        crate::nonce::be_value(crate::nonce::incremented_by(iv, n)) == (crate::nonce::be_value(iv)
            + n) % 0x1_0000_0000_0000_0000_0000_0000_0000_0000nat,
    decreases n,
{
    reveal_with_fuel(crate::nonce::byte_space, 17);
    crate::nonce::lemma_be_value_bound(iv);
    if n > 0 {
        let before = crate::nonce::incremented_by(iv, (n - 1) as nat);
        law_counter_block(iv, (n - 1) as nat);
        crate::nonce::lemma_incremented_value(before);
        crate::nonce::lemma_be_value_bound(before);
    }
}

/// The byte at place `i` of data that meets the keystream at `position` is combined
/// with byte `(position + i) % 16` of one AES-256 block: the block of the counter
/// that is `(position + i) / 16` above the first one, modulo 2^128.
pub proof fn law_masked_byte(
    key: Seq<u8>,
    iv: Seq<u8>,
    position: nat,
    data: Seq<u8>,
    i: int,
    counter: Seq<u8>,
)
    requires
        iv.len() == 16,
        0 <= i < data.len(),
        counter.len() == 16,
        crate::nonce::be_value(counter) == (crate::nonce::be_value(iv) + ((position + i)
            / 16) as nat) % 0x1_0000_0000_0000_0000_0000_0000_0000_0000nat,
    ensures
        masked(key, iv, position, data).len() == data.len(),
        masked(key, iv, position, data)[i] == data[i] ^ aes_256_block(key, counter)[(position + i)
            % 16],
{
    let n = ((position + i) / 16) as nat;
    law_counter_block(iv, n);
    crate::nonce::law_value_determines_nonce(crate::nonce::incremented_by(iv, n), counter);
}

/// Applying the same stretch of a keystream twice gives the data back, so a peer
/// with the same key and initialisation vector reads what was written.
pub proof fn law_masking_undoes_itself(key: Seq<u8>, iv: Seq<u8>, offset: nat, data: Seq<u8>)
    ensures
        masked(key, iv, offset, masked(key, iv, offset, data)) == data,
{
    let once = masked(key, iv, offset, data);
    let twice = masked(key, iv, offset, once);
    assert forall|i: int| 0 <= i < data.len() implies twice[i] == data[i] by {
        let b = data[i];
        let k = keystream_byte(key, iv, (offset + i) as nat);
        assert((b ^ k) ^ k == b) by (bit_vector);
    }
    assert(twice =~= data);
}

/// Where the data is cut into pieces does not matter: two pieces in turn give
/// what the whole gives at once.
pub proof fn law_masking_continues(
    key: Seq<u8>,
    iv: Seq<u8>,
    offset: nat,
    head: Seq<u8>,
    tail: Seq<u8>,
)
    ensures
        masked(key, iv, offset, head + tail) == masked(key, iv, offset, head) + masked(
            key,
            iv,
            offset + head.len(),
            tail,
        ),
{
    assert(masked(key, iv, offset, head + tail) =~= masked(key, iv, offset, head) + masked(
        key,
        iv,
        offset + head.len(),
        tail,
    ));
}

} // verus!
