//! Record-layer authenticated encryption with a nonce counter.
use vstd::prelude::*;

use crate::kdf::derive_key;
use crate::nonce::MAX_NONCE;
use crate::TAG_LEN;
use aes_gcm::aead::{Aead as _, Payload};
use aes_gcm::KeyInit;

verus! {

/// The longest message, and the longest associated data, that AES-256-GCM seals.
pub const AES_MAX_LEN: u64 = 0x10_0000_0000;

/// The longest message that ChaCha20-Poly1305 seals: all blocks but the first of
/// the keystream that a 32-bit block counter reaches.
pub const CHACHA_MAX_LEN: u64 = 0x3F_FFFF_FF80;

/// The error type that the cipher crates share.
#[verifier::external_type_specification]
#[verifier::external_body]
pub struct ExAeadError(aes_gcm::Error);

/// What AES-256-GCM makes of `msg`: the ciphertext followed by the tag.
pub uninterp spec fn aes_256_gcm_sealed(
    key: Seq<u8>,
    nonce: Seq<u8>,
    msg: Seq<u8>,
    ad: Seq<u8>,
) -> Seq<u8>;

/// What AES-256-GCM reads in `ct`, or nothing where it rejects it.
pub uninterp spec fn aes_256_gcm_opened(
    key: Seq<u8>,
    nonce: Seq<u8>,
    ct: Seq<u8>,
    ad: Seq<u8>,
) -> Option<Seq<u8>>;

/// What ChaCha20-Poly1305 makes of `msg`: the ciphertext followed by the tag.
pub uninterp spec fn chacha20_poly1305_sealed(
    key: Seq<u8>,
    nonce: Seq<u8>,
    msg: Seq<u8>,
    ad: Seq<u8>,
) -> Seq<u8>;

/// What ChaCha20-Poly1305 reads in `ct`, or nothing where it rejects it.
pub uninterp spec fn chacha20_poly1305_opened(
    key: Seq<u8>,
    nonce: Seq<u8>,
    ct: Seq<u8>,
    ad: Seq<u8>,
) -> Option<Seq<u8>>;

/// The plaintext of a decryption by value, or nothing for an error.
pub open spec fn accepted(result: Result<Vec<u8>, aes_gcm::Error>) -> Option<Seq<u8>> {
    match result {
        Ok(msg) => Some(msg@),
        Err(_) => None,
    }
}

/// Calls `aes_gcm::Aes256Gcm::encrypt`. Claims that within the length limits it
/// succeeds, that the result depends on the arguments alone and is one tag
/// longer than the message, and that decryption with the same key, nonce and
/// associated data gives the message back.
#[verifier::external_body]
fn aes_256_gcm_encrypt(key: &[u8; 32], nonce: &[u8; 12], msg: &[u8], ad: &[u8]) -> (ct: Result<
    Vec<u8>,
    aes_gcm::Error,
>)
    requires
        msg@.len() + TAG_LEN <= isize::MAX,
        msg@.len() <= AES_MAX_LEN,
        ad@.len() <= AES_MAX_LEN,
    ensures
        accepted(ct) == Some(aes_256_gcm_sealed(key@, nonce@, msg@, ad@)),
        ct matches Ok(bytes) ==> {
            &&& bytes@.len() == msg@.len() + TAG_LEN
            &&& aes_256_gcm_opened(key@, nonce@, bytes@, ad@) == Some(msg@)
        },
{
    aes_gcm::Aes256Gcm::new(key.into()).encrypt(nonce.into(), Payload { msg, aad: ad })
}

/// Calls `aes_gcm::Aes256Gcm::decrypt`. Claims that the result depends on the
/// arguments alone, that an accepted plaintext is one tag shorter than the
/// ciphertext, and that encrypting it again, where its length allows, gives the
/// ciphertext.
#[verifier::external_body]
fn aes_256_gcm_decrypt(key: &[u8; 32], nonce: &[u8; 12], ct: &[u8], ad: &[u8]) -> (msg: Result<
    Vec<u8>,
    aes_gcm::Error,
>)
    ensures
        accepted(msg) == aes_256_gcm_opened(key@, nonce@, ct@, ad@),
        msg matches Ok(bytes) ==> {
            &&& bytes@.len() + TAG_LEN == ct@.len()
            &&& bytes@.len() <= AES_MAX_LEN ==> ct@ == aes_256_gcm_sealed(
                key@,
                nonce@,
                bytes@,
                ad@,
            )
        },
{
    aes_gcm::Aes256Gcm::new(key.into()).decrypt(nonce.into(), Payload { msg: ct, aad: ad })
}

/// Calls `chacha20poly1305::ChaCha20Poly1305::encrypt`. Claims that within the
/// length limit it succeeds, that the result depends on the arguments alone and
/// is one tag longer than the message, and that decryption with the same key,
/// nonce and associated data gives the message back.
#[verifier::external_body]
fn chacha20_poly1305_encrypt(key: &[u8; 32], nonce: &[u8; 12], msg: &[u8], ad: &[u8]) -> (ct:
    Result<Vec<u8>, aes_gcm::Error>)
    requires
        msg@.len() + TAG_LEN <= isize::MAX,
        msg@.len() <= CHACHA_MAX_LEN,
    ensures
        accepted(ct) == Some(chacha20_poly1305_sealed(key@, nonce@, msg@, ad@)),
        ct matches Ok(bytes) ==> {
            &&& bytes@.len() == msg@.len() + TAG_LEN
            &&& chacha20_poly1305_opened(key@, nonce@, bytes@, ad@) == Some(msg@)
        },
{
    chacha20poly1305::ChaCha20Poly1305::new(key.into()).encrypt(
        nonce.into(),
        Payload { msg, aad: ad },
    )
}

/// Calls `chacha20poly1305::ChaCha20Poly1305::decrypt`. Claims that the result
/// depends on the arguments alone, that an accepted plaintext is one tag shorter
/// than the ciphertext, and that encrypting it again gives the ciphertext. A
/// longer ciphertext than the bound could run the keystream out, on which the
/// crate panics.
#[verifier::external_body]
fn chacha20_poly1305_decrypt(key: &[u8; 32], nonce: &[u8; 12], ct: &[u8], ad: &[u8]) -> (msg:
    Result<Vec<u8>, aes_gcm::Error>)
    requires
        ct@.len() <= CHACHA_MAX_LEN + TAG_LEN,
    ensures
        accepted(msg) == chacha20_poly1305_opened(key@, nonce@, ct@, ad@),
        msg matches Ok(bytes) ==> {
            &&& bytes@.len() + TAG_LEN == ct@.len()
            &&& ct@ == chacha20_poly1305_sealed(key@, nonce@, bytes@, ad@)
        },
{
    chacha20poly1305::ChaCha20Poly1305::new(key.into()).decrypt(
        nonce.into(),
        Payload { msg: ct, aad: ad },
    )
}

/// A ciphertext was not accepted: it is no sealing under this key, nonce and
/// associated data.
#[derive(Debug, Clone, Copy, PartialEq, Eq, Structural)]
pub struct OpenError;

/// The cipher of a record layer, with its key.
#[derive(Clone, Copy)]
pub enum Cipher {
    /// AES-256-GCM.
    Aes([u8; 32]),
    /// ChaCha20-Poly1305.
    Chacha([u8; 32]),
}

impl Cipher {
    /// Whether a message and associated data of these lengths can be sealed.
    pub open spec fn seals(self, msg_len: nat, ad_len: nat) -> bool {
        &&& msg_len + TAG_LEN <= isize::MAX
        &&& match self {
            Cipher::Aes(_) => msg_len <= AES_MAX_LEN && ad_len <= AES_MAX_LEN,
            Cipher::Chacha(_) => msg_len <= CHACHA_MAX_LEN,
        }
    }

    /// What the cipher makes of `msg` under `nonce` and the associated data `ad`.
    pub open spec fn sealed(self, nonce: Seq<u8>, msg: Seq<u8>, ad: Seq<u8>) -> Seq<u8> {
        match self {
            Cipher::Aes(key) => aes_256_gcm_sealed(key@, nonce, msg, ad),
            Cipher::Chacha(key) => chacha20_poly1305_sealed(key@, nonce, msg, ad),
        }
    }

    /// What the cipher reads in `ct` under `nonce` and the associated data `ad`,
    /// or nothing where it rejects it.
    pub open spec fn opened(self, nonce: Seq<u8>, ct: Seq<u8>, ad: Seq<u8>) -> Option<Seq<u8>> {
        match self {
            Cipher::Aes(key) => aes_256_gcm_opened(key@, nonce, ct, ad),
            Cipher::Chacha(key) => if ct.len() <= CHACHA_MAX_LEN + TAG_LEN {
                chacha20_poly1305_opened(key@, nonce, ct, ad)
            } else {
                None
            },
        }
    }

    /// `ct` is `msg` sealed under `nonce` and `ad`, and opens to it again.
    pub open spec fn seals_to(
        self,
        nonce: Seq<u8>,
        msg: Seq<u8>,
        ad: Seq<u8>,
        ct: Seq<u8>,
    ) -> bool {
        &&& ct == self.sealed(nonce, msg, ad)
        &&& ct.len() == msg.len() + TAG_LEN
        &&& self.opened(nonce, ct, ad) == Some(msg)
    }

    /// `result` is what opening `ct` under `nonce` and `ad` gives: the plaintext,
    /// one tag shorter, of which `ct` is the sealing, or the error where the
    /// cipher rejects `ct`.
    pub open spec fn opens_to(
        self,
        nonce: Seq<u8>,
        ct: Seq<u8>,
        ad: Seq<u8>,
        result: Result<Vec<u8>, OpenError>,
    ) -> bool {
        match result {
            Ok(msg) => {
                &&& self.opened(nonce, ct, ad) == Some(msg@)
                &&& msg@.len() + TAG_LEN == ct.len()
                &&& self.seals(msg@.len(), ad.len()) ==> ct == self.sealed(nonce, msg@, ad)
            },
            Err(_) => self.opened(nonce, ct, ad) is None,
        }
    }
}

/// A cipher with a nonce counter of its own.
pub struct Aead {
    pub cipher: Cipher,
    pub nonce: [u8; 12],
}

/// `aead` is a fresh instance: the derived key, the chosen cipher and the counter
/// at zero.
pub open spec fn made_from(aead: Aead, ctx: Seq<u8>, key: Seq<u8>, use_aes: bool) -> bool {
    &&& match aead.cipher {
        Cipher::Aes(k) => use_aes && k@ == crate::kdf::derived_key(ctx, key),
        Cipher::Chacha(k) => !use_aes && k@ == crate::kdf::derived_key(ctx, key),
    }
    &&& aead.nonce@ == Seq::new(12, |i: int| 0u8)
}

/// Sealing with the counter takes `before` to `after` and gives `ct`: the
/// counter goes up first, and the new nonce is used.
pub open spec fn seal_step(
    before: Aead,
    after: Aead,
    plaintext: Seq<u8>,
    ad: Seq<u8>,
    ct: Seq<u8>,
) -> bool {
    &&& after.cipher == before.cipher
    &&& after.nonce@ == crate::nonce::incremented(before.nonce@)
    &&& before.cipher.seals_to(after.nonce@, plaintext, ad, ct)
}

/// Opening with the counter takes `before` to `after` and gives `result`: the
/// counter goes up first, whatever comes of it, and the new nonce is used.
pub open spec fn open_step(
    before: Aead,
    after: Aead,
    ct: Seq<u8>,
    ad: Seq<u8>,
    result: Result<Vec<u8>, OpenError>,
) -> bool {
    &&& after.cipher == before.cipher
    &&& after.nonce@ == crate::nonce::incremented(before.nonce@)
    &&& before.cipher.opens_to(after.nonce@, ct, ad, result)
}

impl Aead {
    /// The number that the nonce counter stands at.
    pub open spec fn counter(&self) -> nat {
        crate::nonce::be_value(self.nonce@)
    }

    /// An instance for the key that BLAKE3 derives from `key` for the context
    /// `ctx`, with AES-256-GCM or ChaCha20-Poly1305 and the counter at zero.
    pub fn new(ctx: &[u8], key: &[u8], use_aes: bool) -> (aead: Self)
        ensures
            made_from(aead, ctx@, key@, use_aes),
            match aead.cipher {
                Cipher::Aes(k) => use_aes && k@ == crate::kdf::derived_key(ctx@, key@),
                Cipher::Chacha(k) => !use_aes && k@ == crate::kdf::derived_key(ctx@, key@),
            },
            forall|i: int| 0 <= i < 12 ==> #[trigger] aead.nonce@[i] == 0,
    {
        let k = derive_key(ctx, key);
        let cipher = if use_aes {
            Cipher::Aes(k)
        } else {
            Cipher::Chacha(k)
        };
        let aead = Aead { cipher, nonce: [0u8; 12] };
        assert(aead.nonce@ =~= Seq::new(12, |i: int| 0u8));
        aead
    }

    /// Moves the counter to the next nonce; the largest one wraps to zero.
    pub fn increment_nonce(&mut self)
        ensures
            final(self).cipher == old(self).cipher,
            final(self).nonce@ == crate::nonce::incremented(old(self).nonce@),
            final(self).counter() == (old(self).counter() + 1) % crate::nonce::nonce_space(),
            crate::nonce::be_value(final(self).nonce@) == (crate::nonce::be_value(old(self).nonce@)
                + 1) as nat % 0x1_0000_0000_0000_0000_0000_0000nat,
    {
        let ghost start = self.nonce@;
        let mut i: usize = 0;
        proof {
            crate::nonce::lemma_nonce_space();
            crate::nonce::lemma_be_value_bound(start);
            crate::nonce::lemma_incremented_value(start);
            assert(start.take(12) =~= start);
            assert(crate::nonce::incremented(start) =~= crate::nonce::incremented(start.take(12))
                + zeros(0));
        }
        while i < 12
            invariant_except_break
                i <= 12,
                self.nonce@ == start.take(12 - i) + zeros(i as nat),
                crate::nonce::incremented(start) == crate::nonce::incremented(start.take(12 - i))
                    + zeros(i as nat),
            invariant
                start.len() == 12,
                self.cipher == old(self).cipher,
            ensures
                self.nonce@ == crate::nonce::incremented(start),
            decreases 12 - i,
        {
            let idx: usize = 11 - i;
            let ghost head = start.take(12 - i);
            assert(head.last() == self.nonce@[idx as int]);
            assert(head.drop_last() =~= start.take(11 - i));
            self.nonce[idx] = self.nonce[idx].wrapping_add(1);
            if self.nonce[idx] != 0 {
                assert(self.nonce@ =~= crate::nonce::incremented(head) + zeros(i as nat));
                break;
            }
            assert(self.nonce@ =~= start.take(11 - i) + zeros((i + 1) as nat));
            assert(crate::nonce::incremented(head) + zeros(i as nat) =~= crate::nonce::incremented(
                start.take(11 - i),
            ) + zeros((i + 1) as nat));
            i = i + 1;
            assert(i == 12 ==> self.nonce@ =~= crate::nonce::incremented(start));
        }
    }

    /// Whether the counter stands at the largest nonce, where the record layer
    /// has to take a new key.
    pub fn is_exhausted(&self) -> (exhausted: bool)
        ensures
            exhausted == (self.nonce@ == MAX_NONCE@),
            exhausted == (self.counter() == crate::nonce::nonce_space() - 1),
            exhausted == (forall|i: int| 0 <= i < 12 ==> #[trigger] self.nonce@[i] == 0xFF),
    {
        proof {
            crate::nonce::law_nonces_have_96_bits();
            crate::nonce::law_largest_nonce_wraps();
            if self.counter() == crate::nonce::nonce_space() - 1 {
                crate::nonce::law_value_determines_nonce(self.nonce@, MAX_NONCE@);
            }
        }
        for i in 0..12usize
            invariant
                (self.nonce@ == MAX_NONCE@) == (self.counter() == crate::nonce::nonce_space() - 1),
                forall|j: int| 0 <= j < i ==> self.nonce@[j] == MAX_NONCE@[j],
        {
            if self.nonce[i] != MAX_NONCE[i] {
                return false;
            }
        }
        assert(self.nonce@ =~= MAX_NONCE@);
        true
    }

    /// Seals under an explicit nonce; the counter is not used.
    pub fn encrypt(&self, nonce: &[u8; 12], plaintext: &[u8], ad: &[u8]) -> (ct: Vec<u8>)
        requires
            self.cipher.seals(plaintext@.len(), ad@.len()),
        ensures
            self.cipher.seals_to(nonce@, plaintext@, ad@, ct@),
            match self.cipher {
                Cipher::Aes(key) => ct@ == aes_256_gcm_sealed(key@, nonce@, plaintext@, ad@),
                Cipher::Chacha(key) => ct@ == chacha20_poly1305_sealed(
                    key@,
                    nonce@,
                    plaintext@,
                    ad@,
                ),
            },
            ct@.len() == plaintext@.len() + 16,
    {
        let result = match &self.cipher {
            Cipher::Aes(key) => aes_256_gcm_encrypt(key, nonce, plaintext, ad),
            Cipher::Chacha(key) => chacha20_poly1305_encrypt(key, nonce, plaintext, ad),
        };
        result.unwrap()
    }

    /// Opens under an explicit nonce; the counter is not used.
    pub fn decrypt(&self, nonce: &[u8; 12], ct: &[u8], ad: &[u8]) -> (result: Result<
        Vec<u8>,
        OpenError,
    >)
        ensures
            self.cipher.opens_to(nonce@, ct@, ad@, result),
            match (self.cipher, result) {
                (Cipher::Aes(key), Ok(msg)) => aes_256_gcm_opened(key@, nonce@, ct@, ad@) == Some(
                    msg@,
                ),
                (Cipher::Aes(key), Err(_)) => aes_256_gcm_opened(key@, nonce@, ct@, ad@) is None,
                (Cipher::Chacha(key), Ok(msg)) => chacha20_poly1305_opened(
                    key@,
                    nonce@,
                    ct@,
                    ad@,
                ) == Some(msg@),
                (Cipher::Chacha(key), Err(_)) => ct@.len() > 0x3F_FFFF_FF90
                    || chacha20_poly1305_opened(key@, nonce@, ct@, ad@) is None,
            },
            result matches Ok(msg) ==> ct@.len() == msg@.len() + 16,
    {
        let result = match &self.cipher {
            Cipher::Aes(key) => aes_256_gcm_decrypt(key, nonce, ct, ad),
            Cipher::Chacha(key) => {
                if ct.len() as u64 > CHACHA_MAX_LEN + TAG_LEN as u64 {
                    return Err(OpenError);
                }
                chacha20_poly1305_decrypt(key, nonce, ct, ad)
            },
        };
        match result {
            Ok(msg) => Ok(msg),
            Err(_) => Err(OpenError),
        }
    }

    /// Seals with the counter and no associated data.
    pub fn seal(&mut self, plaintext: &[u8]) -> (ct: Vec<u8>)
        requires
            old(self).cipher.seals(plaintext@.len(), 0),
        ensures
            seal_step(*old(self), *final(self), plaintext@, Seq::empty(), ct@),
    {
        self.increment_nonce();
        let nonce = self.nonce;
        let none: [u8; 0] = [];
        assert(none@ =~= Seq::<u8>::empty());
        self.encrypt(&nonce, plaintext, &none)
    }

    /// Seals with the counter and the associated data `ad`, a record header.
    pub fn seal_ad(&mut self, plaintext: &[u8], ad: &[u8]) -> (ct: Vec<u8>)
        requires
            old(self).cipher.seals(plaintext@.len(), ad@.len()),
        ensures
            seal_step(*old(self), *final(self), plaintext@, ad@, ct@),
    {
        self.increment_nonce();
        let nonce = self.nonce;
        self.encrypt(&nonce, plaintext, ad)
    }

    /// Seals with the largest nonce and no associated data; the counter stays.
    pub fn seal_max(&self, plaintext: &[u8]) -> (ct: Vec<u8>)
        requires
            self.cipher.seals(plaintext@.len(), 0),
        ensures
            self.cipher.seals_to(MAX_NONCE@, plaintext@, Seq::empty(), ct@),
    {
        let none: [u8; 0] = [];
        assert(none@ =~= Seq::<u8>::empty());
        self.encrypt(&MAX_NONCE, plaintext, &none)
    }

    /// Opens with the counter and no associated data.
    pub fn open(&mut self, ct: &[u8]) -> (result: Result<Vec<u8>, OpenError>)
        ensures
            open_step(*old(self), *final(self), ct@, Seq::empty(), result),
    {
        self.increment_nonce();
        let nonce = self.nonce;
        let none: [u8; 0] = [];
        assert(none@ =~= Seq::<u8>::empty());
        self.decrypt(&nonce, ct, &none)
    }

    /// Opens with the counter and the associated data `ad`, a record header.
    pub fn open_ad(&mut self, ct: &[u8], ad: &[u8]) -> (result: Result<Vec<u8>, OpenError>)
        ensures
            open_step(*old(self), *final(self), ct@, ad@, result),
    {
        self.increment_nonce();
        let nonce = self.nonce;
        self.decrypt(&nonce, ct, ad)
    }

    /// Opens with the largest nonce and no associated data; the counter stays.
    pub fn open_max(&self, ct: &[u8]) -> (result: Result<Vec<u8>, OpenError>)
        ensures
            self.cipher.opens_to(MAX_NONCE@, ct@, Seq::empty(), result),
    {
        let none: [u8; 0] = [];
        assert(none@ =~= Seq::<u8>::empty());
        self.decrypt(&MAX_NONCE, ct, &none)
    }
}

/// A run of zero bytes.
spec fn zeros(n: nat) -> Seq<u8> {
    Seq::new(n, |i: int| 0u8)
}

/// Two instances stand at the same point: same cipher and key, same nonce.
pub open spec fn in_step(a: Aead, b: Aead) -> bool {
    &&& a.cipher == b.cipher
    &&& a.nonce@ == b.nonce@
}

/// A receiver in step with the sender opens what the sender sealed: it gets the
/// plaintext, and both stay in step.
pub proof fn law_open_undoes_seal(
    sender: Aead,
    sender_after: Aead,
    receiver: Aead,
    receiver_after: Aead,
    plaintext: Seq<u8>,
    ad: Seq<u8>,
    ct: Seq<u8>,
    result: Result<Vec<u8>, OpenError>,
)
    requires
        in_step(sender, receiver),
        seal_step(sender, sender_after, plaintext, ad, ct),
        open_step(receiver, receiver_after, ct, ad, result),
    ensures
        result matches Ok(msg) && msg@ == plaintext,
        in_step(sender_after, receiver_after),
{
}

/// The same for a whole stream of records: when each side goes through its
/// states record by record, the receiver reads every plaintext in order.
pub proof fn law_stream_round_trip(
    sender: Seq<Aead>,
    receiver: Seq<Aead>,
    plaintexts: Seq<Seq<u8>>,
    ads: Seq<Seq<u8>>,
    cts: Seq<Seq<u8>>,
    results: Seq<Result<Vec<u8>, OpenError>>,
    n: nat,
)
    requires
        sender.len() == n + 1,
        receiver.len() == n + 1,
        in_step(sender[0], receiver[0]),
        forall|i: int|
            0 <= i < n ==> #[trigger] seal_step(
                sender[i],
                sender[i + 1],
                plaintexts[i],
                ads[i],
                cts[i],
            ),
        forall|i: int|
            0 <= i < n ==> #[trigger] open_step(
                receiver[i],
                receiver[i + 1],
                cts[i],
                ads[i],
                results[i],
            ),
    ensures
        forall|i: int|
            0 <= i < n ==> (#[trigger] results[i] matches Ok(msg) && msg@ == plaintexts[i]),
        in_step(sender[n as int], receiver[n as int]),
    decreases n,
{
    if n > 0 {
        let last = n - 1;
        law_stream_round_trip(
            sender.drop_last(),
            receiver.drop_last(),
            plaintexts,
            ads,
            cts,
            results,
            last as nat,
        );
        assert(seal_step(sender[last], sender[last + 1], plaintexts[last], ads[last], cts[last]));
        assert(open_step(receiver[last], receiver[last + 1], cts[last], ads[last], results[last]));
        law_open_undoes_seal(
            sender[last],
            sender[last + 1],
            receiver[last],
            receiver[last + 1],
            plaintexts[last],
            ads[last],
            cts[last],
            results[last],
        );
    }
}

/// Only sealed records are accepted: what opens to a plaintext is that plaintext
/// sealed, under the same nonce and associated data.
pub proof fn law_accepted_records_are_sealed(
    before: Aead,
    after: Aead,
    ct: Seq<u8>,
    ad: Seq<u8>,
    msg: Vec<u8>,
)
    requires
        open_step(before, after, ct, ad, Ok(msg)),
        before.cipher.seals(msg@.len(), ad.len()),
    ensures
        ct == before.cipher.sealed(after.nonce@, msg@, ad),
{
}

/// The fixed-position seal of one side opens on the other, wherever their
/// counters stand.
pub proof fn law_open_max_undoes_seal_max(
    sender: Aead,
    receiver: Aead,
    plaintext: Seq<u8>,
    ct: Seq<u8>,
    result: Result<Vec<u8>, OpenError>,
)
    requires
        sender.cipher == receiver.cipher,
        sender.cipher.seals_to(MAX_NONCE@, plaintext, Seq::empty(), ct),
        receiver.cipher.opens_to(MAX_NONCE@, ct, Seq::empty(), result),
    ensures
        result matches Ok(msg) && msg@ == plaintext,
{
}

/// A message and associated data can be sealed as long as they are no longer than
/// the cipher allows, so every record can.
pub proof fn law_sealable_lengths(cipher: Cipher, msg_len: nat, ad_len: nat)
    ensures
        cipher.seals(msg_len, ad_len) <==> msg_len + 16 <= isize::MAX && match cipher {
            Cipher::Aes(_) => msg_len <= 0x10_0000_0000 && ad_len <= 0x10_0000_0000,
            Cipher::Chacha(_) => msg_len <= 0x3F_FFFF_FF80,
        },
        msg_len <= 16640 && ad_len <= 16640 ==> cipher.seals(msg_len, ad_len),
{
}

/// What a decryption accepted is its plaintext, and an error is nothing.
pub proof fn law_accepted_is_the_plaintext(msg: Vec<u8>, error: aes_gcm::Error)
    ensures
        accepted(Ok(msg)) == Some(msg@),
        accepted(Err(error)) is None,
{
}

/// A sealing is what the cipher itself makes of the plaintext, with the whole of
/// the associated data, under the key and the nonce; it is one tag longer, and the
/// cipher reads the plaintext in it.
pub proof fn law_sealing_is_the_cipher(
    cipher: Cipher,
    nonce: Seq<u8>,
    plaintext: Seq<u8>,
    ad: Seq<u8>,
    ct: Seq<u8>,
)
    requires
        cipher.seals_to(nonce, plaintext, ad, ct),
    ensures
        ct.len() == plaintext.len() + 16,
        match cipher {
            Cipher::Aes(key) => {
                &&& ct == aes_256_gcm_sealed(key@, nonce, plaintext, ad)
                &&& aes_256_gcm_opened(key@, nonce, ct, ad) == Some(plaintext)
            },
            Cipher::Chacha(key) => {
                &&& ct == chacha20_poly1305_sealed(key@, nonce, plaintext, ad)
                &&& chacha20_poly1305_opened(key@, nonce, ct, ad) == Some(plaintext)
            },
        },
{
}

/// Opening accepts exactly where the cipher itself does, with the whole of the
/// associated data, under the key and the nonce, and gives what it reads. Only a
/// ciphertext that ChaCha20-Poly1305 has no keystream for is refused unread.
pub proof fn law_opening_is_the_cipher(
    cipher: Cipher,
    nonce: Seq<u8>,
    ct: Seq<u8>,
    ad: Seq<u8>,
    result: Result<Vec<u8>, OpenError>,
)
    requires
        cipher.opens_to(nonce, ct, ad, result),
    ensures
        match (cipher, result) {
            (Cipher::Aes(key), Ok(msg)) => aes_256_gcm_opened(key@, nonce, ct, ad) == Some(msg@),
            (Cipher::Aes(key), Err(_)) => aes_256_gcm_opened(key@, nonce, ct, ad) is None,
            (Cipher::Chacha(key), Ok(msg)) => {
                &&& ct.len() <= 0x3F_FFFF_FF90
                &&& chacha20_poly1305_opened(key@, nonce, ct, ad) == Some(msg@)
            },
            (Cipher::Chacha(key), Err(_)) => ct.len() > 0x3F_FFFF_FF90
                || chacha20_poly1305_opened(key@, nonce, ct, ad) is None,
        },
        result matches Ok(msg) ==> ct.len() == msg@.len() + 16,
{
}

/// Sealing with the counter keeps the key, takes the nonce that is one higher and
/// seals under it with the whole of the associated data.
pub proof fn law_seal_uses_the_next_nonce(
    before: Aead,
    after: Aead,
    plaintext: Seq<u8>,
    ad: Seq<u8>,
    ct: Seq<u8>,
)
    requires
        seal_step(before, after, plaintext, ad, ct),
    ensures
        after.cipher == before.cipher,
        crate::nonce::be_value(after.nonce@) == (crate::nonce::be_value(before.nonce@) + 1) as nat
            % 0x1_0000_0000_0000_0000_0000_0000nat,
        ct.len() == plaintext.len() + 16,
        match before.cipher {
            Cipher::Aes(key) => ct == aes_256_gcm_sealed(key@, after.nonce@, plaintext, ad),
            Cipher::Chacha(key) => ct == chacha20_poly1305_sealed(
                key@,
                after.nonce@,
                plaintext,
                ad,
            ),
        },
{
    crate::nonce::law_counter_after(before.nonce@, 1);
    crate::nonce::law_increments_add_up(before.nonce@, 0);
    law_sealing_is_the_cipher(before.cipher, after.nonce@, plaintext, ad, ct);
}

/// Opening with the counter keeps the key and takes the nonce that is one higher,
/// whether the cipher accepts or not, and opens under it with the whole of the
/// associated data.
pub proof fn law_open_uses_the_next_nonce(
    before: Aead,
    after: Aead,
    ct: Seq<u8>,
    ad: Seq<u8>,
    result: Result<Vec<u8>, OpenError>,
)
    requires
        open_step(before, after, ct, ad, result),
    ensures
        after.cipher == before.cipher,
        crate::nonce::be_value(after.nonce@) == (crate::nonce::be_value(before.nonce@) + 1) as nat
            % 0x1_0000_0000_0000_0000_0000_0000nat,
        match (before.cipher, result) {
            (Cipher::Aes(key), Ok(msg)) => aes_256_gcm_opened(key@, after.nonce@, ct, ad) == Some(
                msg@,
            ),
            (Cipher::Aes(key), Err(_)) => aes_256_gcm_opened(key@, after.nonce@, ct, ad) is None,
            (Cipher::Chacha(key), Ok(msg)) => chacha20_poly1305_opened(
                key@,
                after.nonce@,
                ct,
                ad,
            ) == Some(msg@),
            (Cipher::Chacha(key), Err(_)) => ct.len() > 0x3F_FFFF_FF90 || chacha20_poly1305_opened(
                key@,
                after.nonce@,
                ct,
                ad,
            ) is None,
        },
{
    crate::nonce::law_counter_after(before.nonce@, 1);
    crate::nonce::law_increments_add_up(before.nonce@, 0);
    law_opening_is_the_cipher(before.cipher, after.nonce@, ct, ad, result);
}

/// Sealing under an explicit nonce does not look at the counter: two instances
/// with the same cipher and key give the same ciphertext, one tag longer than the
/// plaintext, wherever their counters stand.
pub proof fn law_encrypt_ignores_the_counter(
    a: Aead,
    b: Aead,
    nonce: Seq<u8>,
    plaintext: Seq<u8>,
    ad: Seq<u8>,
    ct_a: Seq<u8>,
    ct_b: Seq<u8>,
)
    requires
        a.cipher == b.cipher,
        a.cipher.seals_to(nonce, plaintext, ad, ct_a),
        b.cipher.seals_to(nonce, plaintext, ad, ct_b),
    ensures
        ct_a == ct_b,
        ct_a.len() == plaintext.len() + TAG_LEN,
{
}

/// Opening under an explicit nonce gives a plaintext exactly where the ciphertext
/// is what sealing that plaintext gives.
pub proof fn law_decrypt_inverts_encrypt(
    cipher: Cipher,
    nonce: Seq<u8>,
    ct: Seq<u8>,
    ad: Seq<u8>,
    result: Result<Vec<u8>, OpenError>,
    plaintext: Seq<u8>,
    encrypted: Seq<u8>,
)
    requires
        cipher.seals(plaintext.len(), ad.len()),
        cipher.seals_to(nonce, plaintext, ad, encrypted),
        cipher.opens_to(nonce, ct, ad, result),
    ensures
        (result matches Ok(msg) && msg@ == plaintext) <==> ct == encrypted,
{
}

/// Opening under an explicit nonce fails exactly where the ciphertext is no
/// sealing of anything, as it is where it is shorter than a tag. An accepted
/// plaintext is one tag shorter than its ciphertext.
pub proof fn law_decrypt_rejects_the_rest(
    cipher: Cipher,
    nonce: Seq<u8>,
    ct: Seq<u8>,
    ad: Seq<u8>,
    result: Result<Vec<u8>, OpenError>,
)
    requires
        cipher.opens_to(nonce, ct, ad, result),
        ct.len() >= TAG_LEN ==> cipher.seals((ct.len() - TAG_LEN) as nat, ad.len()),
    ensures
        result is Err <==> !exists|msg: Seq<u8>| #[trigger] cipher.seals_to(nonce, msg, ad, ct),
        ct.len() < TAG_LEN ==> result is Err,
        result matches Ok(msg) ==> msg@.len() == ct.len() - TAG_LEN,
{
    if let Ok(msg) = result {
        assert(cipher.seals_to(nonce, msg@, ad, ct));
    }
}

/// Two instances made from the same context, key and choice of cipher start in
/// step.
pub proof fn law_same_inputs_start_in_step(
    a: Aead,
    b: Aead,
    ctx: Seq<u8>,
    key: Seq<u8>,
    use_aes: bool,
)
    requires
        made_from(a, ctx, key, use_aes),
        made_from(b, ctx, key, use_aes),
    ensures
        in_step(a, b),
{
    match (a.cipher, b.cipher) {
        (Cipher::Aes(k), Cipher::Aes(l)) => {
            assert(k@ == l@);
            assert(k =~= l);
        },
        (Cipher::Chacha(k), Cipher::Chacha(l)) => {
            assert(k@ == l@);
            assert(k =~= l);
        },
        _ => {},
    }
}

} // verus!
