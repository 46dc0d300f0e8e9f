//! Hashing and key derivation on top of the `blake3` crate.
use vstd::prelude::*;

use crate::blake3_ctx::context_key;
use crate::blake3_spec::Mode;
use blake3::hazmat::HasherExt;

verus! {

/// The BLAKE3 digest of `data`.
pub open spec fn digest(data: Seq<u8>) -> Seq<u8> {
    crate::blake3_spec::tree_hash(crate::blake3_spec::hash_mode(), data)
}

/// The BLAKE3 digest of `material` in the key-material stage of key derivation,
/// under the 32-byte `context_key`.
pub open spec fn material_digest(context_key: Seq<u8>, material: Seq<u8>) -> Seq<u8> {
    crate::blake3_spec::tree_hash(crate::blake3_spec::material_mode(context_key), material)
}

/// The key that BLAKE3 derives from `material` for the context bytes `ctx`: the
/// context is hashed to a key, and that key hashes the material.
pub open spec fn derived_key(ctx: Seq<u8>, material: Seq<u8>) -> Seq<u8> {
    material_digest(crate::blake3_spec::context_hash(ctx), material)
}

/// Calls `blake3::hash`. Claims that it is the BLAKE3 tree hash in the plain
/// hashing mode: the initial chaining value as key, and no mode flag.
#[verifier::external_body]
fn hash_data(data: &[u8]) -> (hash: [u8; 32])
    ensures
        hash@ == digest(data@),
{
    *blake3::hash(data).as_bytes()
}

/// Calls `blake3::Hasher::new_from_context_key`, then `update` and `finalize`.
/// Claims that together they are the BLAKE3 tree hash in the key-material mode:
/// the little-endian words of the context key as key, and `DERIVE_KEY_MATERIAL`
/// at every node.
#[verifier::external_body]
fn hash_material(context_key: &[u8; 32], material: &[u8]) -> (hash: [u8; 32])
    ensures
        hash@ == material_digest(context_key@, material@),
{
    let mut hasher = blake3::Hasher::new_from_context_key(context_key);
    hasher.update(material);
    *hasher.finalize().as_bytes()
}

/// Calls `blake3::hazmat::hash_derive_key_context`. Claims that it is the BLAKE3
/// tree hash of the UTF-8 bytes of the context, with `DERIVE_KEY_CONTEXT` at
/// every node.
#[verifier::external_body]
fn context_key_for_str(context: &str) -> (key: [u8; 32])
    ensures
        key@ == crate::blake3_spec::context_hash(vstd::utf8::encode_utf8(context@)),
{
    blake3::hazmat::hash_derive_key_context(context)
}

/// Calls `blake3::derive_key`. Claims what the crate documents of it: it hashes
/// the UTF-8 bytes of the context to a context key, and the material under that
/// key.
#[verifier::external_body]
pub(crate) fn derive_key_for_str(context: &str, material: &[u8]) -> (key: [u8; 32])
    ensures
        key@ == derived_key(vstd::utf8::encode_utf8(context@), material@),
{
    blake3::derive_key(context, material)
}

/// BLAKE3 key derivation with a context of arbitrary bytes: an initialisation
/// vector, a public key, a record. For the bytes of a string it is the key that
/// `blake3::derive_key` gives for that string.
pub fn derive_key(ctx: &[u8], key_material: &[u8]) -> (key: [u8; 32])
    ensures
        key@ == derived_key(ctx@, key_material@),
{
    let context = context_key(ctx);
    hash_material(&context, key_material)
}

/// The BLAKE3-256 hash of `data`.
pub fn blake3_sum256(data: &[u8]) -> (hash: [u8; 32])
    ensures
        hash@ == digest(data@),
{
    hash_data(data)
}

/// The context key of a string, by `context_key` over its bytes and by
/// `blake3::hazmat::hash_derive_key_context`. For every string the two are the
/// same.
pub fn context_keys_of_str(context: &str) -> (keys: ([u8; 32], [u8; 32]))
    ensures
        keys.0@ == crate::blake3_spec::context_hash(vstd::utf8::encode_utf8(context@)),
        keys.0 == keys.1,
{
    let by_bytes = context_key(context.as_bytes());
    let by_crate = context_key_for_str(context);
    assert(by_bytes =~= by_crate);
    (by_bytes, by_crate)
}

/// The key derived for a string, by `derive_key` over its bytes and by
/// `blake3::derive_key`. For every string and every material the two are the
/// same.
pub fn derived_keys_of_str(context: &str, material: &[u8]) -> (keys: ([u8; 32], [u8; 32]))
    ensures
        keys.0@ == derived_key(vstd::utf8::encode_utf8(context@), material@),
        keys.0 == keys.1,
{
    let by_bytes = derive_key(context.as_bytes(), material);
    let by_crate = derive_key_for_str(context, material);
    assert(by_bytes =~= by_crate);
    (by_bytes, by_crate)
}

/// Data is hashed as it stands: its digest is that of the tree over its bytes, with
/// the initial words as key and no flag.
pub proof fn law_data_is_hashed_as_it_stands(data: Seq<u8>)
    ensures
        digest(data) == crate::blake3_spec::tree_hash(
            (Mode {
                key: seq![
                    0x6A09E667u32,
                    0xBB67AE85,
                    0x3C6EF372,
                    0xA54FF53A,
                    0x510E527F,
                    0x9B05688C,
                    0x1F83D9AB,
                    0x5BE0CD19,
                ],
                flag: 0,
            }),
            data,
        ),
{
    crate::blake3_laws::lemma_initial_words();
}

/// Key material is hashed as it stands, keyed by the hash of the context: the key
/// words are that hash read little-endian, and the flag is 64.
pub proof fn law_material_is_hashed_under_the_context(
    ctx: Seq<u8>,
    material: Seq<u8>,
    words: Seq<u32>,
)
    requires
        words.len() == 8,
        forall|i: int|
            0 <= i < 8 ==> #[trigger] words[i] == crate::blake3_spec::context_hash(ctx)[4 * i] + 256
                * crate::blake3_spec::context_hash(ctx)[4 * i + 1] + 65536
                * crate::blake3_spec::context_hash(ctx)[4 * i + 2] + 16777216
                * crate::blake3_spec::context_hash(ctx)[4 * i + 3],
    ensures
        derived_key(ctx, material) == crate::blake3_spec::tree_hash(
            (Mode { key: words, flag: 64 }),
            material,
        ),
{
    let mode = crate::blake3_spec::material_mode(crate::blake3_spec::context_hash(ctx));
    assert(mode.key =~= words);
}

/// The material stage under any context key of 32 bytes, read as little-endian
/// words.
pub proof fn law_material_is_hashed_as_it_stands(
    context_key: Seq<u8>,
    material: Seq<u8>,
    words: Seq<u32>,
)
    requires
        context_key.len() == 32,
        words.len() == 8,
        forall|i: int|
            0 <= i < 8 ==> #[trigger] words[i] == context_key[4 * i] + 256 * context_key[4 * i + 1]
                + 65536 * context_key[4 * i + 2] + 16777216 * context_key[4 * i + 3],
    ensures
        material_digest(context_key, material) == crate::blake3_spec::tree_hash(
            (Mode { key: words, flag: 64 }),
            material,
        ),
{
    assert(crate::blake3_spec::material_mode(context_key).key =~= words);
}

} // verus!
