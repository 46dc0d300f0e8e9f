//! The record layer of VLESS encryption: key derivation, authenticated
//! encryption with a nonce counter, framing and padding.
//!
//! - [`blake3_spec`] writes down what BLAKE3 computes, and [`blake3_laws`] what
//!   holds of it.
//! - [`blake3_ctx`] hashes key-derivation contexts of arbitrary bytes, and
//!   [`blake3_tree`] shows why its left-to-right pass builds the right tree.
//! - [`kdf`] derives keys and hashes.
//! - [`aead`] seals and opens records, counting nonces as [`nonce`] says.
//! - [`ctr_stream`] is the keystream that masks the handshake, over a counter of
//!   the same kind.
//! - [`framing`] reads and writes length prefixes and record headers.
//! - [`padding`] reads padding schedules, with [`number`], and makes padding.
use vstd::prelude::*;

pub mod aead;
pub mod blake3_ctx;
pub mod blake3_laws;
pub mod blake3_spec;
pub mod blake3_tree;
pub mod ctr_stream;
pub mod framing;
pub mod kdf;
pub mod nonce;
pub mod number;
pub mod padding;

pub use aead::{Aead, OpenError};
pub use ctr_stream::{new_ctr, Aes256Ctr};
pub use framing::{decode_header, decode_length, encode_header, encode_length, InvalidHeader};
pub use kdf::{blake3_sum256, derive_key};
pub use nonce::MAX_NONCE;
pub use padding::{create_padding, parse_padding, Padding};

verus! {

/// X25519 public key and shared secret length.
pub const X25519_LEN: usize = 32;

/// ML-KEM-768 encapsulation key length.
pub const MLKEM768_EK_LEN: usize = 1184;

/// ML-KEM-768 ciphertext length.
pub const MLKEM768_CT_LEN: usize = 1088;

/// AEAD tag length, of both ciphers.
pub const TAG_LEN: usize = 16;

} // verus!
