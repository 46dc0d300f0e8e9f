//! What BLAKE3 computes: the compression function, the chunk and parent nodes,
//! and the binary tree over the chunks, in the modes that are used here: plain
//! hashing and the two stages of key derivation.
use vstd::prelude::*;

verus! {

/// Bytes in one chunk, the leaf of the tree.
pub const CHUNK_LEN: usize = 1024;

/// Bytes in one compression block.
pub const BLOCK_LEN: usize = 64;

/// Initial chaining value of every node in an unkeyed mode.
pub const IV: [u32; 8] = [
    0x6A09E667,
    0xBB67AE85,
    0x3C6EF372,
    0xA54FF53A,
    0x510E527F,
    0x9B05688C,
    0x1F83D9AB,
    0x5BE0CD19,
];

/// Order in which each of the seven rounds reads the sixteen message words.
pub const MSG_SCHEDULE: [[usize; 16]; 7] = [
    [0, 1, 2, 3, 4, 5, 6, 7, 8, 9, 10, 11, 12, 13, 14, 15],
    [2, 6, 3, 10, 7, 0, 4, 13, 1, 11, 12, 5, 9, 14, 15, 8],
    [3, 4, 10, 12, 13, 2, 7, 14, 6, 5, 9, 0, 11, 15, 8, 1],
    [10, 7, 12, 9, 14, 3, 13, 15, 4, 0, 11, 2, 5, 8, 1, 6],
    [12, 13, 9, 11, 15, 10, 14, 8, 7, 2, 5, 3, 0, 1, 6, 4],
    [9, 14, 11, 5, 8, 12, 15, 1, 13, 3, 0, 10, 2, 6, 4, 7],
    [11, 15, 5, 0, 1, 9, 8, 6, 14, 10, 2, 12, 3, 4, 7, 13],
];

/// Set on the first block of a chunk.
pub const CHUNK_START: u8 = 1;

/// Set on the last block of a chunk.
pub const CHUNK_END: u8 = 2;

/// Set on a node that joins two subtrees.
pub const PARENT: u8 = 4;

/// Set on the final compression of the whole tree.
pub const ROOT: u8 = 8;

/// Set at every node when hashing a key-derivation context.
pub const DERIVE_KEY_CONTEXT: u8 = 32;

/// Set at every node when hashing key material.
pub const DERIVE_KEY_MATERIAL: u8 = 64;

/// A mode of BLAKE3: the words that every chunk and parent starts from, and the
/// flag that is set at every node.
pub struct Mode {
    pub key: Seq<u32>,
    pub flag: u8,
}

/// Plain hashing.
pub open spec fn hash_mode() -> Mode {
    Mode { key: IV@, flag: 0 }
}

/// The first stage of key derivation, over the context.
pub open spec fn context_mode() -> Mode {
    Mode { key: IV@, flag: DERIVE_KEY_CONTEXT }
}

/// The second stage of key derivation, over the key material, keyed by the hash
/// of the context.
pub open spec fn material_mode(context_key: Seq<u8>) -> Mode {
    Mode {
        key: Seq::new(8, |i: int| le_word(context_key, 4 * i)),
        flag: DERIVE_KEY_MATERIAL,
    }
}

/// A 32-bit rotation to the right.
pub open spec fn rotr(x: u32, n: u32) -> u32 {
    (x >> n) | (x << ((32 - n) as u32))
}

/// The quarter-round: mixes the message words `x` and `y` into the four state
/// words at `a`, `b`, `c` and `d`.
pub open spec fn mixed(
    state: Seq<u32>,
    a: int,
    b: int,
    c: int,
    d: int,
    x: u32,
    y: u32,
) -> Seq<u32> {
    let s = state.update(a, state[a].wrapping_add(state[b]).wrapping_add(x));
    let s = s.update(d, rotr(s[d] ^ s[a], 16));
    let s = s.update(c, s[c].wrapping_add(s[d]));
    let s = s.update(b, rotr(s[b] ^ s[c], 12));
    let s = s.update(a, s[a].wrapping_add(s[b]).wrapping_add(y));
    let s = s.update(d, rotr(s[d] ^ s[a], 8));
    let s = s.update(c, s[c].wrapping_add(s[d]));
    s.update(b, rotr(s[b] ^ s[c], 7))
}

/// The message word that round `r` reads in place `i`.
pub open spec fn scheduled(msg: Seq<u32>, r: int, i: int) -> u32 {
    msg[MSG_SCHEDULE@[r]@[i] as int]
}

/// The column half of a round.
pub open spec fn columns_mixed(state: Seq<u32>, msg: Seq<u32>, r: int) -> Seq<u32> {
    let s = mixed(state, 0, 4, 8, 12, scheduled(msg, r, 0), scheduled(msg, r, 1));
    let s = mixed(s, 1, 5, 9, 13, scheduled(msg, r, 2), scheduled(msg, r, 3));
    let s = mixed(s, 2, 6, 10, 14, scheduled(msg, r, 4), scheduled(msg, r, 5));
    mixed(s, 3, 7, 11, 15, scheduled(msg, r, 6), scheduled(msg, r, 7))
}

/// The diagonal half of a round.
pub open spec fn diagonals_mixed(state: Seq<u32>, msg: Seq<u32>, r: int) -> Seq<u32> {
    let s = mixed(state, 0, 5, 10, 15, scheduled(msg, r, 8), scheduled(msg, r, 9));
    let s = mixed(s, 1, 6, 11, 12, scheduled(msg, r, 10), scheduled(msg, r, 11));
    let s = mixed(s, 2, 7, 8, 13, scheduled(msg, r, 12), scheduled(msg, r, 13));
    mixed(s, 3, 4, 9, 14, scheduled(msg, r, 14), scheduled(msg, r, 15))
}

/// The state after round `r`: the four columns, then the four diagonals.
pub open spec fn round_mixed(state: Seq<u32>, msg: Seq<u32>, r: int) -> Seq<u32> {
    diagonals_mixed(columns_mixed(state, msg, r), msg, r)
}

/// The state after the first `n` rounds.
pub open spec fn rounds_mixed(state: Seq<u32>, msg: Seq<u32>, n: nat) -> Seq<u32>
    decreases n,
{
    if n == 0 {
        state
    } else {
        round_mixed(rounds_mixed(state, msg, (n - 1) as nat), msg, n - 1)
    }
}

/// The little-endian word that starts at byte `at`.
pub open spec fn le_word(bytes: Seq<u8>, at: int) -> u32 {
    (bytes[at] + 0x100 * bytes[at + 1] + 0x1_0000 * bytes[at + 2] + 0x100_0000 * bytes[at
        + 3]) as u32
}

/// The sixteen message words of a block.
pub open spec fn message_words(block: Seq<u8>) -> Seq<u32> {
    Seq::new(16, |i: int| le_word(block, 4 * i))
}

/// The state that a compression starts from.
pub open spec fn initial_state(cv: Seq<u32>, counter: u64, block_len: u8, flags: u8) -> Seq<u32> {
    seq![
        cv[0],
        cv[1],
        cv[2],
        cv[3],
        cv[4],
        cv[5],
        cv[6],
        cv[7],
        IV@[0],
        IV@[1],
        IV@[2],
        IV@[3],
        (counter % 0x1_0000_0000) as u32,
        (counter / 0x1_0000_0000) as u32,
        block_len as u32,
        flags as u32,
    ]
}

/// The compression function, reduced to its first eight output words.
#[verifier::opaque]
pub open spec fn compressed(
    cv: Seq<u32>,
    block: Seq<u8>,
    counter: u64,
    block_len: u8,
    flags: u8,
) -> Seq<u32> {
    let last = rounds_mixed(
        initial_state(cv, counter, block_len, flags),
        message_words(block),
        7,
    );
    Seq::new(8, |i: int| last[i] ^ last[i + 8])
}

/// The little-endian bytes of a word.
pub open spec fn le_bytes(word: u32) -> Seq<u8> {
    seq![
        (word % 0x100) as u8,
        (word / 0x100 % 0x100) as u8,
        (word / 0x1_0000 % 0x100) as u8,
        (word / 0x100_0000) as u8,
    ]
}

/// Eight words as thirty-two little-endian bytes.
pub open spec fn word_bytes(words: Seq<u32>) -> Seq<u8> {
    Seq::new(32, |i: int| le_bytes(words[i / 4])[i % 4])
}

/// A tree node before its last compression, by value.
#[verifier::ext_equal]
pub struct NodeModel {
    pub cv: Seq<u32>,
    pub block: Seq<u8>,
    pub block_len: u8,
    pub counter: u64,
    pub flags: u8,
}

impl NodeModel {
    /// What the node contributes to its parent.
    pub open spec fn chaining_value(self) -> Seq<u8> {
        word_bytes(compressed(self.cv, self.block, self.counter, self.block_len, self.flags))
    }

    /// What the node gives when it is the root.
    pub open spec fn root_value(self) -> Seq<u8> {
        word_bytes(compressed(self.cv, self.block, self.counter, self.block_len, self.flags | ROOT))
    }
}

/// A block filled up with zeros.
pub open spec fn padded(bytes: Seq<u8>) -> Seq<u8> {
    Seq::new(
        BLOCK_LEN as nat,
        |i: int|
            if i < bytes.len() {
                bytes[i]
            } else {
                0u8
            },
    )
}

/// How many blocks of a chunk come before the last one. An empty chunk is one
/// empty block.
pub open spec fn leading_blocks(chunk_len: nat) -> nat {
    if chunk_len == 0 {
        0
    } else {
        ((chunk_len - 1) / BLOCK_LEN as int) as nat
    }
}

/// `CHUNK_START` on the first block of a chunk, nothing on the others.
pub open spec fn start_flag(block_index: nat) -> u8 {
    if block_index == 0 {
        CHUNK_START
    } else {
        0u8
    }
}

/// The chaining value after the first `n` blocks of a chunk.
pub open spec fn chunk_cv(mode: Mode, chunk: Seq<u8>, counter: u64, n: nat) -> Seq<u32>
    decreases n,
{
    if n == 0 {
        mode.key
    } else {
        let i = (n - 1) as nat;
        compressed(
            chunk_cv(mode, chunk, counter, i),
            chunk.subrange(BLOCK_LEN * i, BLOCK_LEN * n),
            counter,
            BLOCK_LEN as u8,
            mode.flag | start_flag(i),
        )
    }
}

/// The leaf for `chunk`, the chunk number `counter` of the input.
pub open spec fn chunk_leaf(mode: Mode, chunk: Seq<u8>, counter: u64) -> NodeModel {
    let n = leading_blocks(chunk.len());
    let tail = chunk.skip(BLOCK_LEN * n);
    NodeModel {
        cv: chunk_cv(mode, chunk, counter, n),
        block: padded(tail),
        block_len: tail.len() as u8,
        counter,
        flags: mode.flag | CHUNK_END | start_flag(n),
    }
}

/// The node that joins two chaining values.
pub open spec fn joined(mode: Mode, left: Seq<u8>, right: Seq<u8>) -> NodeModel {
    NodeModel {
        cv: mode.key,
        block: left + right,
        block_len: BLOCK_LEN as u8,
        counter: 0,
        flags: mode.flag | PARENT,
    }
}

/// How many chunks an input has. An empty input is one empty chunk.
pub open spec fn chunk_count(len: nat) -> nat {
    if len == 0 {
        1
    } else {
        ((len - 1) / CHUNK_LEN as int + 1) as nat
    }
}

/// Chunk number `i` of an input.
pub open spec fn chunk_at(input: Seq<u8>, i: nat) -> Seq<u8> {
    let end = CHUNK_LEN * (i + 1);
    input.subrange(
        CHUNK_LEN * i,
        if end < input.len() {
            end
        } else {
            input.len() as int
        },
    )
}

/// The largest power of two below `n`, for `n` of at least two.
pub open spec fn left_size(n: nat) -> nat
    decreases n,
{
    if n <= 2 {
        1
    } else {
        2 * left_size(((n + 1) / 2) as nat)
    }
}

/// Both children of a split get something, and the left one at least half.
pub proof fn lemma_left_size_bounds(n: nat)
    requires
        n >= 2,
    ensures
        left_size(n) < n <= 2 * left_size(n),
    decreases n,
{
    if n > 2 {
        lemma_left_size_bounds(((n + 1) / 2) as nat);
    }
}

/// The subtree over the `n` chunks from chunk `first` on. The left child takes
/// the largest power of two that leaves something for the right one.
pub open spec fn subtree(mode: Mode, input: Seq<u8>, first: nat, n: nat) -> NodeModel
    decreases n,
{
    if n <= 1 {
        chunk_leaf(mode, chunk_at(input, first), first as u64)
    } else {
        proof {
            lemma_left_size_bounds(n);
        }
        let k = left_size(n);
        joined(
            mode,
            subtree(mode, input, first, k).chaining_value(),
            subtree(mode, input, first + k, (n - k) as nat).chaining_value(),
        )
    }
}

/// The BLAKE3 hash of `input` in the given mode: the root over all its chunks.
pub open spec fn tree_hash(mode: Mode, input: Seq<u8>) -> Seq<u8> {
    subtree(mode, input, 0, chunk_count(input.len())).root_value()
}

/// The BLAKE3 hash of a key-derivation context.
pub open spec fn context_hash(ctx: Seq<u8>) -> Seq<u8> {
    tree_hash(context_mode(), ctx)
}

} // verus!
