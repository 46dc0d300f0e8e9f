//! The context stage of BLAKE3 key derivation, over arbitrary bytes.
use vstd::arithmetic::power2::*;
use vstd::prelude::*;
use crate::blake3_spec::{
    Mode, BLOCK_LEN, CHUNK_END, CHUNK_LEN, CHUNK_START, DERIVE_KEY_CONTEXT, IV, MSG_SCHEDULE,
    PARENT, ROOT,
};

verus! {

/// `x` rotated right by `n` bits.
fn rotate_right(x: u32, n: u32) -> (r: u32)
    requires
        0 < n < 32,
    ensures
        r == crate::blake3_spec::rotr(x, n),
{
    (x >> n) | (x << (32 - n))
}

/// The quarter-round over the state words at `a`, `b`, `c` and `d`.
pub fn g(state: &mut [u32; 16], a: usize, b: usize, c: usize, d: usize, x: u32, y: u32)
    requires
        a < 16,
        b < 16,
        c < 16,
        d < 16,
    ensures
        final(state)@ == crate::blake3_spec::mixed(
            old(state)@,
            a as int,
            b as int,
            c as int,
            d as int,
            x,
            y,
        ),
{
    state[a] = state[a].wrapping_add(state[b]).wrapping_add(x);
    state[d] = rotate_right(state[d] ^ state[a], 16);
    state[c] = state[c].wrapping_add(state[d]);
    state[b] = rotate_right(state[b] ^ state[c], 12);
    state[a] = state[a].wrapping_add(state[b]).wrapping_add(y);
    state[d] = rotate_right(state[d] ^ state[a], 8);
    state[c] = state[c].wrapping_add(state[d]);
    state[b] = rotate_right(state[b] ^ state[c], 7);
}

/// One round: the four columns, then the four diagonals.
pub fn round(state: &mut [u32; 16], msg: &[u32; 16], round: usize)
    requires
        round < 7,
    ensures
        final(state)@ == crate::blake3_spec::round_mixed(old(state)@, msg@, round as int),
{
    let schedule = MSG_SCHEDULE[round];
    proof {
        lemma_schedule_in_range(round as int);
    }
    g(state, 0, 4, 8, 12, msg[schedule[0]], msg[schedule[1]]);
    g(state, 1, 5, 9, 13, msg[schedule[2]], msg[schedule[3]]);
    g(state, 2, 6, 10, 14, msg[schedule[4]], msg[schedule[5]]);
    g(state, 3, 7, 11, 15, msg[schedule[6]], msg[schedule[7]]);
    g(state, 0, 5, 10, 15, msg[schedule[8]], msg[schedule[9]]);
    g(state, 1, 6, 11, 12, msg[schedule[10]], msg[schedule[11]]);
    g(state, 2, 7, 8, 13, msg[schedule[12]], msg[schedule[13]]);
    g(state, 3, 4, 9, 14, msg[schedule[14]], msg[schedule[15]]);
}

/// Every entry of the schedule names a message word.
proof fn lemma_schedule_in_range(r: int)
    requires
        0 <= r < 7,
    ensures
        forall|i: int| 0 <= i < 16 ==> #[trigger] MSG_SCHEDULE@[r]@[i] < 16,
{
}

/// The message words of a block.
fn block_words(block: &[u8; 64]) -> (words: [u32; 16])
    ensures
        words@ == crate::blake3_spec::message_words(block@),
{
    let mut words: [u32; 16] = [0u32; 16];
    for i in 0..16usize
        invariant
            forall|j: int|
                0 <= j < i ==> words@[j] == #[trigger] crate::blake3_spec::message_words(block@)[j],
    {
        let at: usize = 4 * i;
        words[i] = block[at] as u32 + 0x100 * block[at + 1] as u32 + 0x1_0000 * block[at + 2] as u32
            + 0x100_0000 * block[at + 3] as u32;
    }
    assert(words@ =~= crate::blake3_spec::message_words(block@));
    words
}

/// The compression function, reduced to its first eight output words.
#[verifier::spinoff_prover]
#[verifier::rlimit(60)]
pub fn compress(cv: [u32; 8], block: &[u8; 64], counter: u64, block_len: u8, flags: u8) -> (out:
    [u32; 8])
    ensures
        out@ == crate::blake3_spec::compressed(cv@, block@, counter, block_len, flags),
{
    reveal(crate::blake3_spec::compressed);
    let words = block_words(block);
    let mut state: [u32; 16] = [
        cv[0],
        cv[1],
        cv[2],
        cv[3],
        cv[4],
        cv[5],
        cv[6],
        cv[7],
        IV[0],
        IV[1],
        IV[2],
        IV[3],
        (counter % 0x1_0000_0000) as u32,
        (counter / 0x1_0000_0000) as u32,
        block_len as u32,
        flags as u32,
    ];
    let ghost start = state@;
    assert(start =~= crate::blake3_spec::initial_state(cv@, counter, block_len, flags));
    for r in 0..7usize
        invariant
            state@ == crate::blake3_spec::rounds_mixed(start, words@, r as nat),
    {
        round(&mut state, &words, r);
    }
    let mut out: [u32; 8] = [0u32; 8];
    for i in 0..8usize
        invariant
            forall|j: int| 0 <= j < i ==> out@[j] == (state@[j] ^ state@[j + 8]),
    {
        out[i] = state[i] ^ state[i + 8];
    }
    assert(out@ =~= crate::blake3_spec::compressed(cv@, block@, counter, block_len, flags));
    out
}

/// Eight words as thirty-two little-endian bytes.
pub fn words_to_bytes(w: [u32; 8]) -> (out: [u8; 32])
    ensures
        out@ == crate::blake3_spec::word_bytes(w@),
{
    let mut out: [u8; 32] = [0u8; 32];
    for i in 0..8usize
        invariant
            forall|j: int|
                0 <= j < 4 * i ==> out@[j] == #[trigger] crate::blake3_spec::word_bytes(w@)[j],
    {
        let at: usize = 4 * i;
        let word: u32 = w[i];
        out[at] = (word % 0x100) as u8;
        out[at + 1] = (word / 0x100 % 0x100) as u8;
        out[at + 2] = (word / 0x1_0000 % 0x100) as u8;
        out[at + 3] = (word / 0x100_0000) as u8;
    }
    assert(out@ =~= crate::blake3_spec::word_bytes(w@));
    out
}

/// One tree node: the parameters of its last compression.
pub struct Node {
    pub cv: [u32; 8],
    pub block: [u8; 64],
    pub block_len: u8,
    pub counter: u64,
    pub flags: u8,
}

impl View for Node {
    type V = crate::blake3_spec::NodeModel;

    open spec fn view(&self) -> crate::blake3_spec::NodeModel {
        crate::blake3_spec::NodeModel {
            cv: self.cv@,
            block: self.block@,
            block_len: self.block_len,
            counter: self.counter,
            flags: self.flags,
        }
    }
}

impl Node {
    /// The chaining value that the node hands to its parent.
    pub fn cv_bytes(&self) -> (out: [u8; 32])
        ensures
            out@ == self@.chaining_value(),
            out@ == crate::blake3_spec::word_bytes(
                crate::blake3_spec::compressed(
                    self.cv@,
                    self.block@,
                    self.counter,
                    self.block_len,
                    self.flags,
                ),
            ),
    {
        words_to_bytes(
            compress(self.cv, &self.block, self.counter, self.block_len, self.flags),
        )
    }

    /// The hash that the node gives as the root of the tree.
    pub fn root_bytes(&self) -> (out: [u8; 32])
        ensures
            out@ == self@.root_value(),
            out@ == crate::blake3_spec::word_bytes(
                crate::blake3_spec::compressed(
                    self.cv@,
                    self.block@,
                    self.counter,
                    self.block_len,
                    self.flags | 8,
                ),
            ),
    {
        words_to_bytes(
            compress(self.cv, &self.block, self.counter, self.block_len, self.flags | ROOT),
        )
    }
}

/// The value of a node is that of its fields, one by one.
pub proof fn law_node_by_value(node: Node)
    ensures
        node@.cv == node.cv@,
        node@.block == node.block@,
        node@.block_len == node.block_len,
        node@.counter == node.counter,
        node@.flags == node.flags,
{
}

/// The `len` bytes of `bytes` from `start` on, filled up to a block with zeros.
fn block_from(bytes: &[u8], start: usize, len: usize) -> (block: [u8; 64])
    requires
        len <= BLOCK_LEN,
        start + len <= bytes@.len(),
    ensures
        block@ == crate::blake3_spec::padded(bytes@.subrange(start as int, start + len)),
{
    let mut block: [u8; 64] = [0u8; 64];
    for j in 0..len
        invariant
            len <= BLOCK_LEN,
            start + len <= bytes.len(),
            forall|k: int| 0 <= k < j ==> block@[k] == bytes@[start + k],
            forall|k: int| j <= k < BLOCK_LEN ==> block@[k] == 0,
    {
        block[j] = bytes[start + j];
    }
    assert(block@ =~= crate::blake3_spec::padded(bytes@.subrange(start as int, start + len)));
    block
}

/// The leaf for `chunk` as chunk number `counter`: all blocks but the last are
/// compressed into the chaining value, the last stays in the node.
pub fn chunk_node(chunk: &[u8], counter: u64) -> (node: Node)
    ensures
        node@ == crate::blake3_spec::chunk_leaf(
            crate::blake3_spec::context_mode(),
            chunk@,
            counter,
        ),
{
    let mut cv: [u32; 8] = IV;
    let buffered: usize = if chunk.len() == 0 {
        0
    } else {
        (chunk.len() - 1) / BLOCK_LEN
    };
    for i in 0..buffered
        invariant
            buffered == crate::blake3_spec::leading_blocks(chunk@.len()),
            buffered * BLOCK_LEN <= chunk.len(),
            cv@ == crate::blake3_spec::chunk_cv(
                crate::blake3_spec::context_mode(),
                chunk@,
                counter,
                i as nat,
            ),
    {
        let block = block_from(chunk, i * BLOCK_LEN, BLOCK_LEN);
        assert(block@ =~= chunk@.subrange(BLOCK_LEN * i, BLOCK_LEN * (i + 1)));
        let start: u8 = if i == 0 {
            CHUNK_START
        } else {
            0
        };
        cv = compress(cv, &block, counter, BLOCK_LEN as u8, DERIVE_KEY_CONTEXT | start);
    }
    let tail_len: usize = chunk.len() - buffered * BLOCK_LEN;
    let block = block_from(chunk, buffered * BLOCK_LEN, tail_len);
    assert(chunk@.subrange(buffered * BLOCK_LEN, chunk@.len() as int) =~= chunk@.skip(
        BLOCK_LEN * buffered,
    ));
    let start: u8 = if buffered == 0 {
        CHUNK_START
    } else {
        0
    };
    Node {
        cv,
        block,
        block_len: tail_len as u8,
        counter,
        flags: DERIVE_KEY_CONTEXT | CHUNK_END | start,
    }
}

/// The node that joins the chaining values of two subtrees.
pub fn parent_node(left: &[u8; 32], right: &[u8; 32]) -> (node: Node)
    ensures
        node@ == crate::blake3_spec::joined(crate::blake3_spec::context_mode(), left@, right@),
{
    let mut block: [u8; 64] = [0u8; 64];
    for j in 0..32usize
        invariant
            forall|k: int| 0 <= k < j ==> block@[k] == left@[k] && block@[k + 32] == right@[k],
    {
        block[j] = left[j];
        block[j + 32] = right[j];
    }
    assert(block@ =~= left@ + right@) by {
        assert forall|k: int| 32 <= k < 64 implies block@[k] == right@[k - 32] by {
            assert(block@[(k - 32) + 32] == right@[k - 32]);
        }
    }
    Node { cv: IV, block, block_len: BLOCK_LEN as u8, counter: 0, flags: DERIVE_KEY_CONTEXT | PARENT }
}

/// The values of a run of nodes.
spec fn models(nodes: Seq<Node>) -> Seq<crate::blake3_spec::NodeModel> {
    nodes.map_values(|node: Node| node@)
}

/// Joins the finished subtrees on `stack` with `leaf`, the leaf of chunk `i`:
/// while an even number of equally large subtrees is complete, the last two
/// become one.
fn push_chunk(stack: &mut Vec<Node>, leaf: Node, i: u64, ctx: Ghost<Seq<u8>>)
    requires
        i < u64::MAX,
        models(old(stack)@) == crate::blake3_tree::forest(
            crate::blake3_spec::context_mode(),
            ctx@,
            i as nat,
        ),
        leaf@ == crate::blake3_spec::subtree(crate::blake3_spec::context_mode(), ctx@, i as nat, 1),
    ensures
        models(final(stack)@) == crate::blake3_tree::forest(
            crate::blake3_spec::context_mode(),
            ctx@,
            (i + 1) as nat,
        ),
{
    let mut node = leaf;
    let mut total: u64 = i + 1;
    let ghost mut e: nat = 0;
    proof {
        lemma2_to64();
    }
    while total.is_multiple_of(2)
        invariant
            total > 0,
            pow2(e) > 0,
            total * pow2(e) == i + 1,
            pow2(e) <= i + 1,
            node@ == crate::blake3_spec::subtree(
                crate::blake3_spec::context_mode(),
                ctx@,
                (i + 1 - pow2(e)) as nat,
                pow2(e),
            ),
            models(stack@) == crate::blake3_tree::forest(
                crate::blake3_spec::context_mode(),
                ctx@,
                (i + 1 - pow2(e)) as nat,
            ),
        decreases total,
    {
        let ghost size = pow2(e);
        let ghost done = (i + 1 - size) as nat;
        let ghost first = (done - size) as nat;
        let ghost before = stack@;
        proof {
            assert(2 * size <= i + 1) by (nonlinear_arith)
                requires
                    total >= 2,
                    total * size == i + 1,
            ;
            let odd = (total - 1) as nat;
            assert(done == odd * size && first == (odd - 1) * size && done == first + size)
                by (nonlinear_arith)
                requires
                    total >= 2,
                    odd == total - 1,
                    total * size == i + 1,
                    done == i + 1 - size,
                    first == i + 1 - 2 * size,
            ;
            crate::blake3_tree::lemma_lowest_bit_of_odd_multiple(odd, e);
            crate::blake3_tree::lemma_equal_subtrees_join(
                crate::blake3_spec::context_mode(),
                ctx@,
                first,
                e,
            );
            assert(models(before).len() == before.len());
            assert(models(before).last() == before.last()@);
        }
        let left = stack.pop().unwrap();
        node = parent_node(&left.cv_bytes(), &node.cv_bytes());
        total = total / 2;
        proof {
            assert(models(stack@) =~= models(before).drop_last());
            lemma_pow2_unfold(e + 1);
            assert(total * (2 * size) == i + 1) by (nonlinear_arith)
                requires
                    (2 * total) * size == i + 1,
            ;
            e = e + 1;
        }
    }
    let ghost before = stack@;
    stack.push(node);
    proof {
        crate::blake3_tree::lemma_lowest_bit_of_odd_multiple(total as nat, e);
        assert(models(stack@) =~= models(before).push(node@));
    }
}

/// Folds the finished subtrees on `stack` from the right, the last join being
/// the root.
fn fold_to_root(stack: Vec<Node>, n: Ghost<nat>, ctx: Ghost<Seq<u8>>) -> (root: [u8; 32])
    requires
        n@ > 0,
        models(stack@) == crate::blake3_tree::forest(crate::blake3_spec::context_mode(), ctx@, n@),
    ensures
        root@ == crate::blake3_spec::subtree(
            crate::blake3_spec::context_mode(),
            ctx@,
            0,
            n@,
        ).root_value(),
{
    let mut stack = stack;
    let ghost mut m: nat = (n@ - crate::blake3_tree::lowest_bit(n@)) as nat;
    proof {
        crate::blake3_tree::lemma_lowest_bit_bounds(n@);
        if m > 0 {
            crate::blake3_tree::lemma_next_lowest_bit(n@);
        }
        assert(models(stack@).len() == stack@.len());
        assert(models(stack@).last() == stack@.last()@);
    }
    let ghost all = stack@;
    let mut node = stack.pop().unwrap();
    assert(models(stack@) =~= models(all).drop_last());
    while stack.len() > 0
        invariant
            m < n@,
            models(stack@) == crate::blake3_tree::forest(
                crate::blake3_spec::context_mode(),
                ctx@,
                m,
            ),
            node@ == crate::blake3_spec::subtree(
                crate::blake3_spec::context_mode(),
                ctx@,
                m,
                (n@ - m) as nat,
            ),
            m > 0 ==> n@ - m <= crate::blake3_tree::lowest_bit(m),
        decreases stack@.len(),
    {
        let ghost before = stack@;
        let ghost size = crate::blake3_tree::lowest_bit(m);
        proof {
            assert(models(before).len() == before.len());
            assert(models(before).last() == before.last()@);
            crate::blake3_tree::lemma_lowest_bit_bounds(m);
            crate::blake3_tree::lemma_last_subtree_joins(
                crate::blake3_spec::context_mode(),
                ctx@,
                m,
                (n@ - m) as nat,
            );
            if m > size {
                crate::blake3_tree::lemma_next_lowest_bit(m);
            }
        }
        let left = stack.pop().unwrap();
        node = parent_node(&left.cv_bytes(), &node.cv_bytes());
        proof {
            assert(models(stack@) =~= models(before).drop_last());
            m = (m - size) as nat;
        }
    }
    assert(models(stack@).len() == 0);
    node.root_bytes()
}

/// The BLAKE3 hash of a key-derivation context of arbitrary bytes.
pub fn context_key(ctx: &[u8]) -> (key: [u8; 32])
    ensures
        key@ == crate::blake3_spec::context_hash(ctx@),
        key@ == crate::blake3_spec::tree_hash(
            (Mode {
                key: seq![
                    0x6A09E667u32,
                    0xBB67AE85,
                    0x3C6EF372,
                    0xA54FF53A,
                    0x510E527F,
                    0x9B05688C,
                    0x1F83D9AB,
                    0x5BE0CD19,
                ],
                flag: 32,
            }),
            ctx@,
        ),
{
    proof {
        crate::blake3_laws::law_context_is_hashed_as_it_stands(ctx@);
    }
    let chunks: usize = if ctx.len() == 0 {
        1
    } else {
        (ctx.len() - 1) / CHUNK_LEN + 1
    };
    let mut stack: Vec<Node> = Vec::new();
    assert(models(stack@) =~= crate::blake3_tree::forest(
        crate::blake3_spec::context_mode(),
        ctx@,
        0,
    ));
    for i in 0..chunks
        invariant
            chunks == crate::blake3_spec::chunk_count(ctx@.len()),
            (chunks - 1) * CHUNK_LEN <= ctx.len(),
            models(stack@) == crate::blake3_tree::forest(
                crate::blake3_spec::context_mode(),
                ctx@,
                i as nat,
            ),
    {
        let start: usize = i * CHUNK_LEN;
        let end: usize = if ctx.len() - start > CHUNK_LEN {
            start + CHUNK_LEN
        } else {
            ctx.len()
        };
        let chunk = vstd::slice::slice_subrange(ctx, start, end);
        assert(chunk@ == crate::blake3_spec::chunk_at(ctx@, i as nat));
        let leaf = chunk_node(chunk, i as u64);
        push_chunk(&mut stack, leaf, i as u64, Ghost(ctx@));
    }
    fold_to_root(stack, Ghost(chunks as nat), Ghost(ctx@))
}

} // verus!
