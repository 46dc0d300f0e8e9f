//! Big-endian counters, and the 96-bit one that makes the nonces.
use vstd::prelude::*;

verus! {

/// All-ones nonce, for the fixed-position seals of the handshake.
pub const MAX_NONCE: [u8; 12] = [
    0xFF,
    0xFF,
    0xFF,
    0xFF,
    0xFF,
    0xFF,
    0xFF,
    0xFF,
    0xFF,
    0xFF,
    0xFF,
    0xFF,
];

/// How many nonces there are.
pub open spec fn nonce_space() -> nat {
    0x1_0000_0000_0000_0000_0000_0000
}

/// The number that big-endian bytes stand for.
pub open spec fn be_value(bytes: Seq<u8>) -> nat
    decreases bytes.len(),
{
    if bytes.len() == 0 {
        0
    } else {
        0x100 * be_value(bytes.drop_last()) + bytes.last() as nat
    }
}

/// How many numbers `len` bytes can stand for.
pub open spec fn byte_space(len: nat) -> nat
    decreases len,
{
    if len == 0 {
        1
    } else {
        0x100 * byte_space((len - 1) as nat)
    }
}

/// The next big-endian bytes of the same length: the last byte goes up by one,
/// and one that was all ones becomes zero and carries to its left.
pub open spec fn incremented(bytes: Seq<u8>) -> Seq<u8>
    decreases bytes.len(),
{
    if bytes.len() == 0 {
        bytes
    } else if bytes.last() == 0xFF {
        incremented(bytes.drop_last()).push(0)
    } else {
        bytes.drop_last().push((bytes.last() + 1) as u8)
    }
}

/// The bytes after `k` increments.
pub open spec fn incremented_by(bytes: Seq<u8>, k: nat) -> Seq<u8>
    decreases k,
{
    if k == 0 {
        bytes
    } else {
        incremented(incremented_by(bytes, (k - 1) as nat))
    }
}

/// Bytes stand for a number below the count of those that their length allows.
pub proof fn lemma_be_value_bound(bytes: Seq<u8>)
    ensures
        be_value(bytes) < byte_space(bytes.len()),
    decreases bytes.len(),
{
    if bytes.len() > 0 {
        lemma_be_value_bound(bytes.drop_last());
    }
}

/// Twelve bytes span the nonce space.
pub proof fn lemma_nonce_space()
    ensures
        byte_space(12) == nonce_space(),
{
    reveal_with_fuel(byte_space, 13);
}

/// An increment adds one, modulo the numbers that the bytes can stand for.
pub proof fn lemma_incremented_value(bytes: Seq<u8>)
    ensures
        incremented(bytes).len() == bytes.len(),
        be_value(incremented(bytes)) == if be_value(bytes) + 1 == byte_space(bytes.len()) {
            0
        } else {
            be_value(bytes) + 1
        },
    decreases bytes.len(),
{
    if bytes.len() > 0 {
        let head = bytes.drop_last();
        lemma_incremented_value(head);
        lemma_be_value_bound(head);
        if bytes.last() == 0xFF {
            assert(incremented(head).push(0).drop_last() =~= incremented(head));
        } else {
            assert(head.push((bytes.last() + 1) as u8).drop_last() =~= head);
        }
    }
}

/// What big-endian bytes stand for: nothing for no byte, and a byte behind others
/// makes them count 256 times as much and adds itself.
pub proof fn law_big_endian_value(bytes: Seq<u8>, b: u8)
    ensures
        be_value(Seq::empty()) == 0,
        be_value(bytes.push(b)) == 256 * be_value(bytes) + b,
{
    assert(bytes.push(b).drop_last() =~= bytes);
}

/// The nonces are the numbers of 96 bits, and the largest one is all ones.
pub proof fn law_nonces_have_96_bits()
    ensures
        nonce_space() == 0x1_0000_0000_0000_0000_0000_0000nat,
        MAX_NONCE@.len() == 12,
        forall|i: int| 0 <= i < 12 ==> #[trigger] MAX_NONCE@[i] == 0xFF,
{
    assert(MAX_NONCE@ =~= Seq::new(12, |i: int| 0xFFu8));
}

/// An increment adds one to the last byte that is not all ones, turns the bytes
/// behind it to zero and leaves those before it alone.
pub proof fn law_increment_carries(bytes: Seq<u8>, k: int)
    requires
        0 <= k < bytes.len(),
        bytes[k] < 0xFF,
        forall|j: int| k < j < bytes.len() ==> #[trigger] bytes[j] == 0xFF,
    ensures
        incremented(bytes).len() == bytes.len(),
        forall|j: int| 0 <= j < k ==> #[trigger] incremented(bytes)[j] == bytes[j],
        incremented(bytes)[k] == bytes[k] + 1,
        forall|j: int| k < j < bytes.len() ==> #[trigger] incremented(bytes)[j] == 0,
    decreases bytes.len(),
{
    if k < bytes.len() - 1 {
        assert(bytes[bytes.len() - 1] == 0xFF);
        law_increment_carries(bytes.drop_last(), k);
        let head = incremented(bytes.drop_last());
        assert forall|j: int| k < j < bytes.len() implies #[trigger] incremented(bytes)[j] == 0 by {
            if j < bytes.len() - 1 {
                assert(head[j] == 0);
            }
        }
        assert forall|j: int| 0 <= j < k implies #[trigger] incremented(bytes)[j] == bytes[j] by {
            assert(head[j] == bytes.drop_last()[j]);
        }
    }
}

/// Where all bytes are all ones, an increment turns them all to zero.
pub proof fn law_increment_wraps(bytes: Seq<u8>)
    requires
        forall|j: int| 0 <= j < bytes.len() ==> #[trigger] bytes[j] == 0xFF,
    ensures
        incremented(bytes).len() == bytes.len(),
        forall|j: int| 0 <= j < bytes.len() ==> #[trigger] incremented(bytes)[j] == 0,
    decreases bytes.len(),
{
    if bytes.len() > 0 {
        assert(bytes[bytes.len() - 1] == 0xFF);
        law_increment_wraps(bytes.drop_last());
        let head = incremented(bytes.drop_last());
        assert forall|j: int| 0 <= j < bytes.len() implies #[trigger] incremented(bytes)[j] == 0 by {
            if j < bytes.len() - 1 {
                assert(head[j] == 0);
            }
        }
    }
}

/// No increment leaves the bytes as they are, and one more is an increment of what
/// the others gave.
pub proof fn law_increments_add_up(bytes: Seq<u8>, k: nat)
    ensures
        incremented_by(bytes, 0) == bytes,
        incremented_by(bytes, k + 1) == incremented(incremented_by(bytes, k)),
{
}

/// The counter value tells the nonce: no two nonces stand for the same number.
pub proof fn law_value_determines_nonce(a: Seq<u8>, b: Seq<u8>)
    requires
        a.len() == b.len(),
        be_value(a) == be_value(b),
    ensures
        a == b,
    decreases a.len(),
{
    if a.len() > 0 {
        law_value_determines_nonce(a.drop_last(), b.drop_last());
        assert(a =~= a.drop_last().push(a.last()));
        assert(b =~= b.drop_last().push(b.last()));
    }
    assert(a =~= b);
}

/// After `k` increments the counter has gone up by `k`, modulo the nonce space.
pub proof fn law_counter_after(nonce: Seq<u8>, k: nat)
    requires
        nonce.len() == 12,
    ensures
        incremented_by(nonce, k).len() == 12,
        be_value(incremented_by(nonce, k)) == (be_value(nonce) + k) % nonce_space(),
    decreases k,
{
    lemma_nonce_space();
    lemma_be_value_bound(nonce);
    if k > 0 {
        let before = incremented_by(nonce, (k - 1) as nat);
        law_counter_after(nonce, (k - 1) as nat);
        lemma_incremented_value(before);
        lemma_be_value_bound(before);
    }
}

/// A counter does not come back to a nonce before it has gone through all of
/// them.
pub proof fn law_nonces_do_not_repeat(nonce: Seq<u8>, j: nat, k: nat)
    requires
        nonce.len() == 12,
        j < k < j + nonce_space(),
    ensures
        incremented_by(nonce, j) != incremented_by(nonce, k),
{
    law_counter_after(nonce, j);
    law_counter_after(nonce, k);
}

/// The largest nonce is the last one of the nonce space, and an increment takes
/// it to zero.
pub proof fn law_largest_nonce_wraps()
    ensures
        be_value(MAX_NONCE@) == nonce_space() - 1,
        incremented(MAX_NONCE@) == Seq::new(12, |i: int| 0u8),
{
    let zeros = Seq::new(12, |i: int| 0u8);
    reveal_with_fuel(be_value, 13);
    assert(MAX_NONCE@ =~= Seq::new(12, |i: int| 0xFFu8));
    lemma_nonce_space();
    lemma_incremented_value(MAX_NONCE@);
    law_value_determines_nonce(incremented(MAX_NONCE@), zeros);
}

} // verus!
