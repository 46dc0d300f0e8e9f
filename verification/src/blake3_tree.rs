//! How a left-to-right pass over the chunks builds the tree: after `m` chunks
//! the finished subtrees have the sizes of the binary digits of `m`, the largest
//! first.
use vstd::prelude::*;
use vstd::arithmetic::power2::*;

use crate::blake3_spec::{Mode, NodeModel};

verus! {

/// The largest power of two that divides `m`, for positive `m`.
pub open spec fn lowest_bit(m: nat) -> nat
    decreases m,
{
    if m == 0 {
        0
    } else if m % 2 == 1 {
        1
    } else {
        2 * lowest_bit(m / 2)
    }
}

/// A positive number is at least its lowest bit, which is positive.
pub proof fn lemma_lowest_bit_bounds(m: nat)
    requires
        m > 0,
    ensures
        0 < lowest_bit(m) <= m,
    decreases m,
{
    if m % 2 == 0 {
        lemma_lowest_bit_bounds(m / 2);
    }
}

/// The finished subtrees after `m` chunks, left to right.
pub open spec fn forest(mode: Mode, input: Seq<u8>, m: nat) -> Seq<NodeModel>
    decreases m,
{
    if m == 0 {
        Seq::empty()
    } else {
        proof {
            lemma_lowest_bit_bounds(m);
        }
        let size = lowest_bit(m);
        let first = (m - size) as nat;
        forest(mode, input, first).push(crate::blake3_spec::subtree(mode, input, first, size))
    }
}

/// An odd multiple of a power of two has that power as its lowest bit.
pub proof fn lemma_lowest_bit_of_odd_multiple(odd: nat, e: nat)
    requires
        odd % 2 == 1,
    ensures
        lowest_bit(odd * pow2(e)) == pow2(e),
    decreases e,
{
    if e == 0 {
        lemma2_to64();
    } else {
        let half = pow2((e - 1) as nat);
        lemma_pow2_unfold(e);
        lemma_pow2_pos((e - 1) as nat);
        lemma_lowest_bit_of_odd_multiple(odd, (e - 1) as nat);
        assert(odd * pow2(e) == 2 * (odd * half)) by (nonlinear_arith)
            requires
                pow2(e) == 2 * half,
        ;
        assert(odd * half > 0) by (nonlinear_arith)
            requires
                odd > 0,
                half > 0,
        ;
    }
}

/// What is left of a number without its lowest bit has a lowest bit at least
/// twice as large.
pub proof fn lemma_next_lowest_bit(m: nat)
    requires
        m > lowest_bit(m),
    ensures
        lowest_bit((m - lowest_bit(m)) as nat) >= 2 * lowest_bit(m),
    decreases m,
{
    if m % 2 == 1 {
        lemma_lowest_bit_bounds(((m - 1) / 2) as nat);
    } else {
        lemma_next_lowest_bit(m / 2);
        assert((m - lowest_bit(m)) == 2 * (m / 2 - lowest_bit(m / 2)));
    }
}

/// A split of `p + r` chunks takes `p` to the left, where `p` is a lowest bit
/// and `r` is between one and `p`.
pub proof fn lemma_left_size_of_sum(m: nat, r: nat)
    requires
        m > 0,
        0 < r <= lowest_bit(m),
    ensures
        crate::blake3_spec::left_size(lowest_bit(m) + r) == lowest_bit(m),
    decreases m,
{
    if m % 2 == 0 {
        let p = lowest_bit(m / 2);
        lemma_lowest_bit_bounds(m / 2);
        if r > 1 || p > 1 {
            let half = ((r + 1) / 2) as nat;
            lemma_left_size_of_sum(m / 2, half);
            assert((lowest_bit(m) + r + 1) / 2 == p + half);
        } else {
            lemma_left_size_of_sum(m / 2, 1);
        }
    }
}

/// Two neighbouring subtrees of the same power-of-two size join into the
/// subtree of twice the size.
pub proof fn lemma_equal_subtrees_join(mode: Mode, input: Seq<u8>, first: nat, e: nat)
    ensures
        crate::blake3_spec::subtree(mode, input, first, 2 * pow2(e)) == crate::blake3_spec::joined(
            mode,
            crate::blake3_spec::subtree(mode, input, first, pow2(e)).chaining_value(),
            crate::blake3_spec::subtree(mode, input, first + pow2(e), pow2(e)).chaining_value(),
        ),
{
    lemma_pow2_pos(e);
    lemma_lowest_bit_of_odd_multiple(1, e);
    lemma_left_size_of_sum(pow2(e), pow2(e));
}

/// The last finished subtree joins with whatever shorter run of chunks follows.
pub proof fn lemma_last_subtree_joins(mode: Mode, input: Seq<u8>, m: nat, r: nat)
    requires
        m > 0,
        0 < r <= lowest_bit(m),
    ensures
        crate::blake3_spec::subtree(mode, input, (m - lowest_bit(m)) as nat, lowest_bit(m) + r)
            == crate::blake3_spec::joined(
            mode,
            crate::blake3_spec::subtree(
                mode,
                input,
                (m - lowest_bit(m)) as nat,
                lowest_bit(m),
            ).chaining_value(),
            crate::blake3_spec::subtree(mode, input, m, r).chaining_value(),
        ),
{
    lemma_lowest_bit_bounds(m);
    lemma_left_size_of_sum(m, r);
}

} // verus!
